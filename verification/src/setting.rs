//! The retention cap, read from a textual setting in mebibytes.
use vstd::prelude::*;

verus! {

/// The cap without a setting: one gibibyte. Far larger than the working set of a
/// decode step and far smaller than any card, so that the cap only bites where
/// retention would grow without bound.
pub const DEFAULT_CAPACITY_BYTES: usize = 1_073_741_824;

const MEBIBYTE: usize = 1_048_576;

/// `c` is white space in Unicode.
pub open spec fn is_white_space(c: char) -> bool {
    let u = c as int;
    ||| 0x09 <= u <= 0x0d
    ||| u == 0x20
    ||| u == 0x85
    ||| u == 0xa0
    ||| u == 0x1680
    ||| 0x2000 <= u <= 0x200a
    ||| u == 0x2028
    ||| u == 0x2029
    ||| u == 0x202f
    ||| u == 0x205f
    ||| u == 0x3000
}

/// `s` without the white space in front.
pub open spec fn without_leading(s: Seq<char>) -> Seq<char>
    decreases s.len(),
{
    if s.len() > 0 && is_white_space(s[0]) {
        without_leading(s.drop_first())
    } else {
        s
    }
}

/// `s` without the white space at the end.
pub open spec fn without_trailing(s: Seq<char>) -> Seq<char>
    decreases s.len(),
{
    if s.len() > 0 && is_white_space(s.last()) {
        without_trailing(s.drop_last())
    } else {
        s
    }
}

/// `s` without the white space on both sides.
pub open spec fn trimmed(s: Seq<char>) -> Seq<char> {
    without_trailing(without_leading(s))
}

/// The value of a row of decimal digits.
pub open spec fn decimal_value(digits: Seq<char>) -> nat
    decreases digits.len(),
{
    if digits.len() == 0 {
        0
    } else {
        (decimal_value(digits.drop_last()) * 10 + (digits.last() as int - '0' as int)) as nat
    }
}

/// The digits behind the optional plus sign.
pub open spec fn behind_sign(s: Seq<char>) -> Seq<char> {
    if s.len() > 0 && s[0] == '+' {
        s.drop_first()
    } else {
        s
    }
}

/// The number that `s` spells: an optional plus sign and one or more decimal
/// digits, no larger than `usize::MAX`.
pub open spec fn number_in(s: Seq<char>) -> Option<usize> {
    let digits = behind_sign(s);
    if digits.len() > 0 && (forall|i: int|
        0 <= i < digits.len() ==> '0' <= #[trigger] digits[i] <= '9') && decimal_value(digits)
        <= usize::MAX {
        Some(decimal_value(digits) as usize)
    } else {
        None
    }
}

/// The cap that a number of mebibytes stands for. Zero means no cap.
pub open spec fn cap_of(mb: usize) -> usize {
    if mb == 0 || mb * 1_048_576 > usize::MAX {
        usize::MAX
    } else {
        (mb * 1_048_576) as usize
    }
}

/// The cap that a setting stands for. A setting that is missing or is no number
/// leaves the default.
pub open spec fn cap_of_setting(setting: Option<&str>) -> usize {
    match setting {
        Some(text) => match number_in(trimmed(text@)) {
            Some(mb) => cap_of(mb),
            None => DEFAULT_CAPACITY_BYTES,
        },
        None => DEFAULT_CAPACITY_BYTES,
    }
}

/// Calls `str::trim` of the standard library. The claim: leading and trailing
/// characters with the Unicode property `White_Space` are gone, nothing else is.
#[verifier::external_body]
fn trim(s: &str) -> (r: &str)
    ensures
        r@ == trimmed(s@),
{
    s.trim()
}

/// Calls `str::parse` of the standard library for `usize`. The claim: an optional
/// plus sign followed by decimal digits gives their value where it fits in a
/// `usize`, and anything else is an error.
#[verifier::external_body]
fn parse_usize(s: &str) -> (r: Option<usize>)
    ensures
        r == number_in(s@),
{
    s.parse::<usize>().ok()
}

/// The retention cap in bytes that a setting in mebibytes stands for.
pub fn capacity_from_setting(setting: Option<&str>) -> (capacity: usize)
    ensures
        capacity == cap_of_setting(setting),
{
    match setting {
        Some(text) => match parse_usize(trim(text)) {
            Some(mb) => {
                if mb == 0 {
                    usize::MAX
                } else {
                    match mb.checked_mul(MEBIBYTE) {
                        Some(bytes) => bytes,
                        None => usize::MAX,
                    }
                }
            },
            None => DEFAULT_CAPACITY_BYTES,
        },
        None => DEFAULT_CAPACITY_BYTES,
    }
}

/// Trimming takes white space off both ends and nothing else: what is left does not start
/// or end with white space, and what was taken off is white space.
pub proof fn law_trimming_takes_off_white_space(s: Seq<char>) -> (cut: (int, int))
    ensures
        0 <= cut.0 <= cut.1 <= s.len(),
        trimmed(s) == s.subrange(cut.0, cut.1),
        forall|i: int| 0 <= i < cut.0 ==> is_white_space(#[trigger] s[i]),
        forall|i: int| cut.1 <= i < s.len() ==> is_white_space(#[trigger] s[i]),
        cut.0 < cut.1 ==> !is_white_space(s[cut.0]) && !is_white_space(s[cut.1 - 1]),
{
    let a = lemma_without_leading(s);
    let rest = s.skip(a);
    let b = lemma_without_trailing(rest);
    assert(rest.take(b) =~= s.subrange(a, a + b));
    assert forall|i: int| a + b <= i < s.len() implies is_white_space(#[trigger] s[i]) by {
        assert(rest[i - a] == s[i]);
    }
    if b > 0 {
        assert(rest[b - 1] == s[a + b - 1]);
        assert(!is_white_space(rest[0])) by {
            assert(rest[0] == s[a]);
        }
    }
    (a, a + b)
}

/// How much white space is in front.
proof fn lemma_without_leading(s: Seq<char>) -> (n: int)
    ensures
        0 <= n <= s.len(),
        without_leading(s) == s.skip(n),
        forall|i: int| 0 <= i < n ==> is_white_space(#[trigger] s[i]),
        n < s.len() ==> !is_white_space(s[n]),
    decreases s.len(),
{
    if s.len() > 0 && is_white_space(s[0]) {
        let tail = s.drop_first();
        let m = lemma_without_leading(tail);
        assert(tail.skip(m) =~= s.skip(m + 1));
        assert forall|i: int| 0 <= i < m + 1 implies is_white_space(#[trigger] s[i]) by {
            if i > 0 {
                assert(tail[i - 1] == s[i]);
            }
        }
        m + 1
    } else {
        assert(s.skip(0) =~= s);
        0
    }
}

/// How much is left without the white space at the end.
proof fn lemma_without_trailing(s: Seq<char>) -> (n: int)
    ensures
        0 <= n <= s.len(),
        without_trailing(s) == s.take(n),
        forall|i: int| n <= i < s.len() ==> is_white_space(#[trigger] s[i]),
        n > 0 ==> !is_white_space(s[n - 1]),
    decreases s.len(),
{
    if s.len() > 0 && is_white_space(s.last()) {
        let init = s.drop_last();
        let m = lemma_without_trailing(init);
        assert(init.take(m) =~= s.take(m));
        assert forall|i: int| m <= i < s.len() implies is_white_space(#[trigger] s[i]) by {
            if i < init.len() {
                assert(init[i] == s[i]);
            }
        }
        m
    } else {
        assert(s.take(s.len() as int) =~= s);
        s.len() as int
    }
}

/// A number is its digits: one more digit is ten times as much and the digit. A plus sign
/// in front changes nothing. No other character, and no number that is too large, passes.
pub proof fn law_a_number_is_its_digits(digits: Seq<char>, d: char)
    ensures
        '0' <= d <= '9' ==> decimal_value(digits.push(d)) == decimal_value(digits) * 10 + (d as int
            - '0' as int),
        digits.len() > 0 && digits[0] != '+' ==> number_in(seq!['+'] + digits) == number_in(digits),
        number_in(digits) matches Some(n) ==> n == decimal_value(digits) || (digits[0] == '+' && n
            == decimal_value(digits.drop_first())),
        number_in(Seq::empty()) == None::<usize>,
        (forall|i: int| 0 <= i < digits.len() ==> '0' <= #[trigger] digits[i] <= '9')
            && digits.len() > 0 ==> (number_in(digits).is_some() <==> decimal_value(digits)
            <= usize::MAX),
        forall|i: int|
            1 <= i < digits.len() && !('0' <= #[trigger] digits[i] <= '9') ==> number_in(digits)
                == None::<usize>,
{
    assert(digits.push(d).drop_last() =~= digits);
    assert((seq!['+'] + digits).drop_first() =~= digits);
    assert forall|i: int| 1 <= i < digits.len() && !('0' <= #[trigger] digits[i] <= '9') implies
        number_in(digits) == None::<usize> by {
        let rest = behind_sign(digits);
        if rest.len() == digits.len() {
            assert(rest[i] == digits[i]);
        } else {
            assert(rest[i - 1] == digits[i]);
        }
    }
}

/// The cap of a number of mebibytes: none for zero, otherwise so many times 1024 times
/// 1024 bytes, or the largest cap where that does not fit. Without a number it is one
/// gibibyte.
pub proof fn law_the_cap_counts_mebibytes(mb: usize, text: &str)
    ensures
        cap_of(0) == usize::MAX,
        mb > 0 && mb * (1024 * 1024) <= usize::MAX ==> cap_of(mb) == mb * (1024 * 1024),
        mb > 0 && mb * (1024 * 1024) > usize::MAX ==> cap_of(mb) == usize::MAX,
        cap_of_setting(None) == 1024 * 1024 * 1024,
        number_in(trimmed(text@)).is_none() ==> cap_of_setting(Some(text)) == 1024 * 1024 * 1024,
        number_in(trimmed(text@)) == Some(mb) ==> cap_of_setting(Some(text)) == cap_of(mb),
{
}

} // verus!
