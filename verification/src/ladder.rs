//! The size-class ladder.
//!
//! Quarter-power-of-two size classes: four evenly spaced classes per octave.
//! The cache matches sizes exactly, so the ladder is not used for matching. It
//! keeps the set of reported misses bounded: byte counts are unbounded, size
//! classes are not.
use vstd::arithmetic::power2;
use vstd::prelude::*;

verus! {

/// The first octave starts at 512 bytes.
pub const LADDER_BASE_LOG2: u32 = 9;

/// Classes per octave.
pub const SUBCLASSES: usize = 4;

/// The octave of `bytes`: the `k` with `2^k <= bytes < 2^(k+1)`.
pub open spec fn octave(bytes: nat) -> nat
    decreases bytes,
{
    if bytes < 2 {
        0
    } else {
        1 + octave(bytes / 2)
    }
}

/// The size class of `bytes`: one class below the first octave, and from there
/// on the quarter of its octave.
pub open spec fn size_class(bytes: nat) -> nat {
    if bytes < 512 {
        0
    } else {
        let k = octave(bytes);
        let quarter = (bytes - power2::pow2(k)) / power2::pow2((k - 2) as nat) as int;
        (1 + (k - 9) * 4 + quarter) as nat
    }
}

/// The octave brackets the size.
pub proof fn lemma_octave(bytes: nat)
    requires
        bytes > 0,
    ensures
        power2::pow2(octave(bytes)) <= bytes < power2::pow2(octave(bytes) + 1),
    decreases bytes,
{
    if bytes < 2 {
        power2::lemma2_to64();
    } else {
        lemma_octave(bytes / 2);
        power2::lemma_pow2_unfold(octave(bytes));
        power2::lemma_pow2_unfold(octave(bytes) + 1);
    }
}

/// The octave from the number of leading zero bits.
proof fn lemma_leading_zeros(x: u64)
    requires
        x > 0,
    ensures
        vstd::std_specs::bits::u64_leading_zeros(x) == 63 - octave(x as nat),
        octave(x as nat) <= 63,
    decreases x,
{
    reveal(vstd::std_specs::bits::u64_leading_zeros);
    if x >= 2 {
        lemma_leading_zeros(x / 2);
        assert(octave(x as nat) == 1 + octave((x / 2) as nat));
        lemma_octave(x as nat);
        if octave(x as nat) > 63 {
            power2::lemma2_to64();
            assert(octave(x as nat) == 64);
            power2::lemma2_to64_rest();
        }
    } else {
        assert(x / 2 == 0);
        assert(vstd::std_specs::bits::u64_leading_zeros(0) == 64);
    }
}

/// A size from the first octave on lies in an octave from there on.
proof fn lemma_octave_from_base(bytes: nat)
    requires
        bytes >= 512,
    ensures
        octave(bytes) >= 9,
{
    lemma_octave(bytes);
    power2::lemma2_to64();
    if octave(bytes) < 9 {
        if octave(bytes) + 1 < 9 {
            power2::lemma_pow2_strictly_increases(octave(bytes) + 1, 9);
        }
    }
}

/// The size class that `bytes` falls in.
pub fn bucket_index(bytes: usize) -> (class: usize)
    ensures
        class == size_class(bytes as nat),
        class <= 220,
{
    if bytes < 512 {
        return 0;
    }
    let b: u64 = bytes as u64;
    proof {
        lemma_leading_zeros(b);
        lemma_octave(b as nat);
        lemma_octave_from_base(b as nat);
    }
    let k: u32 = 63 - b.leading_zeros();
    proof {
        law_ladder_is_bounded(bytes as nat);
        let kk = k as nat;
        power2::lemma_pow2_unfold(kk + 1);
        power2::lemma_pow2_unfold(kk);
        power2::lemma_pow2_unfold((kk - 1) as nat);
        vstd::bits::lemma_u64_shl_is_mul(1, k as u64);
        vstd::bits::lemma_u64_shr_is_div((b - power2::pow2(kk)) as u64, (k - 2) as u64);
        power2::lemma_pow2_pos((kk - 2) as nat);
        lemma_quarter((b - power2::pow2(kk)) as nat, power2::pow2((kk - 2) as nat));
    }
    let sub: u64 = (b - (1u64 << (k as u64))) >> ((k - 2) as u64);
    1 + ((k - LADDER_BASE_LOG2) as usize) * SUBCLASSES + sub as usize
}

/// An offset below four quarters lies in one of four.
proof fn lemma_quarter(offset: nat, quarter: nat)
    requires
        quarter > 0,
        offset < 4 * quarter,
    ensures
        offset / quarter <= 3,
{
    assert(offset / quarter <= 3) by (nonlinear_arith)
        requires
            quarter > 0,
            offset < 4 * quarter,
    ;
}

/// The octave and the quarter in it of a size from the first octave on.
proof fn lemma_quarter_of(bytes: nat)
    requires
        bytes >= 512,
    ensures
        ({
            let k = octave(bytes);
            let w = power2::pow2((k - 2) as nat);
            let quarter = (bytes - power2::pow2(k)) / w as int;
            &&& k >= 9
            &&& power2::pow2(k) == 4 * w
            &&& w > 0
            &&& 0 <= quarter <= 3
            &&& power2::pow2(k) + quarter * w <= bytes < power2::pow2(k) + (quarter + 1) * w
        }),
{
    lemma_octave(bytes);
    lemma_octave_from_base(bytes);
    let k = octave(bytes);
    let w = power2::pow2((k - 2) as nat);
    power2::lemma_pow2_unfold(k + 1);
    power2::lemma_pow2_unfold(k);
    power2::lemma_pow2_unfold((k - 1) as nat);
    power2::lemma_pow2_pos((k - 2) as nat);
    let offset = (bytes - power2::pow2(k)) as nat;
    lemma_quarter(offset, w);
    assert(0 <= offset / w && (offset / w) * w <= offset < (offset / w + 1) * w)
        by (nonlinear_arith)
        requires
            w > 0,
    ;
}

/// An octave is known by its bounds.
proof fn lemma_octave_is(bytes: nat, k: nat)
    requires
        power2::pow2(k) <= bytes < power2::pow2(k + 1),
    ensures
        octave(bytes) == k,
{
    power2::lemma_pow2_pos(k);
    lemma_octave(bytes);
    let o = octave(bytes);
    if o < k {
        if o + 1 < k {
            power2::lemma_pow2_strictly_increases(o + 1, k);
        }
    } else if k < o {
        if k + 1 < o {
            power2::lemma_pow2_strictly_increases(k + 1, o);
        }
    }
}

/// The class never falls as the size grows.
pub proof fn law_ladder_is_monotonic(a: nat, b: nat)
    requires
        a <= b,
    ensures
        size_class(a) <= size_class(b),
{
    if a >= 512 {
        lemma_quarter_of(a);
        lemma_quarter_of(b);
        let ka = octave(a);
        let kb = octave(b);
        lemma_octave(a);
        lemma_octave(b);
        if kb < ka {
            if kb + 1 < ka {
                power2::lemma_pow2_strictly_increases(kb + 1, ka);
            }
        } else if ka == kb {
            let w = power2::pow2((ka - 2) as nat);
            let base = power2::pow2(ka);
            assert((a - base) / w as int <= (b - base) / w as int) by (nonlinear_arith)
                requires
                    a <= b,
                    w > 0,
            ;
        }
    } else if b >= 512 {
        lemma_quarter_of(b);
    }
}

/// Sizes that fit in sixty-four bits have 221 classes between them, the class of
/// the tiny sizes included.
pub proof fn law_ladder_is_bounded(bytes: nat)
    requires
        bytes <= u64::MAX,
    ensures
        size_class(bytes) <= 220,
{
    if bytes >= 512 {
        lemma_quarter_of(bytes);
        lemma_octave(bytes);
        power2::lemma2_to64();
        power2::lemma2_to64_rest();
        if octave(bytes) >= 64 {
            if octave(bytes) > 64 {
                power2::lemma_pow2_strictly_increases(64, octave(bytes));
            }
        }
    }
}

/// Every octave from the first on is cut into four classes of the same width.
pub proof fn law_four_even_classes_per_octave(bytes: nat, k: nat, quarter: nat)
    requires
        k >= 9,
        quarter < 4,
    ensures
        size_class(bytes) == 1 + (k - 9) * 4 + quarter <==> power2::pow2(k) + quarter
            * power2::pow2((k - 2) as nat) <= bytes < power2::pow2(k) + (quarter + 1)
            * power2::pow2((k - 2) as nat),
{
    let w = power2::pow2((k - 2) as nat);
    power2::lemma_pow2_unfold(k + 1);
    power2::lemma_pow2_unfold(k);
    power2::lemma_pow2_unfold((k - 1) as nat);
    power2::lemma_pow2_pos((k - 2) as nat);
    power2::lemma2_to64();
    if k > 9 {
        power2::lemma_pow2_strictly_increases(9, k);
    }
    assert(0 <= quarter * w && (quarter + 1) * w <= 4 * w) by (nonlinear_arith)
        requires
            quarter < 4,
    ;
    if bytes >= 512 {
        lemma_quarter_of(bytes);
    }
    if power2::pow2(k) + quarter * w <= bytes < power2::pow2(k) + (quarter + 1) * w {
        lemma_octave_is(bytes, k);
        let offset = (bytes - power2::pow2(k)) as nat;
        assert(offset / w == quarter) by (nonlinear_arith)
            requires
                w > 0,
                quarter * w <= offset < (quarter + 1) * w,
        ;
    }
}

/// Sizes below the first octave are one class, the first, and no other size is in it.
pub proof fn law_tiny_sizes_are_one_class(bytes: nat)
    ensures
        size_class(bytes) == 0 <==> bytes < 512,
{
    if bytes >= 512 {
        lemma_quarter_of(bytes);
    }
}

} // verus!
