//! Identifiers of devices.
use vstd::prelude::*;
use vstd::wrapping::usize_specs;

verus! {

/// Unique identifier for cuda devices.
#[derive(Clone, Copy, Debug, PartialEq, Eq, Hash, Structural)]
pub struct DeviceId(usize);

/// Where identifiers come from. The first one is 1.
#[derive(Debug)]
pub struct IdCounter {
    next: usize,
}

impl IdCounter {
    /// The number of the next identifier.
    pub closed spec fn upcoming(self) -> usize {
        self.next
    }

    /// No identifier has been handed out.
    pub fn new() -> (c: Self)
        ensures
            c.upcoming() == 1,
    {
        IdCounter { next: 1 }
    }
}

impl DeviceId {
    /// The number behind the identifier.
    pub closed spec fn number(self) -> usize {
        self.0
    }

    /// The next identifier. The numbers wrap round.
    pub fn new(counter: &mut IdCounter) -> (id: Self)
        ensures
            id.number() == old(counter).upcoming(),
            final(counter).upcoming() == usize_specs::wrapping_add(old(counter).upcoming(), 1),
            final(counter).upcoming() == number_after(old(counter).upcoming(), 1),
    {
        let id = DeviceId(counter.next);
        proof {
            reveal_with_fuel(number_after, 2);
        }
        counter.next = counter.next.wrapping_add(1);
        id
    }

    /// An identifier is its number: two of them are equal exactly if the numbers are.
    pub proof fn law_an_identifier_is_its_number(a: DeviceId, b: DeviceId)
        ensures
            a == b <==> a.number() == b.number(),
    {
    }
}

/// The number of the identifier that is handed out `n` identifiers after `first`.
pub open spec fn number_after(first: usize, n: nat) -> usize
    decreases n,
{
    if n == 0 {
        first
    } else {
        usize_specs::wrapping_add(number_after(first, (n - 1) as nat), 1)
    }
}

/// The number as a remainder.
proof fn lemma_number_after(first: usize, n: nat)
    ensures
        number_after(first, n) == (first + n) % (usize::MAX + 1),
    decreases n,
{
    let m = usize::MAX + 1;
    if n == 0 {
        vstd::arithmetic::div_mod::lemma_small_mod(first as nat, m as nat);
    } else {
        lemma_number_after(first, (n - 1) as nat);
        let before = (first + n - 1) % m;
        vstd::arithmetic::div_mod::lemma_add_mod_noop(first + n - 1, 1, m);
        vstd::arithmetic::div_mod::lemma_small_mod(1, m as nat);
        if before + 1 < m {
            vstd::arithmetic::div_mod::lemma_small_mod((before + 1) as nat, m as nat);
        } else {
            vstd::arithmetic::div_mod::lemma_mod_self_0(m);
        }
    }
}

/// Two devices never share an identifier, as long as no more devices are made
/// than there are numbers.
pub proof fn law_identifiers_are_unique(first: usize, i: nat, j: nat)
    requires
        i < j,
        j - i <= usize::MAX,
    ensures
        number_after(first, i) != number_after(first, j),
{
    lemma_number_after(first, i);
    lemma_number_after(first, j);
    let m = usize::MAX + 1;
    let a = first + i;
    let b = first + j;
    if a % m == b % m {
        vstd::arithmetic::div_mod::lemma_fundamental_div_mod(a as int, m);
        vstd::arithmetic::div_mod::lemma_fundamental_div_mod(b as int, m);
        let qa = a as int / m;
        let qb = b as int / m;
        assert(m * qb - m * qa == j - i);
        assert(m * qb - m * qa == m * (qb - qa)) by (nonlinear_arith);
        assert(qb - qa >= 1 ==> m * (qb - qa) >= m) by (nonlinear_arith)
            requires
                m > 0,
        ;
        assert(qb - qa <= 0 ==> m * (qb - qa) <= 0) by (nonlinear_arith)
            requires
                m > 0,
        ;
    }
}

/// Identifiers count up by one, and start over behind the largest number.
pub proof fn law_identifiers_count_up(first: usize, n: nat)
    ensures
        number_after(first, 0) == first,
        number_after(first, n) < usize::MAX ==> number_after(first, n + 1) == number_after(first, n)
            + 1,
        number_after(first, n) == usize::MAX ==> number_after(first, n + 1) == 0,
{
}

} // verus!
