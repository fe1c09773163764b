//! Counts keyed by byte size.
use std::collections::HashMap;
use vstd::prelude::*;

verus! {

broadcast use vstd::std_specs::hash::group_hash_axioms;

/// The sum of every value of a finite map.
pub open spec fn total(m: Map<usize, nat>) -> nat
    decreases m.dom().len(),
{
    if m.dom().finite() && m.dom().len() > 0 {
        let k = m.dom().choose();
        m[k] + total(m.remove(k))
    } else {
        0
    }
}

/// The counts held by an executable table.
pub open spec fn counts(m: Map<usize, usize>) -> Map<usize, nat> {
    m.map_values(|n: usize| n as nat)
}

/// Any one entry can be taken off the sum.
pub proof fn lemma_total_remove(m: Map<usize, nat>, k: usize)
    requires
        m.dom().finite(),
        m.contains_key(k),
    ensures
        total(m) == m[k] + total(m.remove(k)),
    decreases m.dom().len(),
{
    let c = m.dom().choose();
    assert(m.dom().contains(k));
    assert(m.dom().contains(c)) by {
        if !(m.dom().len() > 0) {
            assert(m.dom() =~= Set::empty());
        }
    }
    if c != k {
        lemma_total_remove(m.remove(c), k);
        lemma_total_remove(m.remove(k), c);
        assert(m.remove(c).remove(k) =~= m.remove(k).remove(c));
    }
}

/// Writing one entry moves the sum by the difference.
pub proof fn lemma_total_insert(m: Map<usize, nat>, k: usize, v: nat)
    requires
        m.dom().finite(),
    ensures
        total(m.insert(k, v)) == total(m.remove(k)) + v,
{
    lemma_total_remove(m.insert(k, v), k);
    assert(m.insert(k, v).remove(k) =~= m.remove(k));
}

/// The sum over some of the keys is at most the whole sum.
pub proof fn lemma_total_restrict_le(m: Map<usize, nat>, s: Set<usize>)
    requires
        m.dom().finite(),
    ensures
        total(m.restrict(s)) <= total(m),
    decreases m.dom().len(),
{
    if exists|k: usize| m.contains_key(k) && !s.contains(k) {
        let k = choose|k: usize| m.contains_key(k) && !s.contains(k);
        lemma_total_remove(m, k);
        lemma_total_restrict_le(m.remove(k), s);
        assert(m.restrict(s) =~= m.remove(k).restrict(s));
    } else {
        assert(m.restrict(s) =~= m);
    }
}

/// Leaving out entries of zero leaves the sum.
pub proof fn lemma_total_restrict_eq(m: Map<usize, nat>, s: Set<usize>)
    requires
        m.dom().finite(),
        forall|k: usize| m.contains_key(k) && !s.contains(k) ==> m[k] == 0,
    ensures
        total(m.restrict(s)) == total(m),
    decreases m.dom().len(),
{
    if exists|k: usize| m.contains_key(k) && !s.contains(k) {
        let k = choose|k: usize| m.contains_key(k) && !s.contains(k);
        lemma_total_remove(m, k);
        lemma_total_restrict_eq(m.remove(k), s);
        assert(m.restrict(s) =~= m.remove(k).restrict(s));
    } else {
        assert(m.restrict(s) =~= m);
    }
}

/// Counting one more adds one to the sum.
pub proof fn lemma_total_bumped(m: Map<usize, nat>, k: usize)
    requires
        m.dom().finite(),
    ensures
        total(bumped(m, k)) == total(m) + 1,
        bumped(m, k).dom().finite(),
{
    lemma_total_insert(m, k, count_of(m, k) + 1);
    if m.contains_key(k) {
        lemma_total_remove(m, k);
    } else {
        assert(m.remove(k) =~= m);
    }
}

/// `keys` lists the keys of `dom`, each once.
pub open spec fn enumerates(keys: Seq<usize>, dom: Set<usize>) -> bool {
    &&& keys.no_duplicates()
    &&& forall|k: usize| keys.contains(k) <==> dom.contains(k)
}

/// The count of `k`, zero where the table has no entry.
pub open spec fn count_of(m: Map<usize, nat>, k: usize) -> nat {
    if m.contains_key(k) {
        m[k]
    } else {
        0
    }
}

/// The table with one more counted at `k`.
pub open spec fn bumped(m: Map<usize, nat>, k: usize) -> Map<usize, nat> {
    m.insert(k, count_of(m, k) + 1)
}

/// The keys of a table, in the order in which the table is walked.
pub fn keys_of<V>(m: &HashMap<usize, V>) -> (keys: Vec<usize>)
    ensures
        enumerates(keys@, m@.dom()),
{
    let mut keys: Vec<usize> = Vec::new();
    for k in it: m.keys()
        invariant
            it.seq().no_duplicates(),
            it.seq().unref().to_set() == m@.dom(),
            keys@ == it.seq().unref().take(it.index()),
    {
        keys.push(*k);
        assert(keys@ =~= it.seq().unref().take(it.index() + 1));
    }
    proof {
        let ks = vstd::std_specs::iter::IteratorSpec::remaining(
            &vstd::std_specs::hash::spec_keys_iter(m),
        );
        assert(keys@ =~= ks.unref());
        assert forall|k: usize| keys@.contains(k) <==> m@.dom().contains(k) by {
            assert(ks.unref().to_set().contains(k) <==> m@.dom().contains(k));
        }
    }
    keys
}

/// Count one more at `k`.
pub fn bump(m: &mut HashMap<usize, usize>, k: usize)
    requires
        count_of(counts(old(m)@), k) < usize::MAX,
    ensures
        counts(final(m)@) == bumped(counts(old(m)@), k),
{
    let n: usize = match m.get(&k) {
        Some(n) => *n,
        None => 0,
    };
    m.insert(k, n + 1);
    assert(counts(m@) =~= bumped(counts(old(m)@), k));
}

/// The sum of every count in the table.
pub fn sum_counts(m: &HashMap<usize, usize>) -> (s: usize)
    requires
        total(counts(m@)) <= usize::MAX,
    ensures
        s == total(counts(m@)),
{
    let ghost c = counts(m@);
    let keys = keys_of(m);
    let mut s: usize = 0;
    let mut i: usize = 0;
    proof {
        assert(c.dom() =~= m@.dom());
        assert(c.restrict(keys@.take(0).to_set()).dom() =~= Set::empty());
    }
    while i < keys.len()
        invariant
            c == counts(m@),
            c.dom() == m@.dom(),
            total(c) <= usize::MAX,
            enumerates(keys@, m@.dom()),
            0 <= i <= keys.len(),
            s == total(c.restrict(keys@.take(i as int).to_set())),
        decreases keys.len() - i,
    {
        let k = keys[i];
        proof {
            assert(keys@.contains(keys@[i as int]));
            lemma_total_step(c, keys@, i as int);
            lemma_total_restrict_le(c, keys@.take(i + 1).to_set());
        }
        let n: usize = match m.get(&k) {
            Some(n) => *n,
            None => 0,
        };
        s = s + n;
        i = i + 1;
    }
    proof {
        assert(keys@.take(i as int) =~= keys@);
        assert(c.restrict(keys@.to_set()) =~= c);
    }
    s
}

/// Summing along a list of distinct keys adds one entry per step.
pub proof fn lemma_total_step(m: Map<usize, nat>, keys: Seq<usize>, i: int)
    requires
        m.dom().finite(),
        keys.no_duplicates(),
        0 <= i < keys.len(),
        m.contains_key(keys[i]),
    ensures
        total(m.restrict(keys.take(i + 1).to_set())) == total(m.restrict(keys.take(i).to_set()))
            + m[keys[i]],
{
    let k = keys[i];
    let before = keys.take(i);
    let upto = keys.take(i + 1);
    let after = m.restrict(upto.to_set());
    assert(keys.contains(k));
    assert(upto =~= before.push(k));
    assert(upto.last() == k);
    assert(after.contains_key(k));
    assert(after.dom() =~= m.dom().intersect(upto.to_set()));
    lemma_total_remove(after, k);
    assert(!before.contains(k));
    assert(upto.to_set() =~= before.to_set().insert(k)) by {
        assert forall|x: usize| upto.contains(x) <==> before.contains(x) || x == k by {
            if before.contains(x) {
                let j = choose|j: int| 0 <= j < before.len() && before[j] == x;
                assert(upto[j] == x);
            }
        }
    }
    assert(after.remove(k) =~= m.restrict(before.to_set()));
}

/// The sum of a table: nothing for an empty one, and one more entry is its value more.
pub proof fn law_the_sum_of_a_table(m: Map<usize, nat>, k: usize, v: nat)
    requires
        m.dom().finite(),
    ensures
        total(Map::empty()) == 0,
        !m.contains_key(k) ==> total(m.insert(k, v)) == total(m) + v,
        m.contains_key(k) ==> total(m) >= m[k],
{
    assert(Map::<usize, nat>::empty().dom() =~= Set::empty());
    lemma_total_insert(m, k, v);
    if m.contains_key(k) {
        lemma_total_remove(m, k);
    } else {
        assert(m.remove(k) =~= m);
    }
}

/// Counting once more raises the count of one key by one and leaves every other.
pub proof fn law_counting_once_more(m: Map<usize, nat>, k: usize, other: usize)
    ensures
        bumped(m, k).contains_key(k),
        bumped(m, k)[k] == 1 + if m.contains_key(k) {
            m[k]
        } else {
            0
        },
        other != k ==> (bumped(m, k).contains_key(other) <==> m.contains_key(other)) && bumped(
            m,
            k,
        )[other] == m[other],
        count_of(m, k) == if m.contains_key(k) {
            m[k]
        } else {
            0
        },
{
}

} // verus!
