//! Sorted lists of pairs.
use crate::tally;
use std::collections::HashMap;
use vstd::prelude::*;

verus! {

broadcast use vstd::std_specs::hash::group_hash_axioms;

/// The order of pairs: by the first part, then by the second.
pub open spec fn pair_le(a: (u64, usize), b: (u64, usize)) -> bool {
    a.0 < b.0 || (a.0 == b.0 && a.1 <= b.1)
}

/// Calls `slice::sort_unstable` of the standard library on pairs of integers.
/// The claim: the list comes back in the order of the pairs and holds what it
/// held, each pair as often as before.
#[verifier::external_body]
pub(crate) fn sort_pairs(v: &mut Vec<(u64, usize)>)
    ensures
        forall|i: int, j: int|
            0 <= i < j < final(v)@.len() ==> pair_le(
                #[trigger] final(v)@[i],
                #[trigger] final(v)@[j],
            ),
        final(v)@.to_multiset() == old(v)@.to_multiset(),
{
    v.sort_unstable()
}

/// Lists with the same pairs hold the same pairs.
pub proof fn lemma_same_pairs(a: Seq<(u64, usize)>, b: Seq<(u64, usize)>)
    requires
        a.to_multiset() == b.to_multiset(),
    ensures
        a.len() == b.len(),
        forall|x: (u64, usize)| #[trigger] a.contains(x) <==> b.contains(x),
        a.no_duplicates() ==> b.no_duplicates(),
{
    broadcast use vstd::seq_lib::group_to_multiset_ensures;

    assert forall|x: (u64, usize)| #[trigger] a.contains(x) <==> b.contains(x) by {
        assert(a.contains(x) <==> a.to_multiset().count(x) > 0);
        assert(b.contains(x) <==> b.to_multiset().count(x) > 0);
    }
    assert(a.to_multiset().len() == a.len());
    assert(b.to_multiset().len() == b.len());
    if a.no_duplicates() {
        a.lemma_multiset_has_no_duplicates();
        b.lemma_multiset_has_no_duplicates_conv();
    }
}

/// `list` gives every key of `m` once with its value, the smallest key first.
pub open spec fn is_listing(list: Seq<(usize, usize)>, m: Map<usize, nat>) -> bool {
    &&& forall|i: int, j: int|
        0 <= i < j < list.len() ==> (#[trigger] list[i]).0 < (#[trigger] list[j]).0
    &&& forall|i: int|
        0 <= i < list.len() ==> m.contains_key((#[trigger] list[i]).0) && m[list[i].0]
            == list[i].1
    &&& forall|k: usize| #[trigger]
        m.contains_key(k) ==> exists|i: int| 0 <= i < list.len() && (#[trigger] list[i]).0 == k
}

/// The sum of the counts in a list.
pub open spec fn listed_total(list: Seq<(usize, usize)>) -> nat
    decreases list.len(),
{
    if list.len() == 0 {
        0
    } else {
        listed_total(list.drop_last()) + list.last().1 as nat
    }
}

/// A listing adds up to the sum over its table.
pub proof fn law_a_listing_adds_up(list: Seq<(usize, usize)>, m: Map<usize, nat>)
    requires
        is_listing(list, m),
        m.dom().finite(),
    ensures
        listed_total(list) == tally::total(m),
    decreases list.len(),
{
    if list.len() == 0 {
        assert forall|k: usize| !m.dom().contains(k) by {
            assert(!m.contains_key(k));
        }
        assert(m.dom() =~= Set::empty());
    } else {
        let init = list.drop_last();
        let l = list.last();
        let rest = m.remove(l.0);
        assert(list[list.len() - 1] == l);
        assert forall|i: int, j: int| 0 <= i < j < init.len() implies (#[trigger] init[i]).0 < (
        #[trigger] init[j]).0 by {
            assert(list[i].0 < list[j].0);
        }
        assert forall|i: int| 0 <= i < init.len() implies rest.contains_key(
            (#[trigger] init[i]).0,
        ) && rest[init[i].0] == init[i].1 by {
            assert(list[i].0 < list[list.len() - 1].0);
        }
        assert forall|k: usize| #[trigger] rest.contains_key(k) implies exists|i: int|
            0 <= i < init.len() && (#[trigger] init[i]).0 == k by {
            assert(m.contains_key(k));
            let i = choose|i: int| 0 <= i < list.len() && (#[trigger] list[i]).0 == k;
            assert(init[i].0 == k);
        }
        law_a_listing_adds_up(init, rest);
        tally::lemma_total_remove(m, l.0);
    }
}

/// Sort a list that gives every key once with its value.
pub(crate) fn sorted_listing(
    pairs: Vec<(u64, usize)>,
    Ghost(m): Ghost<Map<usize, nat>>,
) -> (list: Vec<(usize, usize)>)
    requires
        forall|i: int, j: int|
            0 <= i < j < pairs.len() ==> (#[trigger] pairs@[i]).0 != (#[trigger] pairs@[j]).0,
        forall|i: int|
            0 <= i < pairs.len() ==> (#[trigger] pairs@[i]).0 <= usize::MAX && m.contains_key(
                pairs@[i].0 as usize,
            ) && m[pairs@[i].0 as usize] == pairs@[i].1,
        forall|k: usize| #[trigger]
            m.contains_key(k) ==> exists|i: int|
                0 <= i < pairs.len() && (#[trigger] pairs@[i]).0 == k,
    ensures
        is_listing(list@, m),
{
    let ghost given = pairs@;
    let mut pairs = pairs;
    sort_pairs(&mut pairs);
    let ghost sorted = pairs@;
    proof {
        assert(given.no_duplicates());
        lemma_same_pairs(given, sorted);
        assert forall|i: int| 0 <= i < sorted.len() implies (#[trigger] sorted[i]).0 <= usize::MAX
            && m.contains_key(sorted[i].0 as usize) && m[sorted[i].0 as usize] == sorted[i].1 by {
            assert(sorted.contains(sorted[i]));
            assert(given.contains(sorted[i]));
            let k = choose|k: int| 0 <= k < given.len() && given[k] == sorted[i];
            assert(given[k] == sorted[i]);
        }
        assert forall|i: int, j: int| 0 <= i < j < sorted.len() implies (#[trigger] sorted[i]).0 < (
        #[trigger] sorted[j]).0 by {
            assert(pair_le(sorted[i], sorted[j]));
            if sorted[i].0 == sorted[j].0 {
                assert(given.contains(sorted[i]));
                assert(given.contains(sorted[j]));
                let a = choose|a: int| 0 <= a < given.len() && given[a] == sorted[i];
                let b = choose|b: int| 0 <= b < given.len() && given[b] == sorted[j];
                assert(given[a].0 == given[b].0);
                assert(a == b);
                assert(sorted[i] == sorted[j]);
            }
        }
    }
    let mut list: Vec<(usize, usize)> = Vec::new();
    let mut i: usize = 0;
    while i < pairs.len()
        invariant
            sorted == pairs@,
            forall|k: int| 0 <= k < sorted.len() ==> (#[trigger] sorted[k]).0 <= usize::MAX,
            0 <= i <= pairs.len(),
            list.len() == i,
            forall|k: int|
                0 <= k < i ==> #[trigger] list@[k] == (sorted[k].0 as usize, sorted[k].1),
        decreases pairs.len() - i,
    {
        let (k, n) = pairs[i];
        assert(sorted[i as int].0 <= usize::MAX);
        list.push((k as usize, n));
        i = i + 1;
    }
    proof {
        assert forall|i: int, j: int| 0 <= i < j < list.len() implies (#[trigger] list@[i]).0 < (
        #[trigger] list@[j]).0 by {
            assert(sorted[i].0 < sorted[j].0);
        }
        assert forall|i: int| 0 <= i < list.len() implies m.contains_key((#[trigger] list@[i]).0)
            && m[list@[i].0] == list@[i].1 by {
            assert(sorted[i].0 <= usize::MAX);
        }
        assert forall|k: usize| #[trigger] m.contains_key(k) implies exists|i: int|
            0 <= i < list.len() && (#[trigger] list@[i]).0 == k by {
            let a = choose|a: int| 0 <= a < given.len() && (#[trigger] given[a]).0 == k;
            assert(given.contains(given[a]));
            assert(sorted.contains(given[a]));
            let i = choose|i: int| 0 <= i < sorted.len() && sorted[i] == given[a];
            assert(list@[i].0 == k);
        }
    }
    list
}

/// The counts of a table, the smallest size first.
pub fn list_counts(m: &HashMap<usize, usize>) -> (list: Vec<(usize, usize)>)
    ensures
        is_listing(list@, tally::counts(m@)),
{
    let ghost c = tally::counts(m@);
    let keys = tally::keys_of(m);
    let mut pairs: Vec<(u64, usize)> = Vec::new();
    let mut i: usize = 0;
    while i < keys.len()
        invariant
            c == tally::counts(m@),
            tally::enumerates(keys@, m@.dom()),
            0 <= i <= keys.len(),
            pairs.len() == i,
            forall|k: int|
                0 <= k < i ==> (#[trigger] pairs@[k]).0 == keys@[k] && c.contains_key(keys@[k])
                    && pairs@[k].1 == c[keys@[k]],
        decreases keys.len() - i,
    {
        let k = keys[i];
        assert(keys@.contains(keys@[i as int]));
        let n: usize = match m.get(&k) {
            Some(n) => *n,
            None => 0,
        };
        pairs.push((k as u64, n));
        i = i + 1;
    }
    proof {
        assert forall|i: int, j: int| 0 <= i < j < pairs.len() implies (#[trigger] pairs@[i]).0 != (
        #[trigger] pairs@[j]).0 by {
            assert(keys@[i] != keys@[j]);
        }
        assert forall|k: usize| #[trigger] c.contains_key(k) implies exists|i: int|
            0 <= i < pairs.len() && (#[trigger] pairs@[i]).0 == k by {
            assert(keys@.contains(k));
            let i = choose|i: int| 0 <= i < keys@.len() && keys@[i] == k;
            assert(pairs@[i].0 == k);
        }
    }
    sorted_listing(pairs, Ghost(c))
}

/// A listing holds a line for every entry of its table and no other line, the smallest key
/// first, and as many lines as there are keys.
pub proof fn law_a_listing_is_its_table(
    list: Seq<(usize, usize)>,
    m: Map<usize, nat>,
    k: usize,
    n: usize,
)
    requires
        is_listing(list, m),
        m.dom().finite(),
    ensures
        list.contains((k, n)) <==> m.contains_key(k) && m[k] == n,
        m.contains_key(k) ==> exists|i: int| 0 <= i < list.len() && (#[trigger] list[i]).0 == k,
        forall|i: int, j: int|
            0 <= i < j < list.len() ==> (#[trigger] list[i]).0 < (#[trigger] list[j]).0,
        list.len() == m.dom().len(),
{
    if m.contains_key(k) && m[k] == n {
        let i = choose|i: int| 0 <= i < list.len() && (#[trigger] list[i]).0 == k;
        assert(list[i] == (k, n));
    }
    let keys = list.map_values(|x: (usize, usize)| x.0);
    assert forall|x: usize| keys.to_set().contains(x) <==> m.dom().contains(x) by {
        if keys.to_set().contains(x) {
            let i = choose|i: int| 0 <= i < keys.len() && keys[i] == x;
            assert(m.contains_key(list[i].0));
        }
        if m.contains_key(x) {
            let i = choose|i: int| 0 <= i < list.len() && (#[trigger] list[i]).0 == x;
            assert(keys[i] == x);
        }
    }
    assert(keys.to_set() =~= m.dom());
    assert(keys.no_duplicates());
    keys.unique_seq_to_set();
}

} // verus!
