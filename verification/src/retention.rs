//! What holds of retention: the cap, the order of eviction, and who survives it.
use crate::keep;
use crate::lru;
use crate::lru::ClassView;
use crate::model;
use crate::model::CacheView;
use crate::tally;
use vstd::prelude::*;

verus! {

/// Nothing is given back while capturing, without a cap, or under it.
pub proof fn law_no_sweep_without_need(c: CacheView)
    requires
        c.wf(),
        c.capturing || c.capacity == usize::MAX || c.cached_bytes <= c.capacity,
    ensures
        c.victims().len() == 0,
        c.swept() == c,
{
}

/// A sweep over the cap gives back just enough: retention comes down to the
/// low-water mark, or all that is left is parked; and without the last victim it
/// would still be above the mark.
pub proof fn law_a_sweep_is_just_enough(c: CacheView)
    requires
        c.wf(),
        c.over_capacity(),
    ensures
        c.swept().cached_bytes <= c.low_water() || (c.swept().cached_bytes == lru::bytes_in(
            c.deferred,
        ) && forall|b: usize| !#[trigger] c.swept().serves(b)),
        c.victims().len() > 0 ==> c.cached_bytes - lru::bytes_in(c.victims().drop_last())
            > c.low_water(),
        c.swept().cached_bytes == c.cached_bytes - lru::bytes_in(c.victims()),
{
    let q = lru::eviction_queue(c.free);
    let n = lru::excess_len(q, c.cached_bytes as int, c.low_water() as int) as int;
    lru::lemma_lru_order(c.free);
    lru::lemma_excess_exact(q, c.cached_bytes as int, c.low_water() as int);
    c.lemma_swept();
    if n > 0 {
        assert(c.victims().drop_last() =~= q.take(n - 1));
    }
    if n == q.len() {
        lemma_all_gone(c, n);
    }
}

/// A sweep through the whole queue leaves only what is parked.
proof fn lemma_all_gone(c: CacheView, n: int)
    requires
        c.wf(),
        n == lru::eviction_queue(c.free).len(),
    ensures
        ({
            let left = c.without(lru::eviction_queue(c.free).take(n));
            &&& left.free.dom() == Set::<usize>::empty()
            &&& left.cached_bytes == lru::bytes_in(c.deferred)
            &&& left.cached_buffers == c.deferred.len()
            &&& lru::bytes_in(lru::eviction_queue(c.free)) == tally::total(
                model::class_bytes(c.free),
            )
        }),
{
    let q = lru::eviction_queue(c.free);
    let sizes = lru::lru_order(c.free);
    let left = c.without(q.take(n));
    assert(q.take(n) =~= q);
    lru::lemma_lru_order(c.free);
    lru::lemma_order_distinct(c.free, sizes);
    keep::lemma_pool_after(c.free, sizes, n);
    assert forall|b: usize| !left.free.dom().contains(b) by {
        if c.free.contains_key(b) {
            lru::lemma_queue_number(c.free, sizes, b);
            assert(sizes.contains(b) <==> lru::stocked(c.free, b));
        }
    }
    assert(left.free.dom() =~= Set::empty());
    assert(model::class_bytes(left.free).dom() =~= Set::empty());
    assert(model::class_lens(left.free).dom() =~= Set::empty());
}

/// Outside capture every put leaves retention at or under the cap, whatever was
/// retained before it, once nothing is parked. A pre-warm or the end of a capture
/// may leave more; the next put takes it back.
pub proof fn law_every_put_bounds_retention(c: CacheView, bytes: usize, ptr: u64)
    requires
        c.wf(),
        c.put_fits(bytes, ptr),
        !c.capturing,
        c.deferred.len() == 0,
    ensures
        c.filed(bytes, ptr).swept().cached_bytes <= c.capacity,
        c.filed(bytes, ptr).over_capacity() ==> c.filed(bytes, ptr).swept().cached_bytes
            <= c.low_water() && c.filed(bytes, ptr).victims().len() > 0,
{
    let f = c.filed(bytes, ptr);
    c.lemma_filed(bytes, ptr);
    assert(c.low_water() <= c.capacity);
    if f.over_capacity() {
        law_a_sweep_is_just_enough(f);
        assert(lru::bytes_in(f.deferred) == 0);
        if f.victims().len() == 0 {
            assert(lru::bytes_in(f.victims()) == 0);
        }
    }
}

/// Lowering the cap takes effect at once.
pub proof fn law_a_new_cap_applies_at_once(c: CacheView, capacity: usize)
    requires
        c.wf(),
        c.cached_bytes <= usize::MAX,
        !c.capturing,
        c.deferred.len() == 0,
    ensures
        (CacheView { capacity, ..c }).swept().cached_bytes <= capacity,
        capacity != usize::MAX && c.cached_bytes > capacity ==> (CacheView {
            capacity,
            ..c
        }).swept().cached_bytes <= capacity as nat / 8 * 7,
{
    let d = CacheView { capacity, ..c };
    assert(d.low_water() <= capacity);
    if d.over_capacity() {
        law_a_sweep_is_just_enough(d);
        assert(lru::bytes_in(d.deferred) == 0);
    }
}

/// The peak overshoots the cap by at most one allocation: a buffer is taken in
/// before the sweep that makes room for it.
pub proof fn law_a_put_overshoots_by_one_allocation(
    c: CacheView,
    bytes: usize,
    ptr: u64,
    largest: nat,
)
    requires
        c.wf(),
        c.put_fits(bytes, ptr),
        !c.capturing,
        c.deferred.len() == 0,
        c.cached_bytes <= c.capacity,
        bytes <= largest,
        c.high_water_bytes <= c.capacity + largest,
    ensures
        c.filed(bytes, ptr).swept().high_water_bytes <= c.capacity + largest,
        c.filed(bytes, ptr).swept().high_water_bytes >= c.high_water_bytes,
        c.filed(bytes, ptr).swept().cached_bytes <= c.capacity,
{
    law_every_put_bounds_retention(c, bytes, ptr);
}

/// With a cap of zero nothing is retained.
pub proof fn law_zero_capacity_retains_nothing(c: CacheView, bytes: usize, ptr: u64)
    requires
        c.wf(),
        c.put_fits(bytes, ptr),
        !c.capturing,
        c.capacity == 0,
        c.cached_buffers == 0,
        bytes > 0,
    ensures
        c.filed(bytes, ptr).victims() == seq![(bytes, ptr)],
        c.filed(bytes, ptr).swept().cached_bytes == 0,
        c.filed(bytes, ptr).swept().cached_buffers == 0,
        c.filed(bytes, ptr).swept().answer(bytes) == None::<u64>,
{
    let f = c.filed(bytes, ptr);
    c.lemma_filed(bytes, ptr);
    f.lemma_swept();
    law_every_put_bounds_retention(c, bytes, ptr);
    let v = f.victims();
    let q = lru::eviction_queue(f.free);
    let sizes = lru::lru_order(f.free);
    lru::lemma_lru_order(f.free);
    lru::lemma_order_distinct(f.free, sizes);
    lru::lemma_excess_exact(q, f.cached_bytes as int, f.low_water() as int);
    assert(v.len() == 1);
    lru::lemma_queue_next(f.free, sizes, 0);
    let b = q[0].0;
    assert(q.take(0) =~= Seq::empty());
    keep::lemma_stack_within(c.free, b);
    keep::lemma_stack_within(c.free, bytes);
    assert(sizes.contains(b));
    assert(lru::stocked(f.free, b));
    assert(b == bytes);
    assert(v[0] == (bytes, ptr));
    assert(v =~= seq![(bytes, ptr)]);
    keep::lemma_stack_within(f.swept().free, bytes);
}

/// Eviction goes by age: a size loses a buffer only once every stocked size that
/// was used less recently has lost all of its own.
pub proof fn law_the_stalest_size_goes_first(c: CacheView, stale: usize, b: usize)
    requires
        c.wf(),
        lru::stocked(c.free, stale),
        lru::stocked(c.free, b),
        lru::staler(c.free, stale, b),
        lru::number_at(c.victims(), b) > 0,
    ensures
        lru::number_at(c.victims(), stale) == c.free[stale].ptrs.len(),
        !c.swept().serves(stale),
{
    if c.over_capacity() {
        let q = lru::eviction_queue(c.free);
        let sizes = lru::lru_order(c.free);
        lru::lemma_lru_order(c.free);
        lru::lemma_order_distinct(c.free, sizes);
        lru::lemma_excess_exact(q, c.cached_bytes as int, c.low_water() as int);
        let n = lru::excess_len(q, c.cached_bytes as int, c.low_water() as int) as int;
        assert(sizes.contains(stale));
        assert(sizes.contains(b));
        let i = choose|i: int| 0 <= i < sizes.len() && sizes[i] == stale;
        let j = choose|j: int| 0 <= j < sizes.len() && sizes[j] == b;
        if j < i {
            assert(lru::staler(c.free, sizes[j], sizes[i]));
        }
        lru::lemma_front_first(c.free, sizes, n, i, j);
    } else {
        assert(c.victims() =~= Seq::empty());
    }
}

/// The bytes of the queue of some sizes.
proof fn lemma_queue_bytes(free: Map<usize, ClassView>, sizes: Seq<usize>, n: int)
    requires
        free.dom().finite(),
        sizes.no_duplicates(),
        forall|i: int| 0 <= i < sizes.len() ==> free.contains_key(#[trigger] sizes[i]),
        0 <= n <= sizes.len(),
    ensures
        lru::bytes_in(lru::queue_of(free, sizes.take(n))) == tally::total(
            model::class_bytes(free).restrict(sizes.take(n).to_set()),
        ),
    decreases n,
{
    let mb = model::class_bytes(free);
    assert(mb.dom() =~= free.dom());
    if n == 0 {
        assert(sizes.take(0) =~= Seq::empty());
        assert(mb.restrict(sizes.take(0).to_set()).dom() =~= Set::empty());
    } else {
        lemma_queue_bytes(free, sizes, n - 1);
        let l = sizes[n - 1];
        assert(sizes.take(n) =~= sizes.take(n - 1) + seq![l]);
        lru::lemma_queue_add(free, sizes.take(n - 1), seq![l]);
        let run = lru::class_run(l, free[l].ptrs);
        assert(lru::queue_of(free, seq![l]) =~= run) by {
            reveal_with_fuel(lru::queue_of, 2);
            assert(seq![l].drop_first() =~= Seq::empty());
        }
        lru::lemma_bytes_in_add(lru::queue_of(free, sizes.take(n - 1)), run);
        lru::lemma_run_bytes(l, free[l].ptrs, free[l].ptrs.len() as int);
        tally::lemma_total_step(mb, sizes, n - 1);
    }
}

/// In the order of eviction the sizes of an upward closed set come last.
proof fn lemma_recent_last(
    free: Map<usize, ClassView>,
    sizes: Seq<usize>,
    recent: Set<usize>,
    n: int,
) -> (j: int)
    requires
        lru::is_lru_order(free, sizes),
        forall|a: usize, r: usize|
            #![trigger lru::stocked(free, a), lru::stocked(free, r)]
            lru::stocked(free, a) && lru::stocked(free, r) && !recent.contains(a)
                && recent.contains(r) ==> lru::staler(free, a, r),
        0 <= n <= sizes.len(),
        forall|i: int| n <= i < sizes.len() ==> recent.contains(#[trigger] sizes[i]),
    ensures
        0 <= j <= n,
        forall|i: int| 0 <= i < j ==> !recent.contains(#[trigger] sizes[i]),
        forall|i: int| j <= i < sizes.len() ==> recent.contains(#[trigger] sizes[i]),
    decreases n,
{
    if n > 0 && recent.contains(sizes[n - 1]) {
        lemma_recent_last(free, sizes, recent, n - 1)
    } else {
        if n > 0 {
            let l = sizes[n - 1];
            assert(sizes.contains(l));
            assert(lru::stocked(free, l));
            assert forall|i: int| 0 <= i < n implies !recent.contains(#[trigger] sizes[i]) by {
                assert(sizes.contains(sizes[i]));
                assert(lru::stocked(free, sizes[i]));
                if i < n - 1 {
                    assert(lru::staler(free, sizes[i], sizes[n - 1]));
                }
            }
        }
        n
    }
}

/// Eviction keeps the working set: sizes that were all used more recently than
/// the rest lose nothing, as long as their own buffers and the parked ones fit
/// under the low-water mark.
pub proof fn law_the_working_set_survives(c: CacheView, recent: Set<usize>, b: usize)
    requires
        c.wf(),
        forall|a: usize, r: usize|
            #![trigger lru::stocked(c.free, a), lru::stocked(c.free, r)]
            lru::stocked(c.free, a) && lru::stocked(c.free, r) && !recent.contains(a)
                && recent.contains(r) ==> lru::staler(c.free, a, r),
        tally::total(model::class_bytes(c.free).restrict(recent)) + lru::bytes_in(c.deferred)
            <= c.low_water(),
        recent.contains(b),
    ensures
        lru::number_at(c.victims(), b) == 0,
        model::stack_at(c.swept().free, b) == model::stack_at(c.free, b),
        c.swept().answer(b) == c.answer(b),
{
    if c.over_capacity() {
        let q = lru::eviction_queue(c.free);
        let sizes = lru::lru_order(c.free);
        lru::lemma_lru_order(c.free);
        lru::lemma_order_distinct(c.free, sizes);
        lru::lemma_excess_exact(q, c.cached_bytes as int, c.low_water() as int);
        let n = lru::excess_len(q, c.cached_bytes as int, c.low_water() as int) as int;
        let j = lemma_recent_last(c.free, sizes, recent, sizes.len() as int);
        let others = sizes.take(j);
        let kept = sizes.skip(j);
        assert(sizes =~= others + kept);
        let qo = lru::queue_of(c.free, others);
        let qk = lru::queue_of(c.free, kept);
        lru::lemma_queue_add(c.free, others, kept);
        lemma_all_gone(c, q.len() as int);
        lru::lemma_bytes_in_add(qo, qk);
        assert(kept.no_duplicates());
        assert forall|i: int| 0 <= i < kept.len() implies c.free.contains_key(
            #[trigger] kept[i],
        ) by {
            assert(sizes.contains(sizes[i + j]));
        }
        lemma_queue_bytes(c.free, kept, kept.len() as int);
        assert(kept.take(kept.len() as int) =~= kept);
        let mb = model::class_bytes(c.free);
        assert(mb.dom() =~= c.free.dom());
        assert(mb.restrict(kept.to_set()) =~= mb.restrict(recent).restrict(kept.to_set())) by {
            assert forall|x: usize| kept.to_set().contains(x) implies recent.contains(x) by {
                let i = choose|i: int| 0 <= i < kept.len() && kept[i] == x;
                assert(recent.contains(sizes[i + j]));
            }
        }
        assert(mb.restrict(recent).dom() =~= mb.dom().intersect(recent));
        tally::lemma_total_restrict_le(mb.restrict(recent), kept.to_set());
        if n > qo.len() {
            assert(q.take(n - 1).take(qo.len() as int) =~= qo);
            lru::lemma_bytes_in_prefix(q.take(n - 1), qo.len() as int);
        }
        assert(q.take(n) =~= qo.take(n));
        assert(others.no_duplicates());
        assert(!others.contains(b));
        lru::lemma_queue_number(c.free, others, b);
        lru::lemma_number_at_prefix(qo, n, qo.len() as int, b);
        assert(qo.take(qo.len() as int) =~= qo);
        if c.free.contains_key(b) {
            assert(c.free[b].ptrs.take(c.free[b].ptrs.len() as int) =~= c.free[b].ptrs);
            assert(model::stack_at(c.swept().free, b) =~= model::stack_at(c.free, b));
        }
    } else {
        assert(c.victims() =~= Seq::empty());
    }
}

/// A put of a size that fits under the low-water mark, with all its buffers and
/// the parked ones, is served by the next take of that size.
pub proof fn law_a_fresh_put_survives_its_own_sweep(c: CacheView, bytes: usize, ptr: u64)
    requires
        c.wf(),
        c.put_fits(bytes, ptr),
        !c.capturing,
        bytes as nat * (model::stack_at(c.free, bytes).len() + 1) + lru::bytes_in(c.deferred)
            <= c.low_water(),
    ensures
        c.filed(bytes, ptr).swept().answer(bytes) == Some(ptr),
{
    let f = c.filed(bytes, ptr);
    c.lemma_filed(bytes, ptr);
    assert forall|b: usize| #[trigger] lru::stocked(f.free, b) && b != bytes implies lru::staler(
        f.free,
        b,
        bytes,
    ) by {
        assert(c.free.contains_key(b));
    }
    let mb = model::class_bytes(f.free);
    let own = mb.restrict(set![bytes]);
    assert(own.dom() =~= set![bytes]);
    tally::lemma_total_remove(own, bytes);
    assert(own.remove(bytes).dom() =~= Set::empty());
    assert(f.free[bytes].ptrs.len() == model::stack_at(c.free, bytes).len() + 1);
    law_the_working_set_survives(f, set![bytes], bytes);
}

/// A size that was used last keeps all its buffers through the put of another
/// size, as long as the two of them and the parked buffers fit under the low-water
/// mark: a buffer that is reused at every step stays, and the sizes around it that
/// nothing asks for again go.
pub proof fn law_a_hot_size_survives_a_cold_put(c: CacheView, hot: usize, cold: usize, ptr: u64)
    requires
        c.wf(),
        c.tick < u64::MAX,
        !c.capturing,
        hot != cold,
        lru::stocked(c.free, hot),
        forall|b: usize| #[trigger]
            lru::stocked(c.free, b) && b != hot ==> lru::staler(c.free, b, hot),
        hot as nat * c.free[hot].ptrs.len() + cold as nat * (model::stack_at(c.free, cold).len()
            + 1) + lru::bytes_in(c.deferred) <= c.low_water(),
    ensures
        c.filed(cold, ptr).swept().answer(hot) == c.answer(hot),
        model::stack_at(c.filed(cold, ptr).swept().free, hot) == c.free[hot].ptrs,
{
    let f = c.filed(cold, ptr);
    c.lemma_filed(cold, ptr);
    let recent = set![hot, cold];
    assert forall|a: usize, r: usize|
        #![trigger lru::stocked(f.free, a), lru::stocked(f.free, r)]
        lru::stocked(f.free, a) && lru::stocked(f.free, r) && !recent.contains(a)
            && recent.contains(r) implies lru::staler(f.free, a, r) by {
        assert(lru::stocked(c.free, a));
        assert(c.free.contains_key(a));
    }
    let own = model::class_bytes(f.free).restrict(recent);
    assert(own.dom() =~= recent);
    tally::lemma_total_remove(own, hot);
    tally::lemma_total_remove(own.remove(hot), cold);
    assert(own.remove(hot).remove(cold).dom() =~= Set::empty());
    assert(f.free[cold].ptrs.len() == model::stack_at(c.free, cold).len() + 1);
    law_the_working_set_survives(f, recent, hot);
}

/// A sweep leaves no size without a buffer in the map.
pub proof fn law_emptied_sizes_are_dropped(c: CacheView, b: usize)
    requires
        c.wf(),
        c.over_capacity(),
    ensures
        c.swept().free.contains_key(b) ==> lru::stocked(c.swept().free, b),
        c.swept().free.contains_key(b) ==> c.free.contains_key(b),
        c.swept().free.dom() == lru::stocked_sizes(c.swept().free),
{
    let after = c.swept().free;
    assert forall|x: usize| after.dom().contains(x) implies lru::stocked(after, x) by {}
    assert(after.dom() =~= lru::stocked_sizes(after));
}

/// The victims at a size of the demand profile are counted apart: exactly those.
pub proof fn law_profiled_victims_are_counted(c: CacheView)
    requires
        c.wf(),
    ensures
        c.swept().evicted == c.evicted + c.victims().len(),
        c.swept().evicted_at_demand_size == c.evicted_at_demand_size + lru::number_within(
            c.victims(),
            c.demand.dom(),
        ),
        (forall|i: int|
            0 <= i < c.victims().len() ==> c.demand.contains_key((#[trigger] c.victims()[i]).0))
            ==> lru::number_within(c.victims(), c.demand.dom()) == c.victims().len(),
        (forall|i: int|
            0 <= i < c.victims().len() ==> !c.demand.contains_key((#[trigger] c.victims()[i]).0))
            ==> lru::number_within(c.victims(), c.demand.dom()) == 0,
{
    lemma_all_or_none_within(c.victims(), c.demand.dom());
    if !c.over_capacity() {
        assert(c.victims() =~= Seq::empty());
    }
}

/// A list with all, or none, of its sizes in a set.
proof fn lemma_all_or_none_within(bufs: Seq<(usize, u64)>, sizes: Set<usize>)
    ensures
        (forall|i: int| 0 <= i < bufs.len() ==> sizes.contains((#[trigger] bufs[i]).0))
            ==> lru::number_within(bufs, sizes) == bufs.len(),
        (forall|i: int| 0 <= i < bufs.len() ==> !sizes.contains((#[trigger] bufs[i]).0))
            ==> lru::number_within(bufs, sizes) == 0,
    decreases bufs.len(),
{
    if bufs.len() > 0 {
        let init = bufs.drop_last();
        lemma_all_or_none_within(init, sizes);
        assert(forall|i: int| 0 <= i < init.len() ==> init[i] == bufs[i]);
        assert(bufs.last() == bufs[bufs.len() - 1]);
    }
}

} // verus!
