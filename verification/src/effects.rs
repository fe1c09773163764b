//! What each operation of the allocator does, field by field: what a result must
//! satisfy, and how the state after a call relates to the state before it.
use crate::lru;
use crate::model;
use crate::model::CacheView;
use crate::retention;
use crate::tally;
use vstd::prelude::*;

verus! {

/// A new allocator is switched off, has the cap that it was given, holds nothing
/// and has counted nothing; nothing can be served from it.
pub proof fn law_a_new_allocator_is_empty(capacity: usize, bytes: usize)
    ensures
        ({
            let c = CacheView::fresh(capacity);
            &&& c.capacity == capacity
            &&& !c.enabled
            &&& !c.capturing
            &&& c.answer(bytes) == None::<u64>
            &&& !c.free.contains_key(bytes)
            &&& c.deferred.len() == 0
            &&& !c.missed.contains(bytes)
            &&& !c.window.contains_key(bytes)
            &&& !c.demand.contains_key(bytes)
            &&& !c.capture_misses.contains_key(bytes)
            &&& c.cached_bytes == 0
            &&& c.cached_buffers == 0
            &&& c.tick == 0
            &&& c.hits == 0
            &&& c.misses == 0
            &&& c.puts == 0
            &&& c.evicted == 0
            &&& c.drained == 0
            &&& c.prewarmed == 0
            &&& c.evicted_at_demand_size == 0
            &&& c.high_water_bytes == 0
        }),
{
}

/// A request for a size that has free buffers is served the one that was freed
/// last. That buffer, and no other, leaves the pool; the request is a hit and no
/// miss; and the size is from then on the most recently used one of all.
pub proof fn law_a_hit(c: CacheView, bytes: usize)
    requires
        c.wf(),
        c.tick < u64::MAX,
        c.free.contains_key(bytes),
        c.free[bytes].ptrs.len() > 0,
    ensures
        ({
            let s = c.free[bytes].ptrs;
            let end = c.taken(bytes);
            &&& c.answer(bytes) == Some(s[s.len() - 1])
            &&& end.free.dom() == c.free.dom()
            &&& end.free[bytes].ptrs.len() == s.len() - 1
            &&& forall|i: int| 0 <= i < s.len() - 1 ==> #[trigger] end.free[bytes].ptrs[i] == s[i]
            &&& forall|b: usize| #[trigger]
                c.free.contains_key(b) && b != bytes ==> end.free[b] == c.free[b]
                    && end.free[b].tick < end.free[bytes].tick
            &&& end.free[bytes].tick == c.tick + 1
            &&& end.hits == c.hits + 1
            &&& end.misses == c.misses
            &&& end.capture_misses == c.capture_misses
            &&& end.cached_bytes == c.cached_bytes - bytes
            &&& end.cached_buffers == c.cached_buffers - 1
        }),
{
    c.lemma_taken(bytes);
    assert(c.taken(bytes).free.dom() =~= c.free.dom());
}

/// A request for a size without a free buffer is served nothing, leaves the pool
/// as it is, and is a miss and no hit.
pub proof fn law_a_miss(c: CacheView, bytes: usize)
    requires
        !c.free.contains_key(bytes) || c.free[bytes].ptrs.len() == 0,
    ensures
        ({
            let end = c.taken(bytes);
            &&& c.answer(bytes) == None::<u64>
            &&& end.free == c.free
            &&& end.hits == c.hits
            &&& end.misses == c.misses + 1
            &&& end.cached_bytes == c.cached_bytes
            &&& end.cached_buffers == c.cached_buffers
        }),
{
}

/// While capturing, the window counts a request at its own size, served or not, and
/// the ledger counts it there if it was not. Outside a capture neither changes.
pub proof fn law_a_request_feeds_the_instruments(c: CacheView, bytes: usize, b: usize)
    ensures
        ({
            let end = c.taken(bytes);
            let before = if c.window.contains_key(b) {
                c.window[b]
            } else {
                0
            };
            let missed = if c.capture_misses.contains_key(b) {
                c.capture_misses[b]
            } else {
                0
            };
            &&& !c.capturing ==> end.window == c.window && end.capture_misses == c.capture_misses
            &&& c.capturing && b == bytes ==> end.window.contains_key(b) && end.window[b] == before
                + 1
            &&& c.capturing && b == bytes && c.answer(bytes).is_none()
                ==> end.capture_misses.contains_key(b) && end.capture_misses[b] == missed + 1
            &&& c.answer(bytes).is_some() ==> end.capture_misses == c.capture_misses
            &&& b != bytes ==> (end.window.contains_key(b) <==> c.window.contains_key(b))
                && end.window[b] == c.window[b]
            &&& b != bytes ==> (end.capture_misses.contains_key(b)
                <==> c.capture_misses.contains_key(b)) && end.capture_misses[b]
                == c.capture_misses[b]
        }),
{
}

/// What a request never touches.
pub proof fn law_a_request_leaves_the_rest(c: CacheView, bytes: usize)
    ensures
        ({
            let end = c.taken(bytes);
            &&& end.enabled == c.enabled
            &&& end.capturing == c.capturing
            &&& end.deferred == c.deferred
            &&& end.missed == c.missed
            &&& end.demand == c.demand
            &&& end.capacity == c.capacity
            &&& end.tick == c.tick + 1
            &&& end.puts == c.puts
            &&& end.evicted == c.evicted
            &&& end.drained == c.drained
            &&& end.prewarmed == c.prewarmed
            &&& end.evicted_at_demand_size == c.evicted_at_demand_size
            &&& end.high_water_bytes == c.high_water_bytes
        }),
{
}

/// A hit renews its size for the sweep that follows. Of all sizes but the one that
/// is put next, the size that was just served loses a buffer last: only once every
/// other size has lost all of its own. If its own buffers and those of the size that
/// is put fit under seven eighths of the cap, with the parked ones, it loses none.
pub proof fn law_a_served_size_outlasts_the_others(
    c: CacheView,
    bytes: usize,
    cold: usize,
    ptr: u64,
    other: usize,
    i: int,
)
    requires
        c.wf(),
        c.tick + 1 < u64::MAX,
        !c.capturing,
        c.free.contains_key(bytes),
        c.free[bytes].ptrs.len() > 1,
        cold != bytes,
    ensures
        ({
            let filed = c.taken(bytes).filed(cold, ptr);
            let victims = filed.victims();
            let others = if c.free.contains_key(cold) {
                c.free[cold].ptrs.len()
            } else {
                0
            };
            &&& 0 <= i < victims.len() && victims[i].0 == bytes && other != bytes && other != cold
                ==> !filed.swept().free.contains_key(other)
            &&& bytes as nat * (c.free[bytes].ptrs.len() - 1) as nat + cold as nat * (others + 1)
                + lru::bytes_in(c.deferred) <= c.capacity / 8 * 7 ==> filed.swept().answer(bytes)
                == Some(c.free[bytes].ptrs[c.free[bytes].ptrs.len() - 2])
        }),
{
    let hit = c.taken(bytes);
    let filed = hit.filed(cold, ptr);
    law_a_hit(c, bytes);
    c.lemma_taken(bytes);
    hit.lemma_filed(cold, ptr);
    let victims = filed.victims();
    assert forall|b: usize| #[trigger] lru::stocked(hit.free, b) && b != bytes implies lru::staler(
        hit.free,
        b,
        bytes,
    ) by {
        assert(c.free.contains_key(b));
    }
    if 0 <= i < victims.len() && victims[i].0 == bytes && other != bytes && other != cold {
        law_a_victim_comes_after_every_staler_size(filed, other, i);
        if filed.free.contains_key(other) {
            assert(c.free.contains_key(other));
            assert(filed.free[other].tick < filed.free[bytes].tick);
        }
    }
    if bytes as nat * (c.free[bytes].ptrs.len() - 1) as nat + cold as nat * (model::stack_at(
        c.free,
        cold,
    ).len() + 1) + lru::bytes_in(c.deferred) <= c.capacity / 8 * 7 {
        retention::law_a_hot_size_survives_a_cold_put(hit, bytes, cold, ptr);
    }
}

/// A freed buffer goes to the pool outside a capture: on top of the stack of its
/// size, which is from then on the most recently used one of all. Inside a capture
/// it goes behind the parked ones, and the pool stays as it is.
pub proof fn law_a_freed_buffer_is_filed(c: CacheView, bytes: usize, ptr: u64)
    requires
        c.wf(),
        c.tick < u64::MAX,
    ensures
        ({
            let end = c.filed(bytes, ptr);
            let n = if c.free.contains_key(bytes) {
                c.free[bytes].ptrs.len()
            } else {
                0
            };
            &&& c.capturing ==> {
                &&& end.free == c.free
                &&& end.deferred.len() == c.deferred.len() + 1
                &&& end.deferred[c.deferred.len() as int] == (bytes, ptr)
                &&& forall|i: int|
                    0 <= i < c.deferred.len() ==> #[trigger] end.deferred[i] == c.deferred[i]
            }
            &&& !c.capturing ==> {
                &&& end.deferred == c.deferred
                &&& end.free.contains_key(bytes)
                &&& end.free[bytes].ptrs.len() == n + 1
                &&& end.free[bytes].ptrs[n as int] == ptr
                &&& forall|i: int|
                    0 <= i < n ==> #[trigger] end.free[bytes].ptrs[i] == c.free[bytes].ptrs[i]
                &&& end.free[bytes].tick == c.tick + 1
                &&& forall|b: usize|
                    b != bytes ==> (#[trigger] end.free.contains_key(b) <==> c.free.contains_key(b))
                &&& forall|b: usize| #[trigger]
                    c.free.contains_key(b) && b != bytes ==> end.free[b] == c.free[b]
                        && end.free[b].tick < end.free[bytes].tick
            }
            &&& end.cached_bytes == c.cached_bytes + bytes
            &&& end.cached_buffers == c.cached_buffers + 1
            &&& end.puts == c.puts + 1
            &&& end.tick == c.tick + 1
            &&& end.high_water_bytes >= c.high_water_bytes
            &&& end.high_water_bytes >= c.cached_bytes + bytes
            &&& end.high_water_bytes == c.high_water_bytes || end.high_water_bytes
                == c.cached_bytes + bytes
        }),
{
}

/// What filing a freed buffer never touches.
pub proof fn law_filing_leaves_the_rest(c: CacheView, bytes: usize, ptr: u64)
    ensures
        ({
            let end = c.filed(bytes, ptr);
            &&& end.enabled == c.enabled
            &&& end.capturing == c.capturing
            &&& end.missed == c.missed
            &&& end.window == c.window
            &&& end.demand == c.demand
            &&& end.capture_misses == c.capture_misses
            &&& end.capacity == c.capacity
            &&& end.hits == c.hits
            &&& end.misses == c.misses
            &&& end.evicted == c.evicted
            &&& end.drained == c.drained
            &&& end.prewarmed == c.prewarmed
            &&& end.evicted_at_demand_size == c.evicted_at_demand_size
        }),
{
}

/// A sweep gives something back exactly if there is a cap, more than the cap is
/// retained, no capture is open, and the pool is not empty.
pub proof fn law_when_a_sweep_gives_something_back(c: CacheView)
    requires
        c.wf(),
    ensures
        c.victims().len() > 0 <==> {
            &&& c.capacity != usize::MAX
            &&& c.cached_bytes > c.capacity
            &&& !c.capturing
            &&& exists|b: usize| #[trigger] c.free.contains_key(b) && c.free[b].ptrs.len() > 0
        },
{
    let q = lru::eviction_queue(c.free);
    let sizes = lru::lru_order(c.free);
    lru::lemma_lru_order(c.free);
    lru::lemma_order_distinct(c.free, sizes);
    assert(c.low_water() <= c.capacity);
    if c.over_capacity() {
        lru::lemma_excess_exact(q, c.cached_bytes as int, c.low_water() as int);
        assert(q.take(0) =~= Seq::empty());
        if c.victims().len() > 0 {
            lru::lemma_queue_next(c.free, sizes, 0);
            let b = q[0].0;
            assert(lru::stocked(c.free, b));
            assert(c.free.contains_key(b));
        } else if exists|b: usize| #[trigger] c.free.contains_key(b) && c.free[b].ptrs.len() > 0 {
            let b = choose|b: usize| #[trigger] c.free.contains_key(b) && c.free[b].ptrs.len() > 0;
            lru::lemma_queue_number(c.free, sizes, b);
            assert(lru::stocked(c.free, b));
            assert(sizes.contains(b));
            if q.len() == 0 {
                assert(lru::number_at(q, b) == 0);
            }
        }
    }
}

/// Victims leave by the age of their size: of two victims the earlier one comes from
/// the size that was used less recently, or the ages agree and it does not come from
/// the larger size.
pub proof fn law_victims_leave_by_age(c: CacheView, i: int, j: int)
    requires
        c.wf(),
        0 <= i < j < c.victims().len(),
    ensures
        ({
            let a = c.victims()[i].0;
            let b = c.victims()[j].0;
            &&& c.free.contains_key(a)
            &&& c.free.contains_key(b)
            &&& c.free[a].tick < c.free[b].tick || (c.free[a].tick == c.free[b].tick && a <= b)
        }),
{
    let q = lru::eviction_queue(c.free);
    let sizes = lru::lru_order(c.free);
    lru::lemma_lru_order(c.free);
    lru::lemma_order_distinct(c.free, sizes);
    lru::lemma_excess_exact(q, c.cached_bytes as int, c.low_water() as int);
    lru::lemma_queue_next(c.free, sizes, i);
    lru::lemma_queue_next(c.free, sizes, j);
    lru::lemma_queue_sorted(c.free, sizes, i, j);
}

/// A size loses a buffer only once every size that was used less recently has lost
/// all of its own.
pub proof fn law_a_victim_comes_after_every_staler_size(c: CacheView, stale: usize, i: int)
    requires
        c.wf(),
        0 <= i < c.victims().len(),
    ensures
        c.free.contains_key(stale) && c.free[stale].tick < c.free[c.victims()[i].0].tick
            ==> !c.swept().free.contains_key(stale),
{
    let q = lru::eviction_queue(c.free);
    let sizes = lru::lru_order(c.free);
    lru::lemma_lru_order(c.free);
    lru::lemma_order_distinct(c.free, sizes);
    lru::lemma_excess_exact(q, c.cached_bytes as int, c.low_water() as int);
    lru::lemma_queue_next(c.free, sizes, i);
    let b = c.victims()[i].0;
    assert(sizes.contains(b));
    if c.free.contains_key(stale) && c.free[stale].tick < c.free[b].tick {
        if c.free[stale].ptrs.len() > 0 {
            lru::lemma_number_at_filter(c.victims(), b);
            lru::lemma_number_at_some(c.victims(), i);
            retention::law_the_stalest_size_goes_first(c, stale, b);
        }
    }
}

/// Victims leave each stack from the top: the victim that follows `k` earlier victims
/// of its size is the one `k` below the top.
pub proof fn law_victims_leave_from_the_top(c: CacheView, i: int)
    requires
        c.wf(),
        0 <= i < c.victims().len(),
    ensures
        ({
            let v = c.victims();
            let s = c.free[v[i].0].ptrs;
            let b = v[i].0;
            let k = v.take(i).filter(|x: (usize, u64)| x.0 == b).len();
            &&& c.free.contains_key(v[i].0)
            &&& k < s.len()
            &&& v[i].1 == s[s.len() - 1 - k]
        }),
{
    let v = c.victims();
    let q = lru::eviction_queue(c.free);
    let sizes = lru::lru_order(c.free);
    lru::lemma_lru_order(c.free);
    lru::lemma_order_distinct(c.free, sizes);
    lru::lemma_excess_exact(q, c.cached_bytes as int, c.low_water() as int);
    lru::lemma_queue_next(c.free, sizes, i);
    assert(v.take(i) =~= q.take(i));
    let b = v[i].0;
    lru::lemma_number_at_filter(v.take(i), b);
    assert((|x: (usize, u64)| x.0 == b) =~= (|x: (usize, u64)| x.0 == c.victims()[i].0));
    assert(sizes.contains(b));
}

/// A sweep brings retention down to seven eighths of the cap, or to what is parked if
/// that is more, and no further than it has to: without the last victim retention
/// would be above.
pub proof fn law_a_sweep_stops_at_seven_eighths(c: CacheView)
    requires
        c.wf(),
        c.capacity != usize::MAX,
        c.cached_bytes > c.capacity,
        !c.capturing,
    ensures
        c.swept().cached_bytes <= c.capacity / 8 * 7 || c.swept().cached_bytes == lru::bytes_in(
            c.deferred,
        ),
        c.victims().len() > 0 ==> c.cached_bytes - lru::bytes_in(c.victims().drop_last())
            > c.capacity / 8 * 7,
{
    retention::law_a_sweep_is_just_enough(c);
}

/// What a sweep leaves: each stack without the victims that came off its top, with
/// its age; no empty stack; the counters changed by the victims, those of a profiled
/// size counted twice.
pub proof fn law_what_a_sweep_leaves(c: CacheView, b: usize)
    requires
        c.wf(),
    ensures
        ({
            let v = c.victims();
            let end = c.swept();
            let k = v.filter(|x: (usize, u64)| x.0 == b).len();
            let profiled = v.filter(|x: (usize, u64)| c.demand.contains_key(x.0)).len();
            &&& v.len() > 0 ==> (end.free.contains_key(b) <==> c.free.contains_key(b) && k
                < c.free[b].ptrs.len())
            &&& v.len() == 0 ==> (end.free.contains_key(b) ==> c.free.contains_key(b))
            &&& v.len() == 0 && c.free.contains_key(b) && c.free[b].ptrs.len() > 0
                ==> end.free.contains_key(b)
            &&& end.free.contains_key(b) ==> {
                &&& end.free[b].tick == c.free[b].tick
                &&& end.free[b].ptrs.len() == c.free[b].ptrs.len() - k
                &&& forall|i: int|
                    0 <= i < end.free[b].ptrs.len() ==> #[trigger] end.free[b].ptrs[i]
                        == c.free[b].ptrs[i]
            }
            &&& end.evicted == c.evicted + v.len()
            &&& end.evicted_at_demand_size == c.evicted_at_demand_size + profiled
            &&& end.cached_bytes == c.cached_bytes - lru::bytes_in(v)
            &&& end.cached_buffers == c.cached_buffers - v.len()
        }),
{
    let v = c.victims();
    c.lemma_swept();
    lru::lemma_number_at_filter(v, b);
    lru::lemma_number_within_filter(v, c.demand.dom());
    assert((|x: (usize, u64)| c.demand.dom().contains(x.0)) =~= (|x: (usize, u64)|
        c.demand.contains_key(x.0)));
    if !c.over_capacity() {
        assert(v =~= Seq::empty());
    }
}

/// What a sweep never touches.
pub proof fn law_a_sweep_leaves_the_rest(c: CacheView)
    ensures
        ({
            let end = c.swept();
            &&& end.enabled == c.enabled
            &&& end.capturing == c.capturing
            &&& end.deferred == c.deferred
            &&& end.missed == c.missed
            &&& end.window == c.window
            &&& end.demand == c.demand
            &&& end.capture_misses == c.capture_misses
            &&& end.capacity == c.capacity
            &&& end.tick == c.tick
            &&& end.hits == c.hits
            &&& end.misses == c.misses
            &&& end.puts == c.puts
            &&& end.drained == c.drained
            &&& end.prewarmed == c.prewarmed
            &&& end.high_water_bytes == c.high_water_bytes
        }),
{
}

/// A drain leaves nothing behind and closes the capture and its window. It counts
/// what it handed back, and touches nothing else.
pub proof fn law_a_drain_leaves_nothing(c: CacheView, b: usize)
    ensures
        ({
            let end = c.emptied();
            &&& !end.free.contains_key(b)
            &&& end.deferred.len() == 0
            &&& !end.window.contains_key(b)
            &&& !end.capturing
            &&& end.cached_bytes == 0
            &&& end.cached_buffers == 0
            &&& end.drained == c.drained + c.cached_buffers
            &&& end.enabled == c.enabled
            &&& end.missed == c.missed
            &&& end.demand == c.demand
            &&& end.capture_misses == c.capture_misses
            &&& end.capacity == c.capacity
            &&& end.tick == c.tick
            &&& end.hits == c.hits
            &&& end.misses == c.misses
            &&& end.puts == c.puts
            &&& end.evicted == c.evicted
            &&& end.prewarmed == c.prewarmed
            &&& end.evicted_at_demand_size == c.evicted_at_demand_size
            &&& end.high_water_bytes == c.high_water_bytes
        }),
{
}

/// A pre-warm of at least one buffer puts its buffers on top of the stack of their
/// size, in order. The size is from then on the most recently used one of all. The
/// buffers are counted as retained and as pre-warmed, and not as puts.
pub proof fn law_a_prewarmed_size_is_the_hottest(c: CacheView, bytes: usize, ptrs: Seq<u64>)
    requires
        c.wf(),
        c.tick < u64::MAX,
        ptrs.len() > 0,
    ensures
        ({
            let end = c.installed(bytes, ptrs);
            let n = if c.free.contains_key(bytes) {
                c.free[bytes].ptrs.len()
            } else {
                0
            };
            &&& end.free.contains_key(bytes)
            &&& end.free[bytes].ptrs.len() == n + ptrs.len()
            &&& forall|i: int|
                0 <= i < n ==> #[trigger] end.free[bytes].ptrs[i] == c.free[bytes].ptrs[i]
            &&& forall|i: int|
                0 <= i < ptrs.len() ==> end.free[bytes].ptrs[n + i] == #[trigger] ptrs[i]
            &&& end.free[bytes].tick == c.tick + 1
            &&& forall|b: usize|
                b != bytes ==> (#[trigger] end.free.contains_key(b) <==> c.free.contains_key(b))
            &&& forall|b: usize| #[trigger]
                c.free.contains_key(b) && b != bytes ==> end.free[b] == c.free[b]
                    && end.free[b].tick < end.free[bytes].tick
            &&& end.answer(bytes) == Some(ptrs[ptrs.len() - 1])
            &&& end.cached_bytes == c.cached_bytes + bytes as nat * ptrs.len()
            &&& end.cached_buffers == c.cached_buffers + ptrs.len()
            &&& end.prewarmed == c.prewarmed + ptrs.len()
            &&& end.tick == c.tick + 1
            &&& end.high_water_bytes >= c.high_water_bytes
            &&& end.high_water_bytes >= end.cached_bytes
            &&& end.high_water_bytes == c.high_water_bytes || end.high_water_bytes
                == end.cached_bytes
        }),
{
}

/// What a pre-warm never touches, and that one without buffers touches nothing.
pub proof fn law_a_prewarm_leaves_the_rest(c: CacheView, bytes: usize, ptrs: Seq<u64>)
    ensures
        ({
            let end = c.installed(bytes, ptrs);
            &&& ptrs.len() == 0 ==> end == c
            &&& end.enabled == c.enabled
            &&& end.capturing == c.capturing
            &&& end.deferred == c.deferred
            &&& end.missed == c.missed
            &&& end.window == c.window
            &&& end.demand == c.demand
            &&& end.capture_misses == c.capture_misses
            &&& end.capacity == c.capacity
            &&& end.hits == c.hits
            &&& end.misses == c.misses
            &&& end.puts == c.puts
            &&& end.evicted == c.evicted
            &&& end.drained == c.drained
            &&& end.evicted_at_demand_size == c.evicted_at_demand_size
        }),
{
}

/// A pre-warmed size outlasts every size that was used before it: the sweep of a
/// later put takes one of its buffers only once all of those have lost their own.
pub proof fn law_a_prewarmed_size_outlasts_the_others(
    c: CacheView,
    bytes: usize,
    ptrs: Seq<u64>,
    cold: usize,
    ptr: u64,
    other: usize,
    i: int,
)
    requires
        c.wf(),
        c.tick + 1 < u64::MAX,
        !c.capturing,
        ptrs.len() > 0,
        cold != bytes,
        other != bytes,
        other != cold,
    ensures
        ({
            let filed = c.installed(bytes, ptrs).filed(cold, ptr);
            0 <= i < filed.victims().len() && filed.victims()[i].0 == bytes
                ==> !filed.swept().free.contains_key(other)
        }),
{
    let warm = c.installed(bytes, ptrs);
    let filed = warm.filed(cold, ptr);
    law_a_prewarmed_size_is_the_hottest(c, bytes, ptrs);
    c.lemma_installed(bytes, ptrs);
    warm.lemma_filed(cold, ptr);
    if 0 <= i < filed.victims().len() && filed.victims()[i].0 == bytes {
        law_a_victim_comes_after_every_staler_size(filed, other, i);
        if filed.free.contains_key(other) {
            assert(warm.free.contains_key(other));
            assert(c.free.contains_key(other));
            assert(filed.free[other].tick < filed.free[bytes].tick);
        }
    }
}

/// Closing a window: at each size the profile is at least what it was and at least
/// what the window counted, and one of the two; it knows the sizes of both. The
/// window is empty afterwards and nothing else changes.
pub proof fn law_closing_a_window(c: CacheView, b: usize)
    ensures
        ({
            let end = c.folded();
            &&& end.demand.contains_key(b) <==> c.demand.contains_key(b) || c.window.contains_key(b)
            &&& c.demand.contains_key(b) ==> end.demand[b] >= c.demand[b]
            &&& c.window.contains_key(b) ==> end.demand[b] >= c.window[b]
            &&& end.demand.contains_key(b) ==> (c.demand.contains_key(b) && end.demand[b]
                == c.demand[b]) || (c.window.contains_key(b) && end.demand[b] == c.window[b])
            &&& !end.window.contains_key(b)
            &&& end == (CacheView { window: end.window, demand: end.demand, ..c })
        }),
{
}

/// The end of a capture: the parked buffers go on top of the stacks of their sizes, in
/// the order in which they were freed. The sizes that gained one are from then on the
/// most recently used ones; the others keep their age. Only the clock moves besides.
pub proof fn law_parked_buffers_go_back(c: CacheView, b: usize)
    requires
        c.wf(),
        c.tick < u64::MAX,
    ensures
        ({
            let end = c.released();
            let back = c.deferred.filter(|x: (usize, u64)| x.0 == b);
            let n = if c.free.contains_key(b) {
                c.free[b].ptrs.len()
            } else {
                0
            };
            &&& end.free.contains_key(b) <==> c.free.contains_key(b) || back.len() > 0
            &&& end.free.contains_key(b) ==> end.free[b].ptrs.len() == n + back.len()
            &&& c.free.contains_key(b) ==> forall|i: int|
                0 <= i < n ==> #[trigger] end.free[b].ptrs[i] == c.free[b].ptrs[i]
            &&& forall|i: int|
                0 <= i < back.len() ==> end.free[b].ptrs[n + i] == (#[trigger] back[i]).1
            &&& back.len() > 0 ==> end.free[b].tick == c.tick + 1
            &&& c.free.contains_key(b) && back.len() == 0 ==> end.free[b].tick == c.free[b].tick
                && end.free[b].tick < c.tick + 1
            &&& end.deferred.len() == 0
            &&& end.tick == c.tick + 1
            &&& end == (CacheView {
                free: end.free,
                deferred: end.deferred,
                tick: end.tick,
                ..c
            })
        }),
{
    let back = c.deferred.filter(|x: (usize, u64)| x.0 == b);
    model::lemma_parked_filter(c.deferred, b);
    let parked = model::parked_at(c.deferred, b);
    assert(parked =~= back.map_values(|x: (usize, u64)| x.1));
    assert forall|i: int| 0 <= i < back.len() implies parked[i] == (#[trigger] back[i]).1 by {}
}

/// A plan asks for a size exactly if it is not zero, the profile knows it, and the pool
/// holds fewer than its demand and the slack. It asks for exactly what is missing, and
/// names no size twice.
pub proof fn law_a_plan_is_what_is_missing(
    c: CacheView,
    slack: usize,
    plan: Seq<(usize, usize)>,
    bytes: usize,
    n: usize,
)
    requires
        c.is_plan(slack, plan),
    ensures
        ({
            let have = if c.free.contains_key(bytes) {
                c.free[bytes].ptrs.len()
            } else {
                0
            };
            &&& plan.contains((bytes, n)) <==> bytes > 0 && n > 0 && c.demand.contains_key(bytes)
                && have + n == c.demand[bytes] + slack
            &&& forall|i: int, j: int|
                0 <= i < j < plan.len() ==> (#[trigger] plan[i]).0 != (#[trigger] plan[j]).0
        }),
{
    if plan.contains((bytes, n)) {
        let i = choose|i: int| 0 <= i < plan.len() && plan[i] == (bytes, n);
        assert(c.short_of(plan[i].0, slack));
    }
    if c.short_of(bytes, slack) {
        let i = choose|i: int| 0 <= i < plan.len() && (#[trigger] plan[i]).0 == bytes;
        assert(plan[i].0 == bytes);
        if plan[i].1 == n {
            assert(plan[i] == (bytes, n));
        }
    }
}

/// A request fits exactly if the numbers after it can be written down.
pub proof fn law_a_request_fits_if_its_counts_do(c: CacheView, bytes: usize)
    requires
        c.tick <= u64::MAX,
        c.window.contains_key(bytes) ==> c.window[bytes] <= usize::MAX,
        c.capture_misses.contains_key(bytes) ==> c.capture_misses[bytes] <= usize::MAX,
    ensures
        c.take_fits(bytes) <==> {
            let end = c.taken(bytes);
            &&& end.tick <= u64::MAX
            &&& end.window.contains_key(bytes) ==> end.window[bytes] <= usize::MAX
            &&& end.capture_misses.contains_key(bytes) ==> end.capture_misses[bytes] <= usize::MAX
        },
{
}

/// A put fits exactly if the numbers after it, before and after its sweep, can be
/// written down.
pub proof fn law_a_put_fits_if_its_counts_do(c: CacheView, bytes: usize, ptr: u64)
    requires
        c.evicted <= u64::MAX,
    ensures
        c.put_fits(bytes, ptr) <==> {
            let filed = c.filed(bytes, ptr);
            &&& filed.tick <= u64::MAX
            &&& filed.cached_bytes <= usize::MAX
            &&& filed.cached_buffers <= usize::MAX
            &&& filed.swept().evicted <= u64::MAX
        },
{
    let filed = c.filed(bytes, ptr);
    if !filed.over_capacity() {
        assert(filed.victims().len() == 0);
    }
}

/// A pre-warm fits exactly if the numbers after it can be written down.
pub proof fn law_a_prewarm_fits_if_its_counts_do(c: CacheView, bytes: usize, ptrs: Seq<u64>)
    requires
        c.tick <= u64::MAX,
        c.cached_bytes <= usize::MAX,
        c.cached_buffers <= usize::MAX,
        c.prewarmed <= u64::MAX,
    ensures
        c.install_fits(bytes, ptrs.len()) <==> {
            let end = c.installed(bytes, ptrs);
            &&& end.tick <= u64::MAX
            &&& end.cached_bytes <= usize::MAX
            &&& end.cached_buffers <= usize::MAX
            &&& end.prewarmed <= u64::MAX
        },
{
}

/// What is held, counted out: a buffer is held as often as it lies in the stack of its
/// size and among the parked ones, and the bytes and buffers held are those of the
/// stacks and of the parked ones.
pub proof fn law_what_is_held(c: CacheView, b: usize, p: u64)
    ensures
        c.held(b, p) == c.deferred.to_multiset().count((b, p)) + if c.free.contains_key(b) {
            c.free[b].ptrs.to_multiset().count(p)
        } else {
            0
        },
        c.held_bytes() == lru::bytes_in(c.deferred) + tally::total(
            c.free.map_entries(|x: usize, s: lru::ClassView| x as nat * s.ptrs.len()),
        ),
        c.held_buffers() == c.deferred.len() + tally::total(
            c.free.map_values(|s: lru::ClassView| s.ptrs.len()),
        ),
{
    broadcast use vstd::seq_lib::group_to_multiset_ensures;

    assert(model::class_bytes(c.free) =~= c.free.map_entries(
        |x: usize, s: lru::ClassView| x as nat * s.ptrs.len(),
    ));
    assert(model::class_lens(c.free) =~= c.free.map_values(|s: lru::ClassView| s.ptrs.len()));
}

} // verus!
