//! What holds of the caching allocator as a whole.
use crate::keep;
use crate::lru;
use crate::lru::ClassView;
use crate::model;
use crate::model::CacheView;
use crate::tally;
use vstd::prelude::*;

verus! {

/// A put followed by a take of the same size is a hit on that buffer, and the
/// two leave what is retained as it was, unless the put has to give something
/// back or parks the buffer.
pub proof fn law_put_then_take_is_a_hit(c: CacheView, bytes: usize, ptr: u64)
    requires
        c.wf(),
        !c.capturing,
        c.tick < u64::MAX,
        !c.filed(bytes, ptr).over_capacity(),
    ensures
        ({
            let after = c.filed(bytes, ptr).swept();
            let end = after.taken(bytes);
            &&& after.answer(bytes) == Some(ptr)
            &&& c.filed(bytes, ptr).victims().len() == 0
            &&& end.hits == c.hits + 1
            &&& end.misses == c.misses
            &&& end.puts == c.puts + 1
            &&& end.cached_bytes == c.cached_bytes
            &&& end.cached_buffers == c.cached_buffers
            &&& forall|b: usize|
                model::stack_at(end.free, b) == #[trigger] model::stack_at(c.free, b)
        }),
{
    let after = c.filed(bytes, ptr).swept();
    let end = after.taken(bytes);
    assert(after.free[bytes].ptrs.drop_last() =~= model::stack_at(c.free, bytes));
    assert forall|b: usize| model::stack_at(end.free, b) == #[trigger] model::stack_at(
        c.free,
        b,
    ) by {}
}

/// A request is only ever served a buffer that was filed under exactly its size.
pub proof fn law_only_the_exact_size_is_served(c: CacheView, bytes: usize)
    requires
        c.wf(),
    ensures
        c.answer(bytes) matches Some(ptr) ==> c.held(bytes, ptr) > 0,
        c.answer(bytes).is_some() <==> model::stack_at(c.free, bytes).len() > 0,
{
    broadcast use vstd::seq_lib::group_to_multiset_ensures;

    if c.serves(bytes) {
        let s = c.free[bytes].ptrs;
        assert(s.contains(s.last()));
    }
}

/// Neither a request nor a put of one size changes what another size is served,
/// as long as nothing is given back.
pub proof fn law_sizes_do_not_meet(c: CacheView, bytes: usize, ptr: u64, other: usize)
    requires
        c.wf(),
        other != bytes,
    ensures
        c.taken(bytes).answer(other) == c.answer(other),
        c.filed(bytes, ptr).answer(other) == c.answer(other),
{
}

/// A request moves at most one buffer, the one that it is served.
pub proof fn law_a_request_conserves_buffers(c: CacheView, bytes: usize, b: usize, p: u64)
    requires
        c.wf(),
        c.tick < u64::MAX,
    ensures
        c.held(b, p) == c.taken(bytes).held(b, p) + if c.answer(bytes) == Some(p) && b == bytes {
            1nat
        } else {
            0nat
        },
{
    broadcast use vstd::seq_lib::group_to_multiset_ensures;

    if c.serves(bytes) && b == bytes {
        let s = c.free[bytes].ptrs;
        assert(s =~= s.drop_last().push(s.last()));
    }
}

/// Everything that a sweep takes out it hands back, and everything else stays.
pub proof fn law_a_sweep_conserves_buffers(c: CacheView, b: usize, p: u64)
    requires
        c.wf(),
    ensures
        c.held(b, p) == c.swept().held(b, p) + c.victims().to_multiset().count((b, p)),
{
    broadcast use vstd::seq_lib::group_to_multiset_ensures;

    if c.over_capacity() {
        lru::lemma_lru_order(c.free);
        let q = lru::eviction_queue(c.free);
        lru::lemma_excess_exact(q, c.cached_bytes as int, c.low_water() as int);
        keep::lemma_pool_after(
            c.free,
            lru::lru_order(c.free),
            lru::excess_len(q, c.cached_bytes as int, c.low_water() as int) as int,
        );
        assert(model::stack_at(c.swept().free, b).to_multiset().count(p)
            + c.victims().to_multiset().count((b, p)) == model::stack_at(
            c.free,
            b,
        ).to_multiset().count(p));
    }
}

/// After a put every buffer, the new one included, is either still held or
/// handed to the caller, exactly once.
pub proof fn law_a_put_conserves_buffers(c: CacheView, bytes: usize, ptr: u64, b: usize, p: u64)
    requires
        c.wf(),
        c.tick < u64::MAX,
    ensures
        c.filed(bytes, ptr).swept().held(b, p) + c.filed(
            bytes,
            ptr,
        ).victims().to_multiset().count((b, p)) == c.held(b, p) + if (b, p) == (bytes, ptr) {
            1nat
        } else {
            0nat
        },
{
    broadcast use vstd::seq_lib::group_to_multiset_ensures;

    let f = c.filed(bytes, ptr);
    c.lemma_filed(bytes, ptr);
    law_a_sweep_conserves_buffers(f, b, p);
    if c.capturing {
        assert(f.deferred == c.deferred.push((bytes, ptr)));
    } else if b == bytes {
        assert(f.free[bytes].ptrs == model::stack_at(c.free, bytes).push(ptr));
    }
}

/// Buffers of the first stacks of a list of sizes.
proof fn lemma_stacks_count(free: Map<usize, ClassView>, sizes: Seq<usize>, b: usize, p: u64)
    requires
        sizes.no_duplicates(),
        forall|i: int| 0 <= i < sizes.len() ==> free.contains_key(#[trigger] sizes[i]),
    ensures
        model::stacks_of(free, sizes).to_multiset().count((b, p)) == if sizes.contains(b) {
            model::stack_at(free, b).to_multiset().count(p)
        } else {
            0
        },
    decreases sizes.len(),
{
    broadcast use vstd::seq_lib::group_to_multiset_ensures;

    if sizes.len() > 0 {
        let init = sizes.drop_last();
        let l = sizes.last();
        lemma_stacks_count(free, init, b, p);
        let run = model::stack_bufs(l, free[l].ptrs);
        lemma_run_count(l, free[l].ptrs, b, p);
        vstd::seq_lib::lemma_multiset_commutative(model::stacks_of(free, init), run);
        assert(sizes.contains(b) <==> init.contains(b) || b == l) by {
            if sizes.contains(b) {
                let i = choose|i: int| 0 <= i < sizes.len() && sizes[i] == b;
                if i < init.len() {
                    assert(init[i] == b);
                }
            }
            if init.contains(b) {
                let i = choose|i: int| 0 <= i < init.len() && init[i] == b;
                assert(sizes[i] == b);
            }
            assert(sizes[sizes.len() - 1] == l);
        }
        assert(!init.contains(l)) by {
            if init.contains(l) {
                let i = choose|i: int| 0 <= i < init.len() && init[i] == l;
                assert(sizes[i] == sizes[sizes.len() - 1]);
            }
        }
    }
}

/// The buffers of one stack.
proof fn lemma_run_count(bytes: usize, ptrs: Seq<u64>, b: usize, p: u64)
    ensures
        model::stack_bufs(bytes, ptrs).to_multiset().count((b, p)) == if b == bytes {
            ptrs.to_multiset().count(p)
        } else {
            0
        },
    decreases ptrs.len(),
{
    broadcast use vstd::seq_lib::group_to_multiset_ensures;

    let run = model::stack_bufs(bytes, ptrs);
    if ptrs.len() == 0 {
        assert(run =~= Seq::empty());
        assert(ptrs =~= Seq::empty());
    } else {
        let init = ptrs.drop_last();
        lemma_run_count(bytes, init, b, p);
        assert(ptrs =~= init.push(ptrs.last()));
        assert(run =~= model::stack_bufs(bytes, init).push((bytes, ptrs.last())));
    }
}

/// A drain hands back every buffer exactly as often as it was held, and leaves
/// nothing behind.
pub proof fn law_a_drain_returns_every_buffer_once(
    c: CacheView,
    out: Seq<(usize, u64)>,
    b: usize,
    p: u64,
)
    requires
        c.wf(),
        c.lists_all(out),
    ensures
        out.to_multiset().count((b, p)) == c.held(b, p),
        out.len() == c.cached_buffers,
        c.emptied().held(b, p) == 0,
        c.emptied().cached_bytes == 0,
        c.emptied().cached_buffers == 0,
        c.emptied().drained == c.drained + out.len(),
{
    broadcast use vstd::seq_lib::group_to_multiset_ensures;

    let sizes = choose|sizes: Seq<usize>| #[trigger]
        tally::enumerates(sizes, c.free.dom()) && out == model::stacks_of(c.free, sizes)
            + c.deferred;
    assert forall|i: int| 0 <= i < sizes.len() implies c.free.contains_key(#[trigger] sizes[i]) by {
        assert(sizes.contains(sizes[i]));
    }
    lemma_stacks_count(c.free, sizes, b, p);
    vstd::seq_lib::lemma_multiset_commutative(model::stacks_of(c.free, sizes), c.deferred);
    keep::lemma_stacks_len(c.free, sizes, sizes.len() as int);
    assert(sizes.contains(b) <==> c.free.dom().contains(b));
}

/// A pre-warm adds its buffers and moves no other.
pub proof fn law_a_prewarm_conserves_buffers(
    c: CacheView,
    bytes: usize,
    ptrs: Seq<u64>,
    b: usize,
    p: u64,
)
    requires
        c.wf(),
    ensures
        c.installed(bytes, ptrs).held(b, p) == c.held(b, p) + if b == bytes {
            ptrs.to_multiset().count(p)
        } else {
            0
        },
{
    broadcast use vstd::seq_lib::group_to_multiset_ensures;

    if ptrs.len() == 0 {
        assert(ptrs =~= Seq::empty());
    } else if b == bytes {
        vstd::seq_lib::lemma_multiset_commutative(model::stack_at(c.free, bytes), ptrs);
    }
}

/// The end of a capture moves the parked buffers into the pool and loses none.
pub proof fn law_the_end_of_a_capture_conserves_buffers(c: CacheView, b: usize, p: u64)
    requires
        c.wf(),
    ensures
        c.released().held(b, p) == c.held(b, p),
        c.released().deferred.len() == 0,
        c.released().cached_bytes == c.cached_bytes,
        c.released().cached_buffers == c.cached_buffers,
{
    broadcast use vstd::seq_lib::group_to_multiset_ensures;

    keep::lemma_pool_with(c.free, c.deferred, (c.tick + 1) as u64);
    assert(model::stack_at(c.released().free, b).to_multiset().count(p) == model::stack_at(
        c.free,
        b,
    ).to_multiset().count(p) + c.deferred.to_multiset().count((b, p)));
}

/// Every buffer that came in, by a put or by a pre-warm, has been served again,
/// was handed back to the driver, or is still held. So the frees are what came in
/// less what was served and what is held.
pub proof fn law_every_buffer_is_accounted_for(c: CacheView)
    requires
        c.wf(),
    ensures
        c.evicted + c.drained == c.puts + c.prewarmed - c.hits - c.cached_buffers,
        c.evicted_at_demand_size <= c.evicted,
        c.cached_bytes == c.held_bytes(),
        c.cached_buffers == c.held_buffers(),
        c.cached_bytes <= c.high_water_bytes,
        tally::total(c.capture_misses) <= c.misses,
{
}

} // verus!
