//! What a device answers: where an allocation comes from, what it has to say, what
//! becomes of a freed buffer, and what each switch does.
use crate::device::{DeviceSetup, DeviceView, MissNotice, Origin, Prewarm, ReadBack};
use crate::effects;
use crate::history;
use crate::history::Event;
use crate::ids::DeviceId;
use crate::ladder;
use crate::laws;
use crate::lru;
use crate::model;
use crate::model::CacheView;
use crate::retention;
use crate::traffic;
use vstd::prelude::*;

verus! {

/// An allocation reuses a buffer exactly if the allocator is on, there are bytes to
/// allocate, and the pool holds a buffer of exactly that size. It is then the one that
/// was freed last.
pub proof fn law_an_allocation_reuses_what_is_there(
    c: CacheView,
    len: usize,
    width: usize,
    zeroed: bool,
)
    requires
        len * width <= usize::MAX,
    ensures
        ({
            let bytes = (len * width) as usize;
            let there = c.enabled && bytes > 0 && c.free.contains_key(bytes)
                && c.free[bytes].ptrs.len() > 0;
            let a = c.allocation(len, width, zeroed);
            &&& there ==> a.origin == Origin::Reused(
                c.free[bytes].ptrs[c.free[bytes].ptrs.len() - 1],
            )
            &&& there ==> c.reuse(bytes) == Some(c.free[bytes].ptrs[c.free[bytes].ptrs.len() - 1])
            &&& !there ==> a.origin == Origin::Driver
            &&& !there ==> c.reuse(bytes) == None::<u64>
            &&& a.len == len
            &&& a.bytes == len * width
            &&& a.zeroed == zeroed
            &&& a.notice == c.miss_notice(bytes)
        }),
{
}

/// Over an allocation every buffer is conserved: the buffer that the allocation is
/// given leaves the allocator once, and no other leaves or comes.
pub proof fn law_an_allocation_conserves_buffers(
    c: CacheView,
    len: usize,
    width: usize,
    zeroed: bool,
    b: usize,
    p: u64,
)
    requires
        c.wf(),
        c.tick < u64::MAX,
        len * width <= usize::MAX,
    ensures
        ({
            let bytes = (len * width) as usize;
            let end = c.allocated(bytes);
            let given = c.allocation(len, width, zeroed).origin == Origin::Reused(p) && b == bytes;
            &&& c.held(b, p) == end.held(b, p) + if given {
                1nat
            } else {
                0nat
            }
            &&& end.cached_buffers == c.cached_buffers - if c.allocation(
                len,
                width,
                zeroed,
            ).origin is Reused {
                1int
            } else {
                0int
            }
            &&& end.deferred == c.deferred
        }),
{
    let bytes = (len * width) as usize;
    if c.consults(bytes) {
        laws::law_a_request_conserves_buffers(c, bytes, b, p);
        if c.serves(bytes) {
            c.lemma_taken(bytes);
        }
    }
}

/// An allocator that is off, or is asked for nothing, is left alone and says nothing.
pub proof fn law_an_allocator_that_is_off_is_left_alone(c: CacheView, bytes: usize, ptr: u64)
    requires
        !c.enabled || bytes == 0,
    ensures
        c.allocated(bytes) == c,
        c.reuse(bytes) == None::<u64>,
        c.miss_notice(bytes) == MissNotice::Silent,
        history::happens(c, Event::Alloc(bytes)) == c,
        history::happens(c, Event::Free(bytes, ptr)) == c,
        c.alloc_fits(bytes),
        !c.consults(bytes),
{
}

/// An allocator that is on is asked for every allocation of at least one byte: the
/// state is that after a request, but for the note of a miss.
pub proof fn law_an_allocator_that_is_on_is_asked(c: CacheView, bytes: usize)
    requires
        c.enabled,
        bytes > 0,
    ensures
        c.consults(bytes),
        c.alloc_fits(bytes) <==> c.take_fits(bytes),
        c.reuse(bytes) == c.answer(bytes),
        c.allocated(bytes) == (CacheView { missed: c.allocated(bytes).missed, ..c.taken(bytes) }),
        c.answer(bytes).is_some() ==> c.allocated(bytes).missed == c.missed,
{
    effects::law_a_request_leaves_the_rest(c, bytes);
}

/// A miss leaves a note of its size class and of no other.
pub proof fn law_a_miss_is_noted_by_class(c: CacheView, bytes: usize, k: usize)
    requires
        c.enabled,
        bytes > 0,
        c.answer(bytes).is_none(),
    ensures
        c.allocated(bytes).missed.contains(k) <==> c.missed.contains(k) || k
            == ladder::size_class(bytes as nat),
{
    ladder::law_ladder_is_bounded(bytes as nat);
}

/// Only the first miss of a size class speaks, and it speaks up if a capture is open:
/// of two misses of one class the second is silent, and a miss of another class is not
/// silenced by it. A hit is silent.
pub proof fn law_the_first_miss_of_a_class_speaks(c: CacheView, bytes: usize, next: usize)
    requires
        c.enabled,
        bytes > 0,
        next > 0,
    ensures
        c.answer(bytes).is_some() ==> c.miss_notice(bytes) == MissNotice::Silent,
        c.answer(bytes).is_none() && c.missed.contains(
            ladder::size_class(bytes as nat) as usize,
        ) ==> c.miss_notice(bytes) == MissNotice::Silent,
        c.answer(bytes).is_none() && !c.missed.contains(
            ladder::size_class(bytes as nat) as usize,
        ) ==> c.miss_notice(bytes) == (if c.capturing {
            MissNotice::DuringCapture
        } else {
            MissNotice::NewClass
        }),
        c.answer(bytes).is_none() && ladder::size_class(next as nat) == ladder::size_class(
            bytes as nat,
        ) ==> c.allocated(bytes).miss_notice(next) == MissNotice::Silent,
        c.answer(bytes).is_none() && ladder::size_class(next as nat) != ladder::size_class(
            bytes as nat,
        ) ==> c.allocated(bytes).miss_notice(next) == c.miss_notice(next),
{
    ladder::law_ladder_is_bounded(bytes as nat);
    ladder::law_ladder_is_bounded(next as nat);
}

/// A freed buffer of at least one byte that is offered to an allocator that is on is
/// taken in and, outside a capture, leaves at most the cap behind. Every buffer, the new
/// one included, is still held or is handed back.
pub proof fn law_a_freed_buffer_is_taken_in(
    c: CacheView,
    bytes: usize,
    ptr: u64,
    b: usize,
    p: u64,
)
    requires
        c.owned_wf(),
        c.enabled,
        bytes > 0,
        c.put_fits(bytes, ptr),
    ensures
        ({
            let end = history::happens(c, Event::Free(bytes, ptr));
            let gone = c.filed(bytes, ptr).victims();
            &&& c.consults(bytes)
            &&& end.puts == c.puts + 1
            &&& end.cached_buffers == c.cached_buffers + 1 - gone.len()
            &&& end.held(b, p) + gone.to_multiset().count((b, p)) == c.held(b, p) + if b == bytes
                && p == ptr {
                1nat
            } else {
                0nat
            }
            &&& !c.capturing ==> end.cached_bytes <= c.capacity
            &&& c.capturing ==> gone.len() == 0 && end.free == c.free
        }),
{
    laws::law_a_put_conserves_buffers(c, bytes, ptr, b, p);
    c.lemma_filed(bytes, ptr);
    c.filed(bytes, ptr).lemma_swept();
    if !c.capturing {
        retention::law_every_put_bounds_retention(c, bytes, ptr);
    }
    if c.filed(bytes, ptr).victims().len() == 0 {
        if c.filed(bytes, ptr).over_capacity() {
            assert(c.filed(bytes, ptr).swept().cached_buffers == c.cached_buffers + 1);
        }
    }
}

/// Switching on sets the flag and does nothing else. Switching off leaves nothing held
/// and closes the capture; the profile, the ledger and the notes of misses stay.
pub proof fn law_switching_on_and_off(c: CacheView, b: usize)
    ensures
        history::happens(c, Event::Enable(true)) == (CacheView { enabled: true, ..c }),
        ({
            let end = history::happens(c, Event::Enable(false));
            &&& !end.enabled
            &&& !end.capturing
            &&& !end.free.contains_key(b)
            &&& end.deferred.len() == 0
            &&& !end.window.contains_key(b)
            &&& end.cached_bytes == 0
            &&& end.cached_buffers == 0
            &&& end.drained == c.drained + c.cached_buffers
            &&& end == (CacheView {
                enabled: false,
                capturing: false,
                free: end.free,
                deferred: end.deferred,
                window: end.window,
                cached_bytes: 0,
                cached_buffers: 0,
                drained: end.drained,
                ..c
            })
        }),
{
}

/// A drain leaves nothing held, closes the capture and forgets the notes of misses; the
/// profile, the ledger and the switch stay.
pub proof fn law_draining(c: CacheView, b: usize)
    ensures
        ({
            let end = history::happens(c, Event::Drain);
            &&& !end.capturing
            &&& !end.free.contains_key(b)
            &&& end.deferred.len() == 0
            &&& !end.window.contains_key(b)
            &&& !end.missed.contains(b)
            &&& end.cached_bytes == 0
            &&& end.cached_buffers == 0
            &&& end.drained == c.drained + c.cached_buffers
            &&& end == (CacheView {
                capturing: false,
                free: end.free,
                deferred: end.deferred,
                window: end.window,
                missed: end.missed,
                cached_bytes: 0,
                cached_buffers: 0,
                drained: end.drained,
                ..c
            })
        }),
{
}

/// Another cap: it holds from then on. Where it is no cap, or is not crossed, or a
/// capture is open, nothing else changes. Otherwise retention comes down to seven
/// eighths of it, or to what is parked, and what is given back is counted.
pub proof fn law_setting_the_cap(c: CacheView, capacity: usize)
    requires
        c.wf(),
    ensures
        ({
            let end = history::happens(c, Event::Capacity(capacity));
            &&& end.capacity == capacity
            &&& capacity == usize::MAX || c.cached_bytes <= capacity || c.capturing ==> end == (
            CacheView { capacity, ..c })
            &&& capacity != usize::MAX && c.cached_bytes > capacity && !c.capturing
                ==> end.cached_bytes <= capacity / 8 * 7 || end.cached_bytes == lru::bytes_in(
                c.deferred,
            )
            &&& end.evicted - c.evicted == c.cached_buffers - end.cached_buffers
            &&& end == (CacheView {
                capacity,
                free: end.free,
                cached_bytes: end.cached_bytes,
                cached_buffers: end.cached_buffers,
                evicted: end.evicted,
                evicted_at_demand_size: end.evicted_at_demand_size,
                ..c
            })
        }),
{
    let d = CacheView { capacity, ..c };
    d.lemma_swept();
    if capacity != usize::MAX && c.cached_bytes > capacity && !c.capturing {
        effects::law_a_sweep_stops_at_seven_eighths(d);
    }
    effects::law_what_a_sweep_leaves(d, 0);
}

/// Entering capture mode sets the flag and empties the window. Clearing the ledger
/// empties the ledger. Neither does anything else.
pub proof fn law_entering_capture_and_clearing_the_ledger(c: CacheView, b: usize)
    ensures
        ({
            let end = history::happens(c, Event::Capture(true));
            &&& end.capturing
            &&& !end.window.contains_key(b)
            &&& end == (CacheView { capturing: true, window: end.window, ..c })
        }),
        ({
            let end = history::happens(c, Event::ResetMisses);
            &&& !end.capture_misses.contains_key(b)
            &&& end == (CacheView { capture_misses: end.capture_misses, ..c })
        }),
{
}

/// Leaving capture mode clears the flag, raises the profile to the window and returns
/// the parked buffers to the pool, and does nothing else; in particular nothing is
/// handed back.
pub proof fn law_leaving_capture(c: CacheView, b: usize)
    requires
        c.wf(),
        c.tick < u64::MAX,
    ensures
        ({
            let end = history::happens(c, Event::Capture(false));
            let back = c.deferred.filter(|x: (usize, u64)| x.0 == b);
            let n = if c.free.contains_key(b) {
                c.free[b].ptrs.len()
            } else {
                0
            };
            &&& !end.capturing
            &&& end.deferred.len() == 0
            &&& !end.window.contains_key(b)
            &&& end.demand.contains_key(b) <==> c.demand.contains_key(b) || c.window.contains_key(b)
            &&& c.demand.contains_key(b) ==> end.demand[b] >= c.demand[b]
            &&& c.window.contains_key(b) ==> end.demand[b] >= c.window[b]
            &&& end.demand.contains_key(b) ==> (c.demand.contains_key(b) && end.demand[b]
                == c.demand[b]) || (c.window.contains_key(b) && end.demand[b] == c.window[b])
            &&& end.free.contains_key(b) <==> c.free.contains_key(b) || back.len() > 0
            &&& end.free.contains_key(b) ==> end.free[b].ptrs.len() == n + back.len()
            &&& c.free.contains_key(b) ==> forall|i: int|
                0 <= i < n ==> #[trigger] end.free[b].ptrs[i] == c.free[b].ptrs[i]
            &&& forall|i: int|
                0 <= i < back.len() ==> end.free[b].ptrs[n + i] == (#[trigger] back[i]).1
            &&& back.len() > 0 ==> end.free[b].tick == c.tick + 1
            &&& c.free.contains_key(b) && back.len() == 0 ==> end.free[b].tick == c.free[b].tick
            &&& end == (CacheView {
                capturing: false,
                free: end.free,
                deferred: end.deferred,
                window: end.window,
                demand: end.demand,
                tick: c.tick + 1,
                ..c
            })
        }),
{
    let off = CacheView { capturing: false, ..c };
    off.lemma_folded();
    effects::law_closing_a_window(off, b);
    effects::law_parked_buffers_go_back(off.folded(), b);
}

/// Filing the buffers of a pre-warm, an allocation and a free are the operations of the
/// allocator.
pub proof fn law_events_are_operations(c: CacheView, bytes: usize, ptr: u64, ptrs: Seq<u64>)
    ensures
        history::happens(c, Event::Prewarmed(bytes, ptrs)) == c.installed(bytes, ptrs),
        history::happens(c, Event::Alloc(bytes)) == c.allocated(bytes),
        c.enabled && bytes > 0 ==> history::happens(c, Event::Free(bytes, ptr)) == c.filed(
            bytes,
            ptr,
        ).swept(),
{
}

/// A pre-warm outside a capture brings each size of the profile up to its demand and the
/// slack, where it was short, and no further; every other size stays as it is. Inside a
/// capture it leaves every size as it is.
pub proof fn law_a_prewarm_fills_up_exactly(
    c: CacheView,
    slack: usize,
    plan: Seq<(usize, usize)>,
    bufs: Seq<Seq<u64>>,
    b: usize,
)
    requires
        c.wf(),
        c.is_prewarm(slack, plan),
        forall|i: int| 0 <= i < plan.len() ==> (#[trigger] bufs[i]).len() == plan[i].1,
    ensures
        ({
            let end = traffic::topped_up(c, plan, bufs);
            let had = if c.free.contains_key(b) {
                c.free[b].ptrs.len()
            } else {
                0
            };
            let has = if end.free.contains_key(b) {
                end.free[b].ptrs.len()
            } else {
                0
            };
            let wanted = c.demand[b] + slack;
            &&& !c.capturing && b > 0 && c.demand.contains_key(b) && wanted > had ==> has == wanted
            &&& c.capturing || b == 0 || !c.demand.contains_key(b) || wanted <= had ==> has == had
        }),
{
    if c.capturing {
        assert(traffic::topped_up(c, plan, bufs) == c);
    } else {
        traffic::lemma_topped_up(c, plan, bufs);
        let end = traffic::topped_up(c, plan, bufs);
        if exists|i: int| 0 <= i < plan.len() && (#[trigger] plan[i]).0 == b {
            let i = choose|i: int| 0 <= i < plan.len() && (#[trigger] plan[i]).0 == b;
            assert(c.short_of(plan[i].0, slack));
        } else if c.short_of(b, slack) {
            let i = choose|i: int| 0 <= i < plan.len() && (#[trigger] plan[i]).0 == b;
            assert(plan[i].0 == b);
        } else {
            assert(model::stack_at(end.free, b) == model::stack_at(c.free, b));
        }
    }
}

/// What the invariant of a device says.
pub proof fn law_what_a_device_keeps<M>(d: DeviceView<M>, b: usize, c: CacheView)
    requires
        d.wf(),
    ensures
        d.cache.wf(),
        !d.cache.capturing ==> d.cache.deferred.len() == 0,
        !d.cache.window.contains_key(0),
        !d.cache.demand.contains_key(0),
        !d.cache.capture_misses.contains_key(0),
        d.cache.missed.contains(b) ==> b <= 220,
        d.cache.capture_misses.contains_key(b) ==> d.cache.capture_misses[b] >= 1,
        d.cache.free.contains_key(b) ==> d.cache.free[b].tick <= d.cache.tick,
        d.with_cache(c) == (DeviceView { cache: c, ..d }),
{
}

/// A new device is where it was asked for, has the cap that it was given and an allocator
/// that is off and empty; no module is loaded, and the seed is that of its generator. A
/// device that can be captured differs in its stream, its event tracking and its workspace
/// of 32 mebibytes alone.
pub proof fn law_a_new_device<M>(
    id: DeviceId,
    ordinal: usize,
    n: nat,
    capacity: usize,
    i: int,
    name: Seq<char>,
)
    ensures
        ({
            let d = DeviceView::<M>::made(id, ordinal, n, capacity);
            &&& d.id == id
            &&& d.ordinal == ordinal
            &&& d.modules.len() == n
            &&& 0 <= i < n ==> d.module_at(i) == None::<M>
            &&& d.custom_named(name) == None::<M>
            &&& d.seed == 299_792_458
            &&& d.cache.capacity == capacity
            &&& !d.cache.enabled
            &&& d.wf()
        }),
        DeviceSetup::shared().seed == 299_792_458,
        DeviceSetup::captured().seed == 299_792_458,
        !DeviceSetup::shared().own_stream,
        DeviceSetup::captured().own_stream,
        !DeviceSetup::shared().disable_event_tracking,
        DeviceSetup::captured().disable_event_tracking,
        DeviceSetup::shared().workspace == None::<usize>,
        DeviceSetup::captured().workspace == Some((32 * 1024 * 1024) as usize),
{
    CacheView::lemma_fresh(capacity);
}

/// A module that was filed is found, under its own index or name and no other; the seed is
/// the last one that was set. Neither touches anything else.
pub proof fn law_modules_and_seed<M>(
    d: DeviceView<M>,
    index: int,
    other: int,
    name: Seq<char>,
    another: Seq<char>,
    module: M,
    seed: u64,
)
    requires
        0 <= index < d.modules.len(),
        0 <= other < d.modules.len(),
    ensures
        d.with_module(index, module).module_at(index) == Some(module),
        other != index ==> d.with_module(index, module).module_at(other) == d.module_at(other),
        d.with_module(index, module) == (DeviceView {
            modules: d.with_module(index, module).modules,
            ..d
        }),
        d.with_module(index, module).modules.len() == d.modules.len(),
        d.with_custom(name, module).custom_named(name) == Some(module),
        another != name ==> d.with_custom(name, module).custom_named(another) == d.custom_named(
            another,
        ),
        d.with_custom(name, module) == (DeviceView {
            custom: d.with_custom(name, module).custom,
            ..d
        }),
        d.seeded(seed).seed == seed,
        d.seeded(seed) == (DeviceView { seed, ..d }),
{
}

/// A pre-warm is answered exactly if the allocator is on; the answer tells whether a
/// capture is open, and has no line if one is.
pub proof fn law_the_answer_to_a_prewarm(c: CacheView, slack: usize, p: Option<Prewarm>)
    requires
        c.answers_prewarm(slack, p),
    ensures
        p.is_some() <==> c.enabled,
        p matches Some(p) ==> p.while_capturing == c.capturing,
        p matches Some(p) ==> (c.capturing ==> p.plan@.len() == 0),
        p matches Some(p) ==> (!c.capturing ==> c.is_plan(slack, p.plan@)),
{
}

/// An overshoot is reported exactly if more than the cap is retained, with both numbers. A
/// read-back is redirected exactly if a capture is open.
pub proof fn law_overshoot_and_read_backs(c: CacheView)
    ensures
        c.cached_bytes > c.capacity ==> c.overshoot() == Some((c.cached_bytes, c.capacity as nat)),
        c.cached_bytes <= c.capacity ==> c.overshoot() == None::<(nat, nat)>,
        ReadBack::under(true) == ReadBack::Redirected,
        ReadBack::under(false) == ReadBack::Direct,
{
}

} // verus!
