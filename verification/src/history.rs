//! What holds over the whole life of a device, whatever is asked of it and in
//! whatever order.
use crate::ladder;
use crate::model::CacheView;
use crate::tally;
use vstd::prelude::*;

verus! {

/// One call of a method that changes the allocator of a device.
pub enum Event {
    /// An allocation of so many bytes.
    Alloc(usize),
    /// A freed buffer is offered: its size and its address.
    Free(usize, u64),
    /// The allocator is switched on or off.
    Enable(bool),
    /// Another cap.
    Capacity(usize),
    /// A drain.
    Drain,
    /// Capture mode is entered or left.
    Capture(bool),
    /// The miss ledger is cleared.
    ResetMisses,
    /// Buffers of one line of a pre-warm are filed.
    Prewarmed(usize, Seq<u64>),
}

/// The state after one event.
pub open spec fn happens(c: CacheView, event: Event) -> CacheView {
    match event {
        Event::Alloc(bytes) => c.allocated(bytes),
        Event::Free(bytes, ptr) => if c.consults(bytes) {
            c.filed(bytes, ptr).swept()
        } else {
            c
        },
        Event::Enable(enabled) => if enabled {
            CacheView { enabled: true, ..c }
        } else {
            CacheView { enabled: false, ..c.emptied() }
        },
        Event::Capacity(capacity) => (CacheView { capacity, ..c }).swept(),
        Event::Drain => CacheView { missed: Set::empty(), ..c.emptied() },
        Event::Capture(capturing) => if capturing {
            c.capture_begun()
        } else {
            c.capture_ended()
        },
        Event::ResetMisses => CacheView { capture_misses: Map::empty(), ..c },
        Event::Prewarmed(bytes, ptrs) => c.installed(bytes, ptrs),
    }
}

/// The state after a row of events.
pub open spec fn history(c: CacheView, events: Seq<Event>) -> CacheView
    decreases events.len(),
{
    if events.len() == 0 {
        c
    } else {
        happens(history(c, events.drop_last()), events.last())
    }
}

/// An event is an allocation that asks the cache while capturing and is not served.
pub open spec fn is_capture_miss(c: CacheView, event: Event) -> bool {
    event matches Event::Alloc(bytes) && c.consults(bytes) && c.capturing && !c.serves(bytes)
}

/// How many capture misses lie behind the last reset of the ledger.
pub open spec fn misses_since_reset(c: CacheView, events: Seq<Event>) -> nat
    decreases events.len(),
{
    if events.len() == 0 {
        0
    } else if events.last() is ResetMisses {
        0
    } else {
        misses_since_reset(c, events.drop_last()) + if is_capture_miss(
            history(c, events.drop_last()),
            events.last(),
        ) {
            1nat
        } else {
            0nat
        }
    }
}

/// How many capture misses of size `b` lie behind the last reset of the ledger.
pub open spec fn misses_since_reset_at(c: CacheView, events: Seq<Event>, b: usize) -> nat
    decreases events.len(),
{
    if events.len() == 0 {
        0
    } else if events.last() is ResetMisses {
        0
    } else {
        misses_since_reset_at(c, events.drop_last(), b) + if is_capture_miss(
            history(c, events.drop_last()),
            events.last(),
        ) && events.last() == Event::Alloc(b) {
            1nat
        } else {
            0nat
        }
    }
}

/// One event keeps the allocator of a device well formed.
proof fn lemma_happens(c: CacheView, event: Event)
    requires
        c.owned_wf(),
        c.tick < u64::MAX,
    ensures
        happens(c, event).owned_wf(),
        happens(c, event).tick <= c.tick + 1,
{
    match event {
        Event::Alloc(bytes) => {
            c.lemma_taken(bytes);
            ladder::law_ladder_is_bounded(bytes as nat);
        },
        Event::Free(bytes, ptr) => {
            c.lemma_filed(bytes, ptr);
            c.filed(bytes, ptr).lemma_swept();
        },
        Event::Enable(_) | Event::Drain => {
            c.lemma_emptied();
        },
        Event::Capacity(capacity) => {
            (CacheView { capacity, ..c }).lemma_swept();
        },
        Event::Capture(capturing) => {
            if capturing {
                assert(c.capture_begun().window.dom() =~= Set::empty());
            } else {
                let off = CacheView { capturing: false, ..c };
                off.lemma_folded();
                off.folded().lemma_released();
            }
        },
        Event::ResetMisses => {
            let after = happens(c, event);
            assert(after.capture_misses.dom() =~= Set::empty());
        },
        Event::Prewarmed(bytes, ptrs) => {
            c.lemma_installed(bytes, ptrs);
        },
    }
}

/// Over its whole life, for as long as the clock lasts, the allocator of a device
/// stays well formed: the counters agree with what is held, buffers are parked only
/// while capturing, no size zero is recorded, and the ledger lists no size without a
/// miss.
pub proof fn law_a_device_stays_well_formed(c: CacheView, events: Seq<Event>)
    requires
        c.owned_wf(),
        c.tick + events.len() <= u64::MAX,
    ensures
        history(c, events).owned_wf(),
        history(c, events).tick <= c.tick + events.len(),
    decreases events.len(),
{
    if events.len() > 0 {
        law_a_device_stays_well_formed(c, events.drop_last());
        lemma_happens(history(c, events.drop_last()), events.last());
    }
}

/// The ledger is what its name says. From an empty ledger on, whatever happens,
/// switches of the capture mode, drains and misses outside a capture included, it
/// holds exactly the requests that missed while capturing since the last reset, in
/// all and at each size, and it lists exactly the sizes that did.
pub proof fn law_the_ledger_is_the_capture_misses_since_the_reset(
    c: CacheView,
    events: Seq<Event>,
    b: usize,
)
    requires
        c.owned_wf(),
        c.tick + events.len() <= u64::MAX,
        c.capture_misses == Map::<usize, nat>::empty(),
    ensures
        ({
            let ledger = history(c, events).capture_misses;
            &&& tally::total(ledger) == misses_since_reset(c, events)
            &&& tally::count_of(ledger, b) == misses_since_reset_at(c, events, b)
            &&& ledger.contains_key(b) <==> misses_since_reset_at(c, events, b) >= 1
        }),
    decreases events.len(),
{
    law_a_device_stays_well_formed(c, events);
    if events.len() == 0 {
        assert(c.capture_misses.dom() =~= Set::empty());
    } else {
        let init = events.drop_last();
        let before = history(c, init);
        law_the_ledger_is_the_capture_misses_since_the_reset(c, init, b);
        law_a_device_stays_well_formed(c, init);
        match events.last() {
            Event::Alloc(bytes) => {
                tally::lemma_total_bumped(before.capture_misses, bytes);
            },
            Event::ResetMisses => {
                assert(history(c, events).capture_misses.dom() =~= Set::empty());
            },
            _ => {},
        }
    }
}

} // verus!
