//! What holds of the capture protocol: warm passes, pre-warm, capture.
use crate::device::PrewarmTally;
use crate::laws;
use crate::model;
use crate::model::CacheView;
use crate::tally;
use crate::traffic;
use crate::traffic::Step;
use vstd::prelude::*;

verus! {

/// Entering capture mode moves no buffer and starts an empty window.
pub proof fn law_entering_capture_mode(c: CacheView, b: usize, p: u64)
    requires
        c.wf(),
    ensures
        c.capture_begun().wf(),
        c.capture_begun().capturing,
        c.capture_begun().held(b, p) == c.held(b, p),
        tally::count_of(c.capture_begun().window, b) == 0,
        c.capture_begun().demand == c.demand,
        c.capture_begun().capture_misses == c.capture_misses,
{
    assert(c.capture_begun().window.dom() =~= Set::empty());
}

/// Leaving capture mode returns every parked buffer to the pool and gives none
/// back, folds the window into the profile, and leaves the miss ledger alone.
pub proof fn law_leaving_capture_mode(c: CacheView, b: usize, p: u64)
    requires
        c.wf(),
        c.tick < u64::MAX,
    ensures
        ({
            let end = c.capture_ended();
            &&& end.wf()
            &&& !end.capturing
            &&& end.deferred.len() == 0
            &&& end.held(b, p) == c.held(b, p)
            &&& model::stack_at(end.free, b) == model::stack_at(c.free, b) + model::parked_at(
                c.deferred,
                b,
            )
            &&& end.cached_bytes == c.cached_bytes
            &&& end.cached_buffers == c.cached_buffers
            &&& end.evicted == c.evicted
            &&& end.drained == c.drained
            &&& tally::count_of(end.demand, b) == model::larger(
                tally::count_of(c.demand, b),
                tally::count_of(c.window, b),
            )
            &&& tally::count_of(end.window, b) == 0
            &&& end.capture_misses == c.capture_misses
        }),
{
    let off = CacheView { capturing: false, ..c };
    off.lemma_folded();
    off.folded().lemma_released();
    laws::law_the_end_of_a_capture_conserves_buffers(off.folded(), b, p);
    let end = c.capture_ended();
    if !end.free.contains_key(b) {
        assert(model::stack_at(c.free, b) + model::parked_at(c.deferred, b) =~= Seq::empty());
    }
}

/// What a capture has put aside cannot be served before it ends, and can be
/// served afterwards.
pub proof fn law_parked_buffers_wait_for_the_end(c: CacheView, bytes: usize, ptr: u64)
    requires
        c.wf(),
        c.capturing,
        c.tick + 1 < u64::MAX,
    ensures
        c.filed(bytes, ptr).swept().answer(bytes) == c.answer(bytes),
        c.filed(bytes, ptr).victims().len() == 0,
        c.filed(bytes, ptr).swept().capture_ended().answer(bytes) == Some(ptr),
{
    let f = c.filed(bytes, ptr);
    c.lemma_filed(bytes, ptr);
    assert(f.swept() == f);
    law_leaving_capture_mode(f, bytes, ptr);
    assert(f.deferred.drop_last() =~= c.deferred);
    let end = f.capture_ended();
    let stack = model::stack_at(end.free, bytes);
    assert(stack == model::stack_at(f.free, bytes) + model::parked_at(f.deferred, bytes));
    assert(stack.last() == ptr);
}

/// The tally after the first `n` lines of a pre-warm have been filed, line `i` with
/// the buffers `bufs[i]`.
pub open spec fn tallied(bufs: Seq<Seq<u64>>, n: nat) -> PrewarmTally
    decreases n,
{
    if n == 0 {
        PrewarmTally { sizes: 0, buffers: 0 }
    } else {
        tallied(bufs, (n - 1) as nat).with_line(bufs[n - 1].len())
    }
}

/// A pre-warm reports what it did: once every line of a plan has been filed, its
/// tally is the number of lines and the number of buffers that the plan asked for.
pub proof fn law_the_tally_is_the_plan(plan: Seq<(usize, usize)>, bufs: Seq<Seq<u64>>)
    requires
        traffic::supplies(plan, bufs),
        plan.len() <= usize::MAX,
        traffic::planned(plan) <= usize::MAX,
    ensures
        tallied(bufs, plan.len()).sizes == plan.len(),
        tallied(bufs, plan.len()).buffers == traffic::planned(plan),
    decreases plan.len(),
{
    if plan.len() > 0 {
        let init = plan.drop_last();
        assert forall|i: int| 0 <= i < init.len() implies (#[trigger] bufs[i]).len()
            == init[i].1 by {
            assert(bufs[i].len() == plan[i].1);
        }
        law_the_tally_is_the_plan(init, bufs);
        assert(bufs[plan.len() - 1].len() == plan[plan.len() - 1].1);
    }
}

/// A pre-warm inside a capture window warms nothing: nothing is filed, the state
/// stays as it is, and a request that missed before it still misses.
pub proof fn law_a_prewarm_inside_a_capture_warms_nothing(
    c: CacheView,
    slack: usize,
    plan: Seq<(usize, usize)>,
    bufs: Seq<Seq<u64>>,
    bytes: usize,
)
    requires
        c.capturing,
        c.is_prewarm(slack, plan),
    ensures
        traffic::topped_up(c, plan, bufs) == c,
        traffic::topped_up(c, plan, bufs).answer(bytes) == c.answer(bytes),
        tallied(bufs, plan.len()) == (PrewarmTally { sizes: 0, buffers: 0 }),
{
}

/// The protocol as a whole: run the forward once in capture mode, pre-warm from
/// the profile, clear the ledger, and run the same forward again in capture mode.
/// Then the second run is served from the pool alone, the ledger stays empty, and
/// no buffer is handed back.
pub proof fn law_the_capture_protocol_never_misses(
    c: CacheView,
    steps: Seq<Step>,
    slack: usize,
    plan: Seq<(usize, usize)>,
    bufs: Seq<Seq<u64>>,
)
    requires
        c.wf(),
        traffic::takes_at(steps, 0) == 0,
        c.tick + 2 * steps.len() + 1 + plan.len() <= u64::MAX,
        traffic::run(c.capture_begun(), steps).capture_ended().is_plan(slack, plan),
        traffic::supplies(plan, bufs),
    ensures
        ({
            let warmed = traffic::run(c.capture_begun(), steps).capture_ended();
            let ready = CacheView {
                capture_misses: Map::empty(),
                ..traffic::topped_up(warmed, plan, bufs)
            };
            let end = traffic::run(ready.capture_begun(), steps);
            &&& end.capture_misses == Map::<usize, nat>::empty()
            &&& tally::total(end.capture_misses) == 0
            &&& end.misses == ready.misses
            &&& end.hits == ready.hits + traffic::takes_in(steps)
            &&& traffic::served(ready.capture_begun(), steps).len() == traffic::takes_in(steps)
            &&& traffic::handed_back(ready.capture_begun(), steps).len() == 0
        }),
{
    let first = c.capture_begun();
    law_entering_capture_mode(c, 0, 0);
    traffic::law_traffic_keeps_the_allocator_well_formed(first, steps);
    let recorded = traffic::run(first, steps);
    law_leaving_capture_mode(recorded, 0, 0);
    let warmed = recorded.capture_ended();
    traffic::lemma_topped_up_wf(warmed, plan, bufs);
    let ready = CacheView {
        capture_misses: Map::empty(),
        ..traffic::topped_up(warmed, plan, bufs)
    };
    assert(ready.capture_misses.dom() =~= Set::empty());
    assert(tally::total(ready.capture_misses) == 0);
    assert(ready.wf());
    law_entering_capture_mode(ready, 0, 0);
    let start = ready.capture_begun();
    assert forall|b: usize| #[trigger] traffic::takes_at(steps, b) <= model::stack_at(
        start.free,
        b,
    ).len() by {
        if traffic::takes_at(steps, b) > 0 {
            law_entering_capture_mode(c, b, 0);
            traffic::law_the_window_counts_every_request(first, steps, b);
            law_leaving_capture_mode(recorded, b, 0);
            traffic::law_a_prewarm_covers_the_profile(warmed, slack, plan, bufs, b);
        }
    }
    traffic::law_a_stocked_capture_never_misses(start, steps);
    traffic::law_a_capture_serves_each_buffer_once(start, steps, 0, 0);
}

} // verus!
