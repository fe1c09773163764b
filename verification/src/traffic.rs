//! What holds over a run of requests and frees, inside a capture and outside.
use crate::laws;
use crate::lru;
use crate::model;
use crate::model::CacheView;
use crate::retention;
use crate::tally;
use vstd::prelude::*;

verus! {

/// One thing that happens to the allocator.
pub enum Step {
    /// A request for a buffer of so many bytes.
    Take(usize),
    /// A freed buffer: its size and its address.
    Put(usize, u64),
}

/// The state after one step.
pub open spec fn after(c: CacheView, step: Step) -> CacheView {
    match step {
        Step::Take(bytes) => c.taken(bytes),
        Step::Put(bytes, ptr) => c.filed(bytes, ptr).swept(),
    }
}

/// The state after a run.
pub open spec fn run(c: CacheView, steps: Seq<Step>) -> CacheView
    decreases steps.len(),
{
    if steps.len() == 0 {
        c
    } else {
        after(run(c, steps.drop_last()), steps.last())
    }
}

/// The buffers that a run is served, in order.
pub open spec fn served(c: CacheView, steps: Seq<Step>) -> Seq<(usize, u64)>
    decreases steps.len(),
{
    if steps.len() == 0 {
        Seq::empty()
    } else {
        let before = served(c, steps.drop_last());
        match steps.last() {
            Step::Take(bytes) => match run(c, steps.drop_last()).answer(bytes) {
                Some(ptr) => before.push((bytes, ptr)),
                None => before,
            },
            Step::Put(_, _) => before,
        }
    }
}

/// The buffers that a run hands back to the driver, in order.
pub open spec fn handed_back(c: CacheView, steps: Seq<Step>) -> Seq<(usize, u64)>
    decreases steps.len(),
{
    if steps.len() == 0 {
        Seq::empty()
    } else {
        let before = handed_back(c, steps.drop_last());
        match steps.last() {
            Step::Take(_) => before,
            Step::Put(bytes, ptr) => before + run(c, steps.drop_last()).filed(
                bytes,
                ptr,
            ).victims(),
        }
    }
}

/// The buffers that a run frees into the allocator, in order.
pub open spec fn freed(steps: Seq<Step>) -> Seq<(usize, u64)>
    decreases steps.len(),
{
    if steps.len() == 0 {
        Seq::empty()
    } else {
        match steps.last() {
            Step::Take(_) => freed(steps.drop_last()),
            Step::Put(bytes, ptr) => freed(steps.drop_last()).push((bytes, ptr)),
        }
    }
}

/// How often a run asks for size `b`.
pub open spec fn takes_at(steps: Seq<Step>, b: usize) -> nat
    decreases steps.len(),
{
    if steps.len() == 0 {
        0
    } else {
        takes_at(steps.drop_last(), b) + match steps.last() {
            Step::Take(bytes) => if bytes == b {
                1nat
            } else {
                0nat
            },
            Step::Put(_, _) => 0nat,
        }
    }
}

/// How often a run asks for a buffer.
pub open spec fn takes_in(steps: Seq<Step>) -> nat
    decreases steps.len(),
{
    if steps.len() == 0 {
        0
    } else {
        takes_in(steps.drop_last()) + match steps.last() {
            Step::Take(_) => 1nat,
            Step::Put(_, _) => 0nat,
        }
    }
}

/// Every run keeps the allocator well formed, for as long as the clock lasts.
pub proof fn law_traffic_keeps_the_allocator_well_formed(c: CacheView, steps: Seq<Step>)
    requires
        c.wf(),
        c.tick + steps.len() <= u64::MAX,
    ensures
        run(c, steps).wf(),
        run(c, steps).tick == c.tick + steps.len(),
        run(c, steps).capturing == c.capturing,
        run(c, steps).capacity == c.capacity,
        run(c, steps).demand == c.demand,
    decreases steps.len(),
{
    if steps.len() > 0 {
        let init = steps.drop_last();
        law_traffic_keeps_the_allocator_well_formed(c, init);
        let before = run(c, init);
        match steps.last() {
            Step::Take(bytes) => {
                before.lemma_taken(bytes);
            },
            Step::Put(bytes, ptr) => {
                before.lemma_filed(bytes, ptr);
                before.filed(bytes, ptr).lemma_swept();
            },
        }
    }
}

/// Over any run every buffer that was held or freed is still held, was served, or
/// was handed back, each exactly once.
pub proof fn law_traffic_conserves_buffers(c: CacheView, steps: Seq<Step>, b: usize, p: u64)
    requires
        c.wf(),
        c.tick + steps.len() <= u64::MAX,
    ensures
        run(c, steps).held(b, p) + served(c, steps).to_multiset().count((b, p)) + handed_back(
            c,
            steps,
        ).to_multiset().count((b, p)) == c.held(b, p) + freed(steps).to_multiset().count((b, p)),
    decreases steps.len(),
{
    broadcast use vstd::seq_lib::group_to_multiset_ensures;

    if steps.len() > 0 {
        let init = steps.drop_last();
        law_traffic_conserves_buffers(c, init, b, p);
        law_traffic_keeps_the_allocator_well_formed(c, init);
        let before = run(c, init);
        match steps.last() {
            Step::Take(bytes) => {
                laws::law_a_request_conserves_buffers(before, bytes, b, p);
            },
            Step::Put(bytes, ptr) => {
                laws::law_a_put_conserves_buffers(before, bytes, ptr, b, p);
                vstd::seq_lib::lemma_multiset_commutative(
                    handed_back(c, init),
                    before.filed(bytes, ptr).victims(),
                );
            },
        }
    }
}

/// Under a cap no run retains more than the cap, and the peak is above it by at
/// most the largest buffer that was freed.
pub proof fn law_capped_traffic_is_bounded(c: CacheView, steps: Seq<Step>, largest: nat)
    requires
        c.wf(),
        c.tick + steps.len() <= u64::MAX,
        !c.capturing,
        c.deferred.len() == 0,
        c.capacity != usize::MAX,
        c.cached_bytes <= c.capacity,
        c.high_water_bytes <= c.capacity + largest,
        forall|i: int|
            0 <= i < freed(steps).len() ==> (#[trigger] freed(steps)[i]).0 <= largest,
    ensures
        run(c, steps).cached_bytes <= c.capacity,
        run(c, steps).high_water_bytes <= c.capacity + largest,
        run(c, steps).deferred.len() == 0,
    decreases steps.len(),
{
    if steps.len() > 0 {
        let init = steps.drop_last();
        assert forall|i: int| 0 <= i < freed(init).len() implies (#[trigger] freed(init)[i]).0
            <= largest by {
            assert(freed(steps)[i] == freed(init)[i]);
        }
        law_capped_traffic_is_bounded(c, init, largest);
        law_traffic_keeps_the_allocator_well_formed(c, init);
        let before = run(c, init);
        match steps.last() {
            Step::Take(bytes) => {
                before.lemma_taken(bytes);
            },
            Step::Put(bytes, ptr) => {
                assert(freed(steps)[freed(steps).len() - 1] == (bytes, ptr));
                let f = before.filed(bytes, ptr);
                before.lemma_filed(bytes, ptr);
                assert(f.low_water() <= f.capacity);
                if f.over_capacity() {
                    retention::law_a_sweep_is_just_enough(f);
                    assert(lru::bytes_in(f.deferred) == 0);
                }
            },
        }
    }
}

/// The high-water mark is above everything that was ever retained during a run,
/// and it is a value that retention did reach: before the run, or when a freed
/// buffer was taken in.
pub proof fn law_the_high_water_mark_was_reached(c: CacheView, steps: Seq<Step>, i: int)
    requires
        c.wf(),
        c.tick + steps.len() <= u64::MAX,
        0 <= i <= steps.len(),
    ensures
        run(c, steps.take(i)).cached_bytes <= run(c, steps).high_water_bytes,
        run(c, steps).high_water_bytes >= c.high_water_bytes,
        run(c, steps).high_water_bytes == c.high_water_bytes || exists|j: int|
            0 <= j < steps.len() && (#[trigger] steps[j] matches Step::Put(bytes, ptr) && run(
                c,
                steps,
            ).high_water_bytes == run(c, steps.take(j)).filed(bytes, ptr).cached_bytes),
    decreases steps.len(),
{
    law_traffic_keeps_the_allocator_well_formed(c, steps);
    if i == steps.len() {
        assert(steps.take(i) =~= steps);
    }
    if steps.len() > 0 {
        let init = steps.drop_last();
        let n = steps.len() - 1;
        law_traffic_keeps_the_allocator_well_formed(c, init);
        let before = run(c, init);
        if i < steps.len() {
            law_the_high_water_mark_was_reached(c, init, i);
            assert(init.take(i) =~= steps.take(i));
        } else {
            law_the_high_water_mark_was_reached(c, init, n);
        }
        let hw = run(c, steps).high_water_bytes;
        assert(steps.take(n) =~= init);
        assert(steps[n] == steps.last());
        if hw == before.high_water_bytes {
            if hw != c.high_water_bytes {
                let j = choose|j: int|
                    0 <= j < init.len() && (#[trigger] init[j] matches Step::Put(bytes, ptr)
                        && before.high_water_bytes == run(c, init.take(j)).filed(
                        bytes,
                        ptr,
                    ).cached_bytes);
                assert(steps[j] == init[j]);
                assert(init.take(j) =~= steps.take(j));
            }
        }
    }
}

/// Inside a capture nothing that was freed is served again and nothing is handed
/// back: each buffer of the pool is served as often as it is there, so an address
/// that is there once is served once.
pub proof fn law_a_capture_serves_each_buffer_once(
    c: CacheView,
    steps: Seq<Step>,
    b: usize,
    p: u64,
)
    requires
        c.wf(),
        c.tick + steps.len() <= u64::MAX,
        c.capturing,
    ensures
        served(c, steps).to_multiset().count((b, p)) + model::stack_at(
            run(c, steps).free,
            b,
        ).to_multiset().count(p) == model::stack_at(c.free, b).to_multiset().count(p),
        handed_back(c, steps).len() == 0,
        run(c, steps).deferred == c.deferred + freed(steps),
    decreases steps.len(),
{
    broadcast use vstd::seq_lib::group_to_multiset_ensures;

    if steps.len() > 0 {
        let init = steps.drop_last();
        law_a_capture_serves_each_buffer_once(c, init, b, p);
        law_traffic_keeps_the_allocator_well_formed(c, init);
        let before = run(c, init);
        match steps.last() {
            Step::Take(bytes) => {
                if before.serves(bytes) {
                    let s = before.free[bytes].ptrs;
                    assert(s =~= s.drop_last().push(s.last()));
                }
            },
            Step::Put(bytes, ptr) => {
                assert(run(c, steps).deferred =~= c.deferred + freed(steps));
            },
        }
    } else {
        assert(c.deferred + freed(steps) =~= c.deferred);
    }
}

/// A capture window counts every request, hit or miss.
pub proof fn law_the_window_counts_every_request(c: CacheView, steps: Seq<Step>, b: usize)
    requires
        c.wf(),
        c.tick + steps.len() <= u64::MAX,
    ensures
        c.capturing ==> tally::count_of(run(c, steps).window, b) == tally::count_of(c.window, b)
            + takes_at(steps, b),
        !c.capturing ==> run(c, steps).window == c.window,
    decreases steps.len(),
{
    if steps.len() > 0 {
        law_the_window_counts_every_request(c, steps.drop_last(), b);
        law_traffic_keeps_the_allocator_well_formed(c, steps.drop_last());
    }
}

/// A run inside a capture that asks for no size more often than the pool has it
/// never falls through to the driver: every request is a hit and the miss ledger
/// stays as it is.
pub proof fn law_a_stocked_capture_never_misses(c: CacheView, steps: Seq<Step>)
    requires
        c.wf(),
        c.tick + steps.len() <= u64::MAX,
        c.capturing,
        forall|b: usize| #[trigger] takes_at(steps, b) <= model::stack_at(c.free, b).len(),
    ensures
        run(c, steps).misses == c.misses,
        run(c, steps).capture_misses == c.capture_misses,
        run(c, steps).hits == c.hits + takes_in(steps),
        served(c, steps).len() == takes_in(steps),
        forall|b: usize| #[trigger]
            model::stack_at(run(c, steps).free, b).len() == model::stack_at(c.free, b).len()
                - takes_at(steps, b),
    decreases steps.len(),
{
    if steps.len() > 0 {
        let init = steps.drop_last();
        assert forall|b: usize| #[trigger] takes_at(init, b) <= model::stack_at(
            c.free,
            b,
        ).len() by {
            assert(takes_at(steps, b) <= model::stack_at(c.free, b).len());
        }
        law_a_stocked_capture_never_misses(c, init);
        law_traffic_keeps_the_allocator_well_formed(c, init);
        let before = run(c, init);
        match steps.last() {
            Step::Take(bytes) => {
                assert(takes_at(steps, bytes) <= model::stack_at(c.free, bytes).len());
                assert(model::stack_at(before.free, bytes).len() > 0);
                assert(before.serves(bytes));
                assert forall|b: usize| #[trigger] model::stack_at(run(c, steps).free, b).len()
                    == model::stack_at(c.free, b).len() - takes_at(steps, b) by {
                    assert(model::stack_at(before.free, b).len() == model::stack_at(
                        c.free,
                        b,
                    ).len() - takes_at(init, b));
                }
            },
            Step::Put(_, _) => {
                assert forall|b: usize| #[trigger] model::stack_at(run(c, steps).free, b).len()
                    == model::stack_at(c.free, b).len() - takes_at(steps, b) by {
                    assert(model::stack_at(before.free, b).len() == model::stack_at(
                        c.free,
                        b,
                    ).len() - takes_at(init, b));
                }
            },
        }
    }
}

/// A miss is counted in the ledger exactly if it is taken while capturing; the
/// ledger counts each of them, at its own size.
pub proof fn law_the_ledger_counts_capture_misses(c: CacheView, bytes: usize, b: usize)
    requires
        c.wf(),
        c.tick < u64::MAX,
    ensures
        tally::count_of(c.taken(bytes).capture_misses, b) == tally::count_of(c.capture_misses, b)
            + if c.capturing && c.answer(bytes).is_none() && b == bytes {
            1nat
        } else {
            0nat
        },
        tally::total(c.taken(bytes).capture_misses) == tally::total(c.capture_misses)
            + if c.capturing && c.answer(bytes).is_none() {
            1nat
        } else {
            0nat
        },
        c.taken(bytes).misses == c.misses + if c.answer(bytes).is_none() {
            1nat
        } else {
            0nat
        },
{
    tally::lemma_total_bumped(c.capture_misses, bytes);
}

/// Only a request adds to the ledger. Neither a window nor a put, a pre-warm, the
/// end of a capture or a drain touches it.
pub proof fn law_the_ledger_outlives_windows_and_drains(
    c: CacheView,
    bytes: usize,
    ptr: u64,
    ptrs: Seq<u64>,
)
    ensures
        c.folded().capture_misses == c.capture_misses,
        c.released().capture_misses == c.capture_misses,
        c.emptied().capture_misses == c.capture_misses,
        c.installed(bytes, ptrs).capture_misses == c.capture_misses,
        c.filed(bytes, ptr).swept().capture_misses == c.capture_misses,
{
}

/// A drain leaves capture mode and discards the open window, and keeps the
/// profile.
pub proof fn law_a_drain_keeps_the_profile(c: CacheView)
    ensures
        c.emptied().demand == c.demand,
        c.emptied().window == Map::<usize, nat>::empty(),
        !c.emptied().capturing,
{
}

/// Closing a window raises the profile at each size to the window's count where
/// that is larger, forgets no size, and empties the window.
pub proof fn law_windows_fold_by_maximum(c: CacheView, b: usize)
    ensures
        tally::count_of(c.folded().demand, b) == model::larger(
            tally::count_of(c.demand, b),
            tally::count_of(c.window, b),
        ),
        c.folded().demand.contains_key(b) <==> c.demand.contains_key(b) || c.window.contains_key(b),
        c.folded().window == Map::<usize, nat>::empty(),
        c.folded().free == c.free,
{
}

/// A warm pass tells the profile what it needs: after a window that starts empty,
/// the demand of each size is at least what the pass asked for.
pub proof fn law_the_profile_covers_every_warm_pass(c: CacheView, steps: Seq<Step>, b: usize)
    requires
        c.wf(),
        c.tick + steps.len() <= u64::MAX,
        c.capturing,
    ensures
        tally::count_of(run(c, steps).folded().demand, b) >= takes_at(steps, b),
        tally::count_of(run(c, steps).folded().demand, b) >= tally::count_of(c.demand, b),
{
    law_the_window_counts_every_request(c, steps, b);
    law_traffic_keeps_the_allocator_well_formed(c, steps);
}

/// The state after each line of a plan has been filed, the buffers of line `i`
/// being `bufs[i]`.
pub open spec fn topped_up(
    c: CacheView,
    plan: Seq<(usize, usize)>,
    bufs: Seq<Seq<u64>>,
) -> CacheView
    decreases plan.len(),
{
    if plan.len() == 0 {
        c
    } else {
        topped_up(c, plan.drop_last(), bufs).installed(
            plan.last().0,
            bufs[plan.len() - 1],
        )
    }
}

/// `bufs` holds for each line of a plan as many buffers as it asks for.
pub open spec fn supplies(plan: Seq<(usize, usize)>, bufs: Seq<Seq<u64>>) -> bool {
    forall|i: int| 0 <= i < plan.len() ==> (#[trigger] bufs[i]).len() == plan[i].1
}

/// What the first lines of a plan do to each stack, and what they leave alone.
pub proof fn lemma_topped_up(c: CacheView, plan: Seq<(usize, usize)>, bufs: Seq<Seq<u64>>)
    requires
        supplies(plan, bufs),
        forall|i: int, j: int|
            0 <= i < j < plan.len() ==> (#[trigger] plan[i]).0 != (#[trigger] plan[j]).0,
    ensures
        ({
            let end = topped_up(c, plan, bufs);
            &&& end.demand == c.demand
            &&& end.window == c.window
            &&& end.capture_misses == c.capture_misses
            &&& end.hits == c.hits
            &&& end.misses == c.misses
            &&& end.puts == c.puts
            &&& end.evicted == c.evicted
            &&& end.evicted_at_demand_size == c.evicted_at_demand_size
            &&& end.drained == c.drained
            &&& end.deferred == c.deferred
            &&& end.capturing == c.capturing
            &&& end.capacity == c.capacity
            &&& end.prewarmed == c.prewarmed + planned(plan)
            &&& end.cached_buffers == c.cached_buffers + planned(plan)
            &&& end.tick <= c.tick + plan.len()
            &&& forall|i: int|
                0 <= i < plan.len() ==> model::stack_at(end.free, (#[trigger] plan[i]).0).len()
                    == model::stack_at(c.free, plan[i].0).len() + plan[i].1
            &&& forall|b: usize|
                (forall|i: int| 0 <= i < plan.len() ==> (#[trigger] plan[i]).0 != b)
                    ==> #[trigger] model::stack_at(end.free, b) == model::stack_at(c.free, b)
        }),
    decreases plan.len(),
{
    if plan.len() > 0 {
        let init = plan.drop_last();
        assert forall|i: int| 0 <= i < init.len() implies (#[trigger] bufs[i]).len()
            == init[i].1 by {
            assert(bufs[i].len() == plan[i].1);
        }
        assert forall|i: int, j: int| 0 <= i < j < init.len() implies (#[trigger] init[i]).0 != (
        #[trigger] init[j]).0 by {
            assert(plan[i].0 != plan[j].0);
        }
        lemma_topped_up(c, init, bufs);
        let before = topped_up(c, init, bufs);
        let end = topped_up(c, plan, bufs);
        let l = plan.last().0;
        assert(bufs[plan.len() - 1].len() == plan[plan.len() - 1].1);
        assert(forall|i: int| 0 <= i < init.len() ==> (#[trigger] init[i]).0 == plan[i].0
            && plan[i].0 != l);
        assert(model::stack_at(before.free, l) == model::stack_at(c.free, l));
        assert forall|i: int| 0 <= i < plan.len() implies model::stack_at(
            end.free,
            (#[trigger] plan[i]).0,
        ).len() == model::stack_at(c.free, plan[i].0).len() + plan[i].1 by {
            if i < init.len() {
                assert(init[i] == plan[i]);
                assert(model::stack_at(end.free, plan[i].0) == model::stack_at(
                    before.free,
                    plan[i].0,
                ));
            }
        }
        assert forall|b: usize|
            (forall|i: int| 0 <= i < plan.len() ==> (
            #[trigger] plan[i]).0 != b) implies #[trigger] model::stack_at(end.free, b)
            == model::stack_at(c.free, b) by {
            assert(forall|i: int| 0 <= i < init.len() ==> (#[trigger] init[i]).0 != b);
            assert(plan[plan.len() - 1].0 != b);
            assert(model::stack_at(before.free, b) == model::stack_at(c.free, b));
        }
    }
}

/// How many buffers a plan asks for.
pub open spec fn planned(plan: Seq<(usize, usize)>) -> nat
    decreases plan.len(),
{
    if plan.len() == 0 {
        0
    } else {
        planned(plan.drop_last()) + plan.last().1 as nat
    }
}

/// A pre-warm brings every size of the profile up to its demand plus the slack,
/// whatever the cap says: it gives nothing back, it is neither a put nor a miss,
/// and its buffers are counted as pre-warmed.
pub proof fn law_a_prewarm_covers_the_profile(
    c: CacheView,
    slack: usize,
    plan: Seq<(usize, usize)>,
    bufs: Seq<Seq<u64>>,
    b: usize,
)
    requires
        c.wf(),
        c.is_plan(slack, plan),
        supplies(plan, bufs),
    ensures
        ({
            let end = topped_up(c, plan, bufs);
            &&& b > 0 && c.demand.contains_key(b) ==> model::stack_at(end.free, b).len()
                >= c.demand[b] + slack
            &&& model::stack_at(end.free, b).len() >= model::stack_at(c.free, b).len()
            &&& end.demand == c.demand
            &&& end.evicted == c.evicted
            &&& end.drained == c.drained
            &&& end.puts == c.puts
            &&& end.misses == c.misses
            &&& end.prewarmed == c.prewarmed + planned(plan)
        }),
{
    lemma_topped_up(c, plan, bufs);
    let end = topped_up(c, plan, bufs);
    if c.short_of(b, slack) {
        let i = choose|i: int| 0 <= i < plan.len() && (#[trigger] plan[i]).0 == b;
        assert(plan[i].0 == b);
    } else if exists|i: int| 0 <= i < plan.len() && (#[trigger] plan[i]).0 == b {
        let i = choose|i: int| 0 <= i < plan.len() && (#[trigger] plan[i]).0 == b;
        assert(c.short_of(plan[i].0, slack));
    } else {
        assert(model::stack_at(end.free, b) == model::stack_at(c.free, b));
    }
}

/// A second pre-warm finds nothing to do.
pub proof fn law_a_prewarm_is_idempotent(
    c: CacheView,
    slack: usize,
    plan: Seq<(usize, usize)>,
    bufs: Seq<Seq<u64>>,
    again: Seq<(usize, usize)>,
)
    requires
        c.wf(),
        c.is_plan(slack, plan),
        supplies(plan, bufs),
        topped_up(c, plan, bufs).is_plan(slack, again),
    ensures
        again.len() == 0,
{
    let end = topped_up(c, plan, bufs);
    if again.len() > 0 {
        let b = again[0].0;
        assert(end.short_of(again[0].0, slack));
        law_a_prewarm_covers_the_profile(c, slack, plan, bufs, b);
    }
}

/// The capture that the pre-warm was made for never misses: once the pool has
/// been topped up, a captured run that asks for no size more often than the
/// profile and the slack say is served from the pool alone, and leaves the miss
/// ledger empty if it was.
pub proof fn law_a_prewarmed_capture_never_misses(
    c: CacheView,
    slack: usize,
    plan: Seq<(usize, usize)>,
    bufs: Seq<Seq<u64>>,
    steps: Seq<Step>,
)
    requires
        c.wf(),
        c.is_plan(slack, plan),
        supplies(plan, bufs),
        c.tick + plan.len() + steps.len() <= u64::MAX,
        takes_at(steps, 0) == 0,
        forall|b: usize|
            #![trigger takes_at(steps, b)]
            takes_at(steps, b) > 0 ==> c.demand.contains_key(b) && takes_at(steps, b)
                <= c.demand[b] + slack,
    ensures
        ({
            let start = CacheView {
                capturing: true,
                window: Map::empty(),
                ..topped_up(c, plan, bufs)
            };
            &&& run(start, steps).misses == c.misses
            &&& run(start, steps).capture_misses == c.capture_misses
            &&& served(start, steps).len() == takes_in(steps)
        }),
{
    lemma_topped_up(c, plan, bufs);
    let end = topped_up(c, plan, bufs);
    lemma_topped_up_wf(c, plan, bufs);
    let start = CacheView { capturing: true, window: Map::empty(), ..end };
    assert(start.window.dom() =~= Set::empty());
    assert(start.wf());
    assert forall|b: usize| #[trigger] takes_at(steps, b) <= model::stack_at(
        start.free,
        b,
    ).len() by {
        if takes_at(steps, b) > 0 {
            law_a_prewarm_covers_the_profile(c, slack, plan, bufs, b);
        }
    }
    law_a_stocked_capture_never_misses(start, steps);
}

/// Filing a plan keeps the allocator well formed.
pub proof fn lemma_topped_up_wf(c: CacheView, plan: Seq<(usize, usize)>, bufs: Seq<Seq<u64>>)
    requires
        c.wf(),
        c.tick + plan.len() <= u64::MAX,
    ensures
        topped_up(c, plan, bufs).wf(),
        topped_up(c, plan, bufs).tick <= c.tick + plan.len(),
    decreases plan.len(),
{
    if plan.len() > 0 {
        lemma_topped_up_wf(c, plan.drop_last(), bufs);
        topped_up(c, plan.drop_last(), bufs).lemma_installed(
            plan.last().0,
            bufs[plan.len() - 1],
        );
    }
}

} // verus!
