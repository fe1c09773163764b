//! Every operation keeps the allocator well formed.
use crate::lru;
use crate::lru::ClassView;
use crate::model;
use crate::model::CacheView;
use crate::tally;
use vstd::prelude::*;

verus! {

/// Writing one stack moves the sums by the difference.
pub proof fn lemma_stack_written(free: Map<usize, ClassView>, b: usize, c: ClassView)
    requires
        free.dom().finite(),
    ensures
        tally::total(model::class_bytes(free.insert(b, c))) + b as nat * model::stack_at(
            free,
            b,
        ).len() == tally::total(model::class_bytes(free)) + b as nat * c.ptrs.len(),
        tally::total(model::class_lens(free.insert(b, c))) + model::stack_at(free, b).len()
            == tally::total(model::class_lens(free)) + c.ptrs.len(),
{
    let mb = model::class_bytes(free);
    let ml = model::class_lens(free);
    assert(mb.dom() =~= free.dom());
    assert(ml.dom() =~= free.dom());
    assert(model::class_bytes(free.insert(b, c)) =~= mb.insert(b, b as nat * c.ptrs.len()));
    assert(model::class_lens(free.insert(b, c)) =~= ml.insert(b, c.ptrs.len()));
    tally::lemma_total_insert(mb, b, b as nat * c.ptrs.len());
    tally::lemma_total_insert(ml, b, c.ptrs.len());
    if free.contains_key(b) {
        tally::lemma_total_remove(mb, b);
        tally::lemma_total_remove(ml, b);
    } else {
        assert(mb.remove(b) =~= mb);
        assert(ml.remove(b) =~= ml);
        assert(b as nat * model::stack_at(free, b).len() == 0) by (nonlinear_arith)
            requires
                model::stack_at(free, b).len() == 0,
        ;
    }
}

/// Dropping one size takes its stack out of the sums.
proof fn lemma_stack_dropped(free: Map<usize, ClassView>, b: usize)
    requires
        free.dom().finite(),
        free.contains_key(b),
    ensures
        tally::total(model::class_bytes(free.remove(b))) + b as nat * free[b].ptrs.len()
            == tally::total(model::class_bytes(free)),
        tally::total(model::class_lens(free.remove(b))) + free[b].ptrs.len() == tally::total(
            model::class_lens(free),
        ),
{
    let mb = model::class_bytes(free);
    let ml = model::class_lens(free);
    assert(mb.dom() =~= free.dom());
    assert(ml.dom() =~= free.dom());
    assert(model::class_bytes(free.remove(b)) =~= mb.remove(b));
    assert(model::class_lens(free.remove(b)) =~= ml.remove(b));
    tally::lemma_total_remove(mb, b);
    tally::lemma_total_remove(ml, b);
}

/// Dropping the sizes without buffers changes no sum.
proof fn lemma_empties_dropped(free: Map<usize, ClassView>)
    requires
        free.dom().finite(),
    ensures
        tally::total(model::class_bytes(lru::pool_after(free, Seq::empty()))) == tally::total(
            model::class_bytes(free),
        ),
        tally::total(model::class_lens(lru::pool_after(free, Seq::empty()))) == tally::total(
            model::class_lens(free),
        ),
        lru::pool_after(free, Seq::empty()).dom().finite(),
{
    let f1 = lru::pool_after(free, Seq::empty());
    let s = f1.dom();
    let mb = model::class_bytes(free);
    let ml = model::class_lens(free);
    assert(s =~= free.dom().filter(|b: usize| free[b].ptrs.len() > 0));
    assert(mb.dom() =~= free.dom());
    assert(ml.dom() =~= free.dom());
    assert(model::class_bytes(f1) =~= mb.restrict(s));
    assert(model::class_lens(f1) =~= ml.restrict(s));
    assert forall|k: usize| mb.contains_key(k) && !s.contains(k) implies mb[k] == 0 by {
        assert(k as nat * 0 == 0) by (nonlinear_arith);
    }
    tally::lemma_total_restrict_eq(mb, s);
    tally::lemma_total_restrict_eq(ml, s);
}

/// Giving back a prefix of the queue takes exactly those buffers out of the pool.
pub proof fn lemma_pool_after(free: Map<usize, ClassView>, sizes: Seq<usize>, n: int)
    requires
        free.dom().finite(),
        lru::is_lru_order(free, sizes),
        0 <= n <= lru::queue_of(free, sizes).len(),
    ensures
        ({
            let gone = lru::queue_of(free, sizes).take(n);
            let left = lru::pool_after(free, gone);
            &&& left.dom().finite()
            &&& tally::total(model::class_bytes(left)) + lru::bytes_in(gone) == tally::total(
                model::class_bytes(free),
            )
            &&& tally::total(model::class_lens(left)) + n == tally::total(model::class_lens(free))
            &&& forall|b: usize|
                free.contains_key(b) ==> #[trigger] lru::number_at(gone, b)
                    <= free[b].ptrs.len()
            &&& forall|b: usize, p: u64| #[trigger]
                model::stack_at(left, b).to_multiset().count(p) + gone.to_multiset().count((b, p))
                    == model::stack_at(free, b).to_multiset().count(p)
        }),
    decreases n,
{
    broadcast use vstd::seq_lib::group_to_multiset_ensures;

    let q = lru::queue_of(free, sizes);
    lru::lemma_order_distinct(free, sizes);
    if n == 0 {
        assert(q.take(0) =~= Seq::empty());
        lemma_empties_dropped(free);
        let left = lru::pool_after(free, Seq::empty());
        assert forall|b: usize, p: u64| #[trigger]
            model::stack_at(left, b).to_multiset().count(p) + q.take(0).to_multiset().count(
                (b, p),
            ) == model::stack_at(free, b).to_multiset().count(p) by {
            assert(model::stack_at(left, b) =~= model::stack_at(free, b));
            assert(!q.take(0).contains((b, p)));
        }
    } else {
        lemma_pool_after(free, sizes, n - 1);
        lru::lemma_queue_next(free, sizes, n - 1);
        lru::lemma_take_push(q, n - 1);
        let g0 = q.take(n - 1);
        let g1 = q.take(n);
        let left0 = lru::pool_after(free, g0);
        let left1 = lru::pool_after(free, g1);
        let (b, p) = q[n - 1];
        let m = lru::number_at(g0, b);
        let len = free[b].ptrs.len();
        let c0 = left0[b];
        assert(lru::stocked(free, b));
        assert(left0.contains_key(b));
        assert(c0.ptrs.len() == len - m);
        let c1 = ClassView { ptrs: c0.ptrs.drop_last(), tick: c0.tick };
        assert(c0.ptrs.last() == p);
        assert(c1.ptrs =~= free[b].ptrs.take(len - m - 1));
        lemma_stack_written(left0, b, c1);
        if m + 1 < len {
            assert(left1 =~= left0.insert(b, c1));
        } else {
            assert(left1 =~= left0.remove(b));
            assert(left1 =~= left0.insert(b, c1).remove(b));
            lemma_stack_dropped(left0.insert(b, c1), b);
            assert(b as nat * 0 == 0) by (nonlinear_arith);
        }
        assert(b as nat * c0.ptrs.len() == b as nat * c1.ptrs.len() + b) by (nonlinear_arith)
            requires
                c0.ptrs.len() == c1.ptrs.len() + 1,
        ;
        assert forall|x: usize| free.contains_key(x) implies #[trigger] lru::number_at(g1, x)
            <= free[x].ptrs.len() by {
            assert(lru::number_at(g0, x) <= free[x].ptrs.len());
        }
        assert(c0.ptrs =~= c1.ptrs.push(p));
        assert forall|x: usize, y: u64| #[trigger]
            model::stack_at(left1, x).to_multiset().count(y) + g1.to_multiset().count((x, y))
                == model::stack_at(free, x).to_multiset().count(y) by {
            assert(model::stack_at(left0, x).to_multiset().count(y) + g0.to_multiset().count(
                (x, y),
            ) == model::stack_at(free, x).to_multiset().count(y));
            assert(g1.to_multiset() =~= g0.to_multiset().insert((b, p)));
            if x == b {
                assert(model::stack_at(left1, x) =~= c1.ptrs);
                assert(c0.ptrs.to_multiset() =~= c1.ptrs.to_multiset().insert(p));
            } else {
                assert(model::stack_at(left1, x) =~= model::stack_at(left0, x));
            }
        }
    }
}

/// One parked buffer more is one more push.
pub proof fn lemma_pool_with_push(
    free: Map<usize, ClassView>,
    parked: Seq<(usize, u64)>,
    tick: u64,
    buf: (usize, u64),
)
    ensures
        model::pool_with(free, parked.push(buf), tick) == model::pool_with(
            free,
            parked,
            tick,
        ).insert(
            buf.0,
            ClassView {
                ptrs: model::stack_at(model::pool_with(free, parked, tick), buf.0).push(buf.1),
                tick,
            },
        ),
{
    let p1 = parked.push(buf);
    let before = model::pool_with(free, parked, tick);
    let after = model::pool_with(free, p1, tick);
    assert(p1.drop_last() =~= parked);
    assert(model::parked_at(p1, buf.0) == model::parked_at(parked, buf.0).push(buf.1));
    assert forall|b: usize| b != buf.0 implies model::parked_at(p1, b) == model::parked_at(
        parked,
        b,
    ) by {}
    let stack = model::stack_at(before, buf.0);
    assert(stack =~= model::stack_at(free, buf.0) + model::parked_at(parked, buf.0));
    assert(model::stack_at(free, buf.0) + model::parked_at(p1, buf.0) =~= stack.push(buf.1));
    assert(after =~= before.insert(buf.0, ClassView { ptrs: stack.push(buf.1), tick }));
}

/// Moving the parked buffers into the pool moves their bytes with them, and
/// keeps how often each buffer is held.
pub proof fn lemma_pool_with(free: Map<usize, ClassView>, parked: Seq<(usize, u64)>, tick: u64)
    requires
        free.dom().finite(),
    ensures
        ({
            let after = model::pool_with(free, parked, tick);
            &&& after.dom().finite()
            &&& tally::total(model::class_bytes(after)) == tally::total(model::class_bytes(free))
                + lru::bytes_in(parked)
            &&& tally::total(model::class_lens(after)) == tally::total(model::class_lens(free))
                + parked.len()
            &&& forall|b: usize, p: u64| #[trigger]
                model::stack_at(after, b).to_multiset().count(p) == model::stack_at(
                    free,
                    b,
                ).to_multiset().count(p) + parked.to_multiset().count((b, p))
        }),
    decreases parked.len(),
{
    broadcast use vstd::seq_lib::group_to_multiset_ensures;

    let after = model::pool_with(free, parked, tick);
    if parked.len() == 0 {
        assert(after =~= free);
        assert forall|b: usize, p: u64| #[trigger]
            model::stack_at(after, b).to_multiset().count(p) == model::stack_at(
                free,
                b,
            ).to_multiset().count(p) + parked.to_multiset().count((b, p)) by {
            assert(!parked.contains((b, p)));
        }
    } else {
        let init = parked.drop_last();
        let buf = parked.last();
        assert(parked =~= init.push(buf));
        lemma_pool_with(free, init, tick);
        lemma_pool_with_push(free, init, tick, buf);
        let before = model::pool_with(free, init, tick);
        let stack = model::stack_at(before, buf.0);
        let c = ClassView { ptrs: stack.push(buf.1), tick };
        lemma_stack_written(before, buf.0, c);
        assert(buf.0 as nat * c.ptrs.len() == buf.0 as nat * stack.len() + buf.0)
            by (nonlinear_arith)
            requires
                c.ptrs.len() == stack.len() + 1,
        ;
        assert(parked.to_multiset() =~= init.to_multiset().insert(buf));
        assert forall|b: usize, p: u64| #[trigger]
            model::stack_at(after, b).to_multiset().count(p) == model::stack_at(
                free,
                b,
            ).to_multiset().count(p) + parked.to_multiset().count((b, p)) by {
            assert(model::stack_at(before, b).to_multiset().count(p) == model::stack_at(
                free,
                b,
            ).to_multiset().count(p) + init.to_multiset().count((b, p)));
            if b == buf.0 {
                assert(model::stack_at(after, b) == stack.push(buf.1));
                assert(stack.push(buf.1).to_multiset() =~= stack.to_multiset().insert(buf.1));
            } else {
                assert(model::stack_at(after, b) == model::stack_at(before, b));
            }
        }
    }
}

/// Listing the stacks along an enumeration of the sizes lists every free buffer.
pub proof fn lemma_stacks_len(free: Map<usize, ClassView>, sizes: Seq<usize>, i: int)
    requires
        free.dom().finite(),
        tally::enumerates(sizes, free.dom()),
        0 <= i <= sizes.len(),
    ensures
        model::stacks_of(free, sizes.take(i)).len() == tally::total(
            model::class_lens(free).restrict(sizes.take(i).to_set()),
        ),
        i == sizes.len() ==> model::stacks_of(free, sizes).len() == tally::total(
            model::class_lens(free),
        ),
    decreases i,
{
    let ml = model::class_lens(free);
    assert(ml.dom() =~= free.dom());
    if i == 0 {
        assert(sizes.take(0) =~= Seq::empty());
        assert(ml.restrict(sizes.take(0).to_set()).dom() =~= Set::empty());
    } else {
        lemma_stacks_len(free, sizes, i - 1);
        tally::lemma_total_step(ml, sizes, i - 1);
        assert(sizes.take(i).drop_last() =~= sizes.take(i - 1));
        assert(sizes.take(i).last() == sizes[i - 1]);
        assert(sizes.contains(sizes[i - 1]));
    }
    if i == sizes.len() {
        assert(sizes.take(i) =~= sizes);
        assert(ml.restrict(sizes.to_set()) =~= ml);
    }
}

/// A size holds no more than the whole pool does.
pub proof fn lemma_stack_within(free: Map<usize, ClassView>, b: usize)
    requires
        free.dom().finite(),
    ensures
        b as nat * model::stack_at(free, b).len() <= tally::total(model::class_bytes(free)),
        model::stack_at(free, b).len() <= tally::total(model::class_lens(free)),
{
    if free.contains_key(b) {
        assert(model::class_bytes(free).dom() =~= free.dom());
        assert(model::class_lens(free).dom() =~= free.dom());
        tally::lemma_total_remove(model::class_bytes(free), b);
        tally::lemma_total_remove(model::class_lens(free), b);
    } else {
        assert(b as nat * 0 == 0) by (nonlinear_arith);
    }
}

impl CacheView {
    /// A fresh allocator is well formed.
    pub proof fn lemma_fresh(capacity: usize)
        ensures
            CacheView::fresh(capacity).wf(),
    {
        let c = CacheView::fresh(capacity);
        assert(model::class_bytes(c.free).dom() =~= Set::empty());
        assert(model::class_lens(c.free).dom() =~= Set::empty());
    }

    /// A request keeps the allocator well formed.
    pub proof fn lemma_taken(self, bytes: usize)
        requires
            self.wf(),
            self.tick < u64::MAX,
        ensures
            self.taken(bytes).wf(),
            self.serves(bytes) ==> self.cached_bytes >= bytes && self.cached_buffers >= 1,
    {
        let after = self.taken(bytes);
        tally::lemma_total_bumped(self.window, bytes);
        tally::lemma_total_bumped(self.capture_misses, bytes);
        if self.serves(bytes) {
            let s = self.free[bytes].ptrs;
            lemma_stack_within(self.free, bytes);
            lemma_stack_written(self.free, bytes, after.free[bytes]);
            assert(bytes as nat * s.len() == bytes as nat * s.drop_last().len() + bytes)
                by (nonlinear_arith)
                requires
                    s.len() == s.drop_last().len() + 1,
            ;
            assert(bytes as nat * s.drop_last().len() >= 0) by (nonlinear_arith);
        }
    }

    /// Filing a freed buffer keeps the allocator well formed.
    pub proof fn lemma_filed(self, bytes: usize, ptr: u64)
        requires
            self.wf(),
            self.tick < u64::MAX,
        ensures
            self.filed(bytes, ptr).wf(),
    {
        let after = self.filed(bytes, ptr);
        if self.capturing {
            assert(after.deferred.drop_last() =~= self.deferred);
        } else {
            let s = model::stack_at(self.free, bytes);
            lemma_stack_written(self.free, bytes, after.free[bytes]);
            assert(bytes as nat * s.push(ptr).len() == bytes as nat * s.len() + bytes)
                by (nonlinear_arith)
                requires
                    s.push(ptr).len() == s.len() + 1,
            ;
        }
    }

    /// Giving back the front of the queue keeps the allocator well formed.
    pub proof fn lemma_without(self, sizes: Seq<usize>, n: int)
        requires
            self.wf(),
            lru::is_lru_order(self.free, sizes),
            0 <= n <= lru::queue_of(self.free, sizes).len(),
        ensures
            self.without(lru::queue_of(self.free, sizes).take(n)).wf(),
            lru::bytes_in(lru::queue_of(self.free, sizes).take(n)) <= self.cached_bytes,
            n <= self.cached_buffers,
    {
        let gone = lru::queue_of(self.free, sizes).take(n);
        lemma_pool_after(self.free, sizes, n);
        lru::lemma_number_within_le(gone, self.demand.dom());
    }

    /// A sweep keeps the allocator well formed.
    pub proof fn lemma_swept(self)
        requires
            self.wf(),
        ensures
            self.swept().wf(),
            lru::bytes_in(self.victims()) <= self.cached_bytes,
            self.victims().len() <= self.cached_buffers,
    {
        if self.over_capacity() {
            lru::lemma_lru_order(self.free);
            let q = lru::eviction_queue(self.free);
            assert(q.skip(0) =~= q);
            lru::lemma_excess_step(q, 0, self.cached_bytes as int, self.low_water() as int);
            let n = lru::excess_len(q, self.cached_bytes as int, self.low_water() as int);
            self.lemma_without(lru::lru_order(self.free), n as int);
        }
    }

    /// Room for giving everything back is room for any put.
    pub proof fn lemma_put_room(self, bytes: usize, ptr: u64)
        requires
            self.wf(),
            self.put_room(bytes),
        ensures
            self.put_fits(bytes, ptr),
    {
        self.lemma_filed(bytes, ptr);
        self.filed(bytes, ptr).lemma_swept();
    }

    /// A drain keeps the allocator well formed.
    pub proof fn lemma_emptied(self)
        requires
            self.wf(),
        ensures
            self.emptied().wf(),
    {
        let after = self.emptied();
        assert(model::class_bytes(after.free).dom() =~= Set::empty());
        assert(model::class_lens(after.free).dom() =~= Set::empty());
    }

    /// Closing a window keeps the allocator well formed.
    pub proof fn lemma_folded(self)
        requires
            self.wf(),
        ensures
            self.folded().wf(),
    {
        assert(self.folded().demand.dom() =~= self.demand.dom().union(self.window.dom()));
    }

    /// A pre-warm keeps the allocator well formed.
    pub proof fn lemma_installed(self, bytes: usize, ptrs: Seq<u64>)
        requires
            self.wf(),
            self.tick < u64::MAX,
        ensures
            self.installed(bytes, ptrs).wf(),
    {
        let after = self.installed(bytes, ptrs);
        if ptrs.len() > 0 {
            let s = model::stack_at(self.free, bytes);
            lemma_stack_written(self.free, bytes, after.free[bytes]);
            assert(bytes as nat * (s + ptrs).len() == bytes as nat * s.len() + bytes as nat
                * ptrs.len()) by (nonlinear_arith)
                requires
                    (s + ptrs).len() == s.len() + ptrs.len(),
            ;
        }
    }

    /// Leaving capture mode keeps the allocator well formed.
    pub proof fn lemma_released(self)
        requires
            self.wf(),
            self.tick < u64::MAX,
        ensures
            self.released().wf(),
    {
        lemma_pool_with(self.free, self.deferred, (self.tick + 1) as u64);
    }
}

} // verus!
