//! The caching allocator.
use crate::lru;
use crate::lru::ClassView;
use crate::model;
use crate::model::CacheView;
use crate::setting;
use crate::sorting;
use crate::stats::AllocCacheStats;
use crate::tally;
use std::collections::{HashMap, HashSet};
use vstd::prelude::*;

verus! {

broadcast use vstd::std_specs::hash::group_hash_axioms;

/// Cached buffers of one exact byte size, plus the recency stamp that orders
/// them for eviction.
struct SizeClass {
    ptrs: Vec<u64>,
    /// Monotonic stamp of the last put or hit at this size. Eviction order.
    tick: u64,
}

impl View for SizeClass {
    type V = ClassView;

    closed spec fn view(&self) -> ClassView {
        ClassView { ptrs: self.ptrs@, tick: self.tick }
    }
}

/// Opt-in caching allocator for graph-capture safety.
///
/// When enabled, freed device buffers are kept instead of being given back to
/// the driver, and an allocation of the same byte size reuses one. Warming the
/// cache then makes a captured forward allocation-free.
///
/// Retention is capped. Crossing the cap gives the least recently used buffers
/// back until retention is under the low-water mark.
///
/// Sizes are matched exactly. The size of a buffer is recomputed on free from
/// the length that the requester was handed, so serving a larger buffer than was
/// asked for would let the recorded size ratchet down while the allocation stays
/// as it is, and the cap would stop bounding anything.
pub struct AllocCache {
    enabled: bool,
    /// While capturing, freed buffers are parked in `deferred`: serving one again
    /// inside the same capture would record two graph uses of one address.
    capturing: bool,
    /// Free buffers, keyed by their exact byte size.
    free: HashMap<usize, SizeClass>,
    /// Buffers freed during capture, parked until capture mode ends.
    deferred: Vec<(usize, u64)>,
    /// Size classes that have missed. A log dedup, not a diagnostic: keyed by
    /// class so that it stays bounded.
    missed: HashSet<usize>,
    /// Allocations of the capture window that is open, hits and misses alike.
    window: HashMap<usize, usize>,
    /// Per size, the largest number of allocations of any window closed so far.
    demand: HashMap<usize, usize>,
    /// Misses taken while capturing, since the last reset. Counted, never deduped.
    capture_misses: HashMap<usize, usize>,
    /// Bytes retained in `free` and `deferred`. Maintained incrementally.
    cached_bytes: usize,
    /// Buffers retained in `free` and `deferred`.
    cached_buffers: usize,
    /// Cap on `cached_bytes`. `usize::MAX` is unbounded.
    capacity: usize,
    /// Monotonic stamp source.
    tick: u64,
    hits: u64,
    misses: u64,
    puts: u64,
    evicted: u64,
    drained: u64,
    /// Buffers installed by a pre-warm: neither puts nor misses.
    prewarmed: u64,
    /// Eviction victims whose byte size is in the demand profile.
    evicted_at_demand_size: u64,
    high_water_bytes: usize,
}

impl View for AllocCache {
    type V = CacheView;

    closed spec fn view(&self) -> CacheView {
        CacheView {
            enabled: self.enabled,
            capturing: self.capturing,
            free: self.free@.map_values(|c: SizeClass| c@),
            deferred: self.deferred@,
            missed: self.missed@,
            window: tally::counts(self.window@),
            demand: tally::counts(self.demand@),
            capture_misses: tally::counts(self.capture_misses@),
            cached_bytes: self.cached_bytes as nat,
            cached_buffers: self.cached_buffers as nat,
            capacity: self.capacity,
            tick: self.tick as nat,
            hits: self.hits as nat,
            misses: self.misses as nat,
            puts: self.puts as nat,
            evicted: self.evicted as nat,
            drained: self.drained as nat,
            prewarmed: self.prewarmed as nat,
            evicted_at_demand_size: self.evicted_at_demand_size as nat,
            high_water_bytes: self.high_water_bytes as nat,
        }
    }
}

impl AllocCache {
    /// An empty allocator that is switched off.
    pub fn new(capacity: usize) -> (cache: Self)
        ensures
            cache@ == CacheView::fresh(capacity),
            cache@.wf(),
    {
        let cache = AllocCache {
            enabled: false,
            capturing: false,
            free: HashMap::new(),
            deferred: Vec::new(),
            missed: HashSet::new(),
            window: HashMap::new(),
            demand: HashMap::new(),
            capture_misses: HashMap::new(),
            cached_bytes: 0,
            cached_buffers: 0,
            capacity,
            tick: 0,
            hits: 0,
            misses: 0,
            puts: 0,
            evicted: 0,
            drained: 0,
            prewarmed: 0,
            evicted_at_demand_size: 0,
            high_water_bytes: 0,
        };
        proof {
            assert(cache@ =~= CacheView::fresh(capacity));
            CacheView::lemma_fresh(capacity);
        }
        cache
    }

    /// An empty allocator that is switched off, with the cap that a setting in
    /// mebibytes stands for.
    pub fn default(max_mb: Option<&str>) -> (cache: Self)
        ensures
            cache@ == CacheView::fresh(setting::cap_of_setting(max_mb)),
            cache@.wf(),
    {
        AllocCache::new(setting::capacity_from_setting(max_mb))
    }

    /// Take a buffer of exactly `bytes` from the cache, or `None`.
    ///
    /// While capturing, the window counts the request, hit or miss, and the
    /// ledger counts a miss.
    pub fn take(&mut self, bytes: usize) -> (hit: Option<u64>)
        requires
            old(self)@.wf(),
            old(self)@.take_fits(bytes),
        ensures
            hit == old(self)@.answer(bytes),
            hit matches Some(ptr) ==> {
                &&& old(self)@.free.contains_key(bytes)
                &&& ptr == old(self)@.free[bytes].ptrs.last()
                &&& forall|b: usize| #[trigger]
                    old(self)@.free.contains_key(b) && b != bytes ==> final(self)@.free[b].tick
                        < final(self)@.free[bytes].tick
            },
            hit.is_none() ==> final(self)@.free == old(self)@.free,
            final(self)@ == old(self)@.taken(bytes),
            final(self)@.wf(),
    {
        proof {
            self@.lemma_taken(bytes);
        }
        self.tick = self.tick + 1;
        if self.capturing {
            tally::bump(&mut self.window, bytes);
        }
        let mut hit: Option<u64> = None;
        if let Some(mut sc) = self.free.remove(&bytes) {
            hit = sc.ptrs.pop();
            if hit.is_some() {
                sc.tick = self.tick;
            }
            self.free.insert(bytes, sc);
        }
        match hit {
            Some(_) => {
                self.cached_bytes = self.cached_bytes - bytes;
                self.cached_buffers = self.cached_buffers - 1;
                self.hits = self.hits + 1;
            },
            None => {
                self.misses = self.misses + 1;
                if self.capturing {
                    tally::bump(&mut self.capture_misses, bytes);
                }
            },
        }
        assert(self@.free =~= old(self)@.taken(bytes).free);
        assert(self@ =~= old(self)@.taken(bytes));
        hit
    }

    /// Park `ptr`, exactly `bytes` long, in the cache. Returns the buffers that
    /// the caller must hand back to the driver: the eviction victims, if this
    /// put pushed retention over the cap.
    pub fn put(&mut self, bytes: usize, ptr: u64) -> (victims: Vec<u64>)
        requires
            old(self)@.wf(),
            old(self)@.put_fits(bytes, ptr),
        ensures
            victims@ == lru::ptrs_of(old(self)@.filed(bytes, ptr).victims()),
            final(self)@ == old(self)@.filed(bytes, ptr).swept(),
            final(self)@.wf(),
    {
        proof {
            self@.lemma_filed(bytes, ptr);
        }
        self.tick = self.tick + 1;
        self.puts = self.puts + 1;
        if self.capturing {
            self.deferred.push((bytes, ptr));
        } else {
            let mut ptrs: Vec<u64> = match self.free.remove(&bytes) {
                Some(sc) => sc.ptrs,
                None => Vec::new(),
            };
            ptrs.push(ptr);
            self.free.insert(bytes, SizeClass { ptrs, tick: self.tick });
        }
        self.cached_bytes = self.cached_bytes + bytes;
        self.cached_buffers = self.cached_buffers + 1;
        if self.high_water_bytes < self.cached_bytes {
            self.high_water_bytes = self.cached_bytes;
        }
        assert(self@.free =~= old(self)@.filed(bytes, ptr).free);
        assert(self@ =~= old(self)@.filed(bytes, ptr));
        self.evict_if_over_capacity()
    }

    /// The sizes that hold a buffer, the stalest first.
    fn eviction_order(&self) -> (order: Vec<usize>)
        requires
            self@.wf(),
        ensures
            lru::is_lru_order(self@.free, order@),
    {
        let ghost free = self@.free;
        let keys = tally::keys_of(&self.free);
        let mut stamps: Vec<(u64, usize)> = Vec::new();
        let mut i: usize = 0;
        while i < keys.len()
            invariant
                free == self@.free,
                tally::enumerates(keys@, self.free@.dom()),
                0 <= i <= keys.len(),
                forall|k: int|
                    0 <= k < stamps.len() ==> lru::stocked(free, (#[trigger] stamps@[k]).1)
                        && stamps@[k].0 == free[stamps@[k].1].tick,
                forall|k: int|
                    0 <= k < stamps.len() ==> exists|j: int|
                        0 <= j < i && keys@[j] == (#[trigger] stamps@[k]).1,
                forall|j: int|
                    0 <= j < i && lru::stocked(free, #[trigger] keys@[j]) ==> stamps@.contains(
                        (free[keys@[j]].tick, keys@[j]),
                    ),
                stamps@.no_duplicates(),
            decreases keys.len() - i,
        {
            let bytes = keys[i];
            let ghost before = stamps@;
            assert(keys@.contains(keys@[i as int]));
            if let Some(sc) = self.free.get(&bytes) {
                assert(free[bytes] == sc@);
                if !sc.ptrs.is_empty() {
                    stamps.push((sc.tick, bytes));
                    assert forall|k: int| 0 <= k < stamps.len() implies exists|j: int|
                        0 <= j < i + 1 && keys@[j] == (#[trigger] stamps@[k]).1 by {
                        if k < before.len() {
                            let j = choose|j: int| 0 <= j < i && keys@[j] == before[k].1;
                            assert(keys@[j] == stamps@[k].1);
                        } else {
                            assert(keys@[i as int] == stamps@[k].1);
                        }
                    }
                    assert forall|j: int|
                        0 <= j < i + 1 && lru::stocked(free, #[trigger] keys@[j]) implies stamps@.contains(
                        (free[keys@[j]].tick, keys@[j]),
                    ) by {
                        if j < i {
                            let x = (free[keys@[j]].tick, keys@[j]);
                            assert(before.contains(x));
                            let k = choose|k: int| 0 <= k < before.len() && before[k] == x;
                            assert(stamps@[k] == x);
                        } else {
                            assert(stamps@.last() == (free[keys@[j]].tick, keys@[j]));
                        }
                    }
                }
            }
            i = i + 1;
        }
        let ghost given = stamps@;
        sorting::sort_pairs(&mut stamps);
        proof {
            sorting::lemma_same_pairs(given, stamps@);
        }
        let ghost sorted = stamps@;
        let mut order: Vec<usize> = Vec::new();
        let mut n: usize = 0;
        while n < stamps.len()
            invariant
                sorted == stamps@,
                0 <= n <= stamps.len(),
                order.len() == n,
                forall|k: int| 0 <= k < n ==> #[trigger] order@[k] == sorted[k].1,
            decreases stamps.len() - n,
        {
            let (_, bytes) = stamps[n];
            order.push(bytes);
            n = n + 1;
        }
        proof {
            assert forall|k: int| 0 <= k < sorted.len() implies lru::stocked(
                free,
                (#[trigger] sorted[k]).1,
            ) && sorted[k].0 == free[sorted[k].1].tick by {
                assert(sorted.contains(sorted[k]));
                assert(given.contains(sorted[k]));
                let j = choose|j: int| 0 <= j < given.len() && given[j] == sorted[k];
                assert(given[j] == sorted[k]);
            }
            assert forall|a: int, b: int| 0 <= a < b < order.len() implies lru::staler(
                free,
                #[trigger] order@[a],
                #[trigger] order@[b],
            ) by {
                assert(sorting::pair_le(sorted[a], sorted[b]));
                assert(sorted[a] != sorted[b]);
            }
            assert forall|b: usize| #[trigger] order@.contains(b) <==> lru::stocked(free, b) by {
                if order@.contains(b) {
                    let k = choose|k: int| 0 <= k < order@.len() && order@[k] == b;
                    assert(sorted[k].1 == b);
                }
                if lru::stocked(free, b) {
                    assert(self.free@.dom().contains(b));
                    assert(keys@.contains(b));
                    let j = choose|j: int| 0 <= j < keys@.len() && keys@[j] == b;
                    assert(given.contains((free[keys@[j]].tick, keys@[j])));
                    assert(sorted.contains((free[b].tick, b)));
                    let k = choose|k: int|
                        0 <= k < sorted.len() && sorted[k] == (free[b].tick, b);
                    assert(order@[k] == b);
                }
            }
        }
        order
    }

    /// Drop the sizes that hold no buffer.
    fn drop_empty_sizes(&mut self)
        ensures
            final(self)@ == (CacheView {
                free: lru::pool_after(old(self)@.free, Seq::empty()),
                ..old(self)@
            }),
    {
        let ghost before = self@;
        let keys = tally::keys_of(&self.free);
        let mut i: usize = 0;
        while i < keys.len()
            invariant
                before == old(self)@,
                tally::enumerates(keys@, before.free.dom()),
                0 <= i <= keys.len(),
                self@ == (CacheView { free: self@.free, ..before }),
                forall|b: usize| #[trigger]
                    self@.free.contains_key(b) ==> before.free.contains_key(b) && self@.free[b]
                        == before.free[b],
                forall|b: usize| #[trigger] lru::stocked(before.free, b) ==> self@.free.contains_key(b),
                forall|j: int|
                    0 <= j < i ==> self@.free.contains_key(#[trigger] keys@[j]) ==> lru::stocked(
                        before.free,
                        keys@[j],
                    ),
                forall|j: int|
                    i <= j < keys.len() ==> self@.free.contains_key(#[trigger] keys@[j]),
            decreases keys.len() - i,
        {
            let bytes = keys[i];
            assert(keys@.contains(keys@[i as int]));
            let ghost f0 = self@.free;
            let empty = match self.free.get(&bytes) {
                Some(sc) => sc.ptrs.is_empty(),
                None => true,
            };
            assert(f0[bytes] == before.free[bytes]);
            if empty {
                self.free.remove(&bytes);
                assert(self@.free =~= f0.remove(bytes));
            }
            assert(self@ =~= (CacheView { free: self@.free, ..before }));
            i = i + 1;
        }
        proof {
            assert forall|b: usize| self@.free.contains_key(b) <==> lru::stocked(before.free, b) by {
                if self@.free.contains_key(b) {
                    assert(keys@.contains(b));
                    let j = choose|j: int| 0 <= j < keys@.len() && keys@[j] == b;
                    assert(self@.free.contains_key(keys@[j]));
                }
            }
            let after = lru::pool_after(before.free, Seq::empty());
            assert forall|b: usize| after.contains_key(b) <==> lru::stocked(before.free, b) by {
                assert(lru::number_at(Seq::empty(), b) == 0);
            }
            assert forall|b: usize| #[trigger] after.contains_key(b) implies after[b]
                == before.free[b] by {
                assert(after[b].ptrs =~= before.free[b].ptrs);
            }
            assert(self@.free =~= after);
        }
    }

    /// Pop the top of the stack of `bytes`. A stack that ends up empty loses its
    /// entry.
    fn pop_top(&mut self, bytes: usize) -> (top: Option<u64>)
        ensures
            lru::stocked(old(self)@.free, bytes) ==> {
                let c = old(self)@.free[bytes];
                &&& top == Some(c.ptrs.last())
                &&& final(self)@ == (CacheView {
                    free: if c.ptrs.len() == 1 {
                        old(self)@.free.remove(bytes)
                    } else {
                        old(self)@.free.insert(
                            bytes,
                            ClassView { ptrs: c.ptrs.drop_last(), tick: c.tick },
                        )
                    },
                    ..old(self)@
                })
            },
            !lru::stocked(old(self)@.free, bytes) ==> top.is_none() && final(self)@ == (CacheView {
                free: old(self)@.free.remove(bytes),
                ..old(self)@
            }),
    {
        let ghost f0 = self@.free;
        match self.free.remove(&bytes) {
            Some(mut sc) => {
                assert(f0[bytes] == sc@);
                let top = sc.ptrs.pop();
                if !sc.ptrs.is_empty() {
                    self.free.insert(bytes, sc);
                    assert(self@.free =~= f0.insert(bytes, sc@));
                } else {
                    assert(self@.free =~= f0.remove(bytes));
                }
                top
            },
            None => {
                assert(self@.free =~= f0.remove(bytes));
                None
            },
        }
    }

    /// Give least recently used buffers back until retention is under the
    /// low-water mark: seven eighths of the cap, so that a cache sitting at the
    /// cap does not sweep on every put.
    ///
    /// Parked buffers are never given back: those addresses may be baked into the
    /// graph that is being recorded.
    pub fn evict_if_over_capacity(&mut self) -> (victims: Vec<u64>)
        requires
            old(self)@.wf(),
            old(self)@.evicted + old(self)@.victims().len() <= u64::MAX,
        ensures
            victims@ == lru::ptrs_of(old(self)@.victims()),
            final(self)@ == old(self)@.swept(),
            final(self)@.wf(),
    {
        let ghost c0 = self@;
        proof {
            c0.lemma_swept();
        }
        if self.capacity == usize::MAX || self.cached_bytes <= self.capacity || self.capturing {
            let victims: Vec<u64> = Vec::new();
            assert(victims@ =~= lru::ptrs_of(c0.victims()));
            return victims;
        }
        let low_water: usize = self.capacity / 8 * 7;
        let order = self.eviction_order();
        let ghost q = lru::queue_of(c0.free, order@);
        let ghost goal = lru::excess_len(q, c0.cached_bytes as int, low_water as int);
        proof {
            lru::lemma_lru_order(c0.free);
            lru::lemma_lru_order_unique(c0.free, order@, lru::lru_order(c0.free));
            lru::lemma_order_distinct(c0.free, order@);
            assert(q.take(0) =~= Seq::empty());
            assert(q.skip(0) =~= q);
            assert(order@.skip(0) =~= order@);
            lru::lemma_excess_step(q, 0, c0.cached_bytes as int, low_water as int);
            assert(c0.victims().len() == goal);
        }
        self.drop_empty_sizes();
        let mut victims: Vec<u64> = Vec::new();
        let mut i: usize = 0;
        proof {
            assert(self@ =~= c0.without(q.take(0)));
            lemma_front(c0.free, order@, 0);
            if order.len() > 0 {
                assert(order@.contains(order@[0]));
                assert(lru::number_at(q.take(0), order@[0]) == 0);
                assert(model::stack_at(self@.free, order@[0]) =~= c0.free[order@[0]].ptrs);
            }
        }
        while i < order.len() && self.cached_bytes > low_water
            invariant
                c0.wf(),
                c0.evicted + goal <= u64::MAX,
                goal == lru::excess_len(q, c0.cached_bytes as int, low_water as int),
                lru::is_lru_order(c0.free, order@),
                order@.no_duplicates(),
                q == lru::queue_of(c0.free, order@),
                0 <= i <= order.len(),
                victims.len() <= q.len(),
                self@ == c0.without(q.take(victims.len() as int)),
                victims@ == lru::ptrs_of(q.take(victims.len() as int)),
                goal == victims.len() + lru::excess_len(
                    q.skip(victims.len() as int),
                    self.cached_bytes as int,
                    low_water as int,
                ),
                i == order.len() ==> victims.len() == q.len(),
                i < order.len() ==> q.skip(victims.len() as int) == lru::class_run(
                    order@[i as int],
                    model::stack_at(self@.free, order@[i as int]),
                ) + lru::queue_of(c0.free, order@.skip(i + 1)),
                forall|j: int|
                    i < j < order.len() ==> lru::number_at(
                        q.take(victims.len() as int),
                        #[trigger] order@[j],
                    ) == 0,
            decreases order.len() - i + q.len() - victims.len(),
        {
            let bytes = order[i];
            let ghost n = victims.len() as int;
            let ghost before = self@;
            let ghost stack = model::stack_at(before.free, bytes);
            let ghost run = lru::class_run(bytes, stack);
            let ghost rest = lru::queue_of(c0.free, order@.skip(i + 1));
            match self.pop_top(bytes) {
                Some(ptr) => {
                    proof {
                        assert(q.skip(n)[0] == run[0]);
                        assert(q[n] == (bytes, ptr));
                        lru::lemma_take_push(q, n);
                        lru::lemma_excess_step(
                            q,
                            n,
                            before.cached_bytes as int,
                            low_water as int,
                        );
                        lru::lemma_excess_step(
                            q,
                            n + 1,
                            before.cached_bytes - bytes,
                            low_water as int,
                        );
                        c0.lemma_without(order@, n);
                        c0.lemma_without(order@, n + 1);
                        lru::lemma_queue_next(c0.free, order@, n);
                        assert(lru::ptrs_of(q.take(n + 1)) =~= lru::ptrs_of(q.take(n)).push(ptr));
                        assert(before.cached_bytes == c0.cached_bytes - lru::bytes_in(q.take(n)));
                    }
                    let in_demand = self.demand.contains_key(&bytes);
                    victims.push(ptr);
                    self.cached_bytes = self.cached_bytes - bytes;
                    self.cached_buffers = self.cached_buffers - 1;
                    self.evicted = self.evicted + 1;
                    if in_demand {
                        self.evicted_at_demand_size = self.evicted_at_demand_size + 1;
                    }
                    proof {
                        let gone = q.take(n + 1);
                        let c = c0.free[bytes];
                        let m = lru::number_at(q.take(n), bytes);
                        assert(stack == c.ptrs.take(c.ptrs.len() - m));
                        assert(stack.drop_last() =~= c.ptrs.take(c.ptrs.len() - (m + 1)));
                        assert(self@.free =~= lru::pool_after(c0.free, gone));
                        assert(c0.demand.dom().contains(bytes) == in_demand);
                        assert(self@ =~= c0.without(gone));
                        let left = model::stack_at(self@.free, bytes);
                        assert(left =~= stack.drop_last());
                        assert(q.skip(n + 1) =~= q.skip(n).drop_first());
                        assert(q.skip(n + 1) =~= lru::class_run(bytes, left) + rest);
                    }
                },
                None => {
                    proof {
                        assert(self@.free =~= before.free);
                        assert(self@ =~= before);
                        assert(run =~= Seq::empty());
                        assert(q.skip(n) =~= rest);
                        if i + 1 < order.len() {
                            lemma_front(c0.free, order@, i + 1);
                            assert(model::stack_at(self@.free, order@[i + 1])
                                =~= c0.free[order@[i + 1]].ptrs) by {
                                assert(lru::number_at(q.take(n), order@[i + 1]) == 0);
                                assert(order@.contains(order@[i + 1]));
                            }
                        } else {
                            assert(order@.skip(i + 1) =~= Seq::empty());
                            assert(q.skip(n).len() == q.len() - n);
                        }
                    }
                    i = i + 1;
                },
            }
        }
        proof {
            let n = victims.len() as int;
            lru::lemma_excess_step(q, n, self.cached_bytes as int, low_water as int);
        }
        victims
    }

    /// Hand every retained buffer back. The open capture window is discarded; the
    /// demand profile and the miss ledger survive.
    pub fn drain_all(&mut self) -> (all: Vec<u64>)
        requires
            old(self)@.wf(),
            old(self)@.drained + old(self)@.cached_buffers <= u64::MAX,
        ensures
            exists|bufs: Seq<(usize, u64)>| #[trigger]
                old(self)@.lists_all(bufs) && all@ == lru::ptrs_of(bufs),
            final(self)@ == old(self)@.emptied(),
            final(self)@.wf(),
    {
        let ghost c0 = self@;
        proof {
            c0.lemma_emptied();
        }
        self.capturing = false;
        self.window.clear();
        let keys = tally::keys_of(&self.free);
        let mut all: Vec<u64> = Vec::new();
        let mut i: usize = 0;
        proof {
            assert(keys@.take(0) =~= Seq::empty());
            assert(all@ =~= lru::ptrs_of(model::stacks_of(c0.free, keys@.take(0))));
        }
        while i < keys.len()
            invariant
                c0 == old(self)@,
                tally::enumerates(keys@, c0.free.dom()),
                0 <= i <= keys.len(),
                self@.free == c0.free,
                self@ == (CacheView { capturing: false, window: Map::empty(), ..c0 }),
                all@ == lru::ptrs_of(model::stacks_of(c0.free, keys@.take(i as int))),
            decreases keys.len() - i,
        {
            let bytes = keys[i];
            let ghost bufs = model::stacks_of(c0.free, keys@.take(i as int));
            let ghost before = all@;
            assert(keys@.contains(keys@[i as int]));
            if let Some(sc) = self.free.get(&bytes) {
                assert(c0.free[bytes] == sc@);
                all.extend_from_slice(sc.ptrs.as_slice());
                assert(all@ =~= before + sc.ptrs@);
            }
            proof {
                let upto = keys@.take(i + 1);
                assert(upto.drop_last() =~= keys@.take(i as int));
                assert(upto.last() == bytes);
                let run = model::stack_bufs(bytes, c0.free[bytes].ptrs);
                assert(lru::ptrs_of(bufs + run) =~= lru::ptrs_of(bufs) + c0.free[bytes].ptrs);
            }
            i = i + 1;
        }
        let mut k: usize = 0;
        let ghost stacks = model::stacks_of(c0.free, keys@);
        proof {
            assert(keys@.take(i as int) =~= keys@);
            assert(c0.deferred.take(0) =~= Seq::empty());
            assert(stacks + c0.deferred.take(0) =~= stacks);
        }
        while k < self.deferred.len()
            invariant
                self.deferred@ == c0.deferred,
                0 <= k <= self.deferred.len(),
                all@ == lru::ptrs_of(stacks + c0.deferred.take(k as int)),
                self@ == (CacheView { capturing: false, window: Map::empty(), ..c0 }),
            decreases self.deferred.len() - k,
        {
            let (_, ptr) = self.deferred[k];
            all.push(ptr);
            assert(all@ =~= lru::ptrs_of(stacks + c0.deferred.take(k + 1)));
            k = k + 1;
        }
        proof {
            assert(c0.deferred.take(k as int) =~= c0.deferred);
            assert(c0.lists_all(stacks + c0.deferred));
            crate::keep::lemma_stacks_len(c0.free, keys@, keys.len() as int);
            assert(all.len() == c0.cached_buffers);
        }
        self.drained = self.drained + all.len() as u64;
        self.free.clear();
        self.deferred.clear();
        self.cached_bytes = 0;
        self.cached_buffers = 0;
        proof {
            assert(self@.free =~= Map::empty());
            assert(self@ =~= c0.emptied());
        }
        all
    }

    /// Open a capture window: the per-size allocation tally starts empty.
    pub fn open_capture_window(&mut self)
        requires
            old(self)@.wf(),
        ensures
            final(self)@ == (CacheView { window: Map::empty(), ..old(self)@ }),
            final(self)@.wf(),
    {
        self.window.clear();
        assert(self@.window =~= Map::empty());
        assert(self@ =~= (CacheView { window: Map::empty(), ..old(self)@ }));
    }

    /// Raise the demand of `bytes` to `n` where it is lower.
    pub fn raise_demand(&mut self, bytes: usize, n: usize)
        requires
            old(self)@.wf(),
        ensures
            final(self)@ == (CacheView {
                demand: old(self)@.demand.insert(
                    bytes,
                    model::larger(tally::count_of(old(self)@.demand, bytes), n as nat),
                ),
                ..old(self)@
            }),
            final(self)@.wf(),
    {
        let now: usize = match self.demand.get(&bytes) {
            Some(now) => *now,
            None => 0,
        };
        let raised: usize = if now < n {
            n
        } else {
            now
        };
        self.demand.insert(bytes, raised);
        let ghost d = old(self)@.demand.insert(
            bytes,
            model::larger(tally::count_of(old(self)@.demand, bytes), n as nat),
        );
        assert(self@.demand =~= d);
        assert(self@ =~= (CacheView { demand: d, ..old(self)@ }));
    }

    /// Close a capture window, folding its per-size counts into the demand profile
    /// with a per-size maximum, so that several warm windows cover a size cycle
    /// that is longer than one of them.
    pub fn close_capture_window(&mut self)
        requires
            old(self)@.wf(),
        ensures
            final(self)@ == old(self)@.folded(),
            final(self)@.wf(),
    {
        let ghost c0 = self@;
        proof {
            c0.lemma_folded();
        }
        let keys = tally::keys_of(&self.window);
        let mut i: usize = 0;
        while i < keys.len()
            invariant
                c0 == old(self)@,
                c0.wf(),
                tally::enumerates(keys@, c0.window.dom()),
                0 <= i <= keys.len(),
                self@.wf(),
                self@ == (CacheView { demand: self@.demand, ..c0 }),
                forall|j: int|
                    0 <= j < i ==> self@.demand.contains_key(#[trigger] keys@[j])
                        && self@.demand[keys@[j]] == model::larger(
                        tally::count_of(c0.demand, keys@[j]),
                        tally::count_of(c0.window, keys@[j]),
                    ),
                forall|b: usize|
                    (forall|j: int| 0 <= j < i ==> #[trigger] keys@[j] != b) ==> (
                    #[trigger] self@.demand.contains_key(b) <==> c0.demand.contains_key(b))
                        && self@.demand[b] == c0.demand[b],
            decreases keys.len() - i,
        {
            let bytes = keys[i];
            let ghost before = self@;
            assert(keys@.contains(keys@[i as int]));
            let n: usize = match self.window.get(&bytes) {
                Some(n) => *n,
                None => 0,
            };
            assert(n == tally::count_of(c0.window, bytes));
            assert(forall|j: int| 0 <= j < i ==> #[trigger] keys@[j] != bytes);
            assert(before.demand.contains_key(bytes) <==> c0.demand.contains_key(bytes));
            self.raise_demand(bytes, n);
            i = i + 1;
        }
        self.window.clear();
        proof {
            let after = c0.folded();
            assert forall|b: usize| self@.demand.contains_key(b) <==> after.demand.contains_key(
                b,
            ) by {
                if c0.window.contains_key(b) {
                    assert(keys@.contains(b));
                    let j = choose|j: int| 0 <= j < keys@.len() && keys@[j] == b;
                    assert(self@.demand.contains_key(keys@[j]));
                } else {
                    assert forall|j: int| 0 <= j < i implies #[trigger] keys@[j] != b by {
                        assert(keys@.contains(keys@[j]));
                    }
                }
            }
            assert forall|b: usize| self@.demand.contains_key(b) implies self@.demand[b]
                == after.demand[b] by {
                if c0.window.contains_key(b) {
                    assert(keys@.contains(b));
                    let j = choose|j: int| 0 <= j < keys@.len() && keys@[j] == b;
                    assert(self@.demand.contains_key(keys@[j]));
                } else {
                    assert forall|j: int| 0 <= j < i implies #[trigger] keys@[j] != b by {
                        assert(keys@.contains(keys@[j]));
                    }
                    assert(self@.demand.contains_key(b) <==> c0.demand.contains_key(b));
                }
            }
            assert(self@.demand =~= after.demand);
            assert(self@.window =~= Map::empty());
            assert(self@ =~= after);
        }
    }

    /// How many buffers of each size a pre-warm must allocate to bring the free
    /// pool up to the demand plus `slack`. The order of the sizes is open.
    pub fn prewarm_plan(&self, slack: usize) -> (plan: Vec<(usize, usize)>)
        requires
            self@.wf(),
            self@.plan_fits(slack),
        ensures
            self@.is_plan(slack, plan@),
    {
        let ghost c = self@;
        let keys = tally::keys_of(&self.demand);
        let mut plan: Vec<(usize, usize)> = Vec::new();
        let mut i: usize = 0;
        while i < keys.len()
            invariant
                c == self@,
                c.plan_fits(slack),
                tally::enumerates(keys@, c.demand.dom()),
                0 <= i <= keys.len(),
                forall|k: int|
                    0 <= k < plan.len() ==> exists|j: int|
                        0 <= j < i && keys@[j] == (#[trigger] plan@[k]).0,
                forall|a: int, b: int|
                    0 <= a < b < plan.len() ==> (#[trigger] plan@[a]).0 != (#[trigger] plan@[b]).0,
                forall|k: int|
                    0 <= k < plan.len() ==> {
                        &&& c.short_of((#[trigger] plan@[k]).0, slack)
                        &&& plan@[k].1 == c.demand[plan@[k].0] + slack - model::stack_at(
                            c.free,
                            plan@[k].0,
                        ).len()
                    },
                forall|j: int|
                    0 <= j < i && c.short_of(#[trigger] keys@[j], slack) ==> exists|k: int|
                        0 <= k < plan.len() && (#[trigger] plan@[k]).0 == keys@[j],
            decreases keys.len() - i,
        {
            let bytes = keys[i];
            let ghost before = plan@;
            assert(keys@.contains(keys@[i as int]));
            assert(c.demand.contains_key(bytes));
            let need: usize = match self.demand.get(&bytes) {
                Some(need) => *need,
                None => 0,
            };
            let have: usize = match self.free.get(&bytes) {
                Some(sc) => sc.ptrs.len(),
                None => 0,
            };
            assert(have == model::stack_at(c.free, bytes).len()) by {
                if self.free@.contains_key(bytes) {
                    assert(c.free[bytes] == self.free@[bytes]@);
                }
            }
            let want: usize = need + slack;
            if bytes > 0 && want > have {
                plan.push((bytes, want - have));
                assert(plan@.last().0 == bytes);
                assert forall|k: int| 0 <= k < plan.len() implies exists|j: int|
                    0 <= j < i + 1 && keys@[j] == (#[trigger] plan@[k]).0 by {
                    if k < before.len() {
                        let j = choose|j: int| 0 <= j < i && keys@[j] == before[k].0;
                        assert(keys@[j] == plan@[k].0);
                    } else {
                        assert(keys@[i as int] == plan@[k].0);
                    }
                }
            }
            assert forall|j: int| 0 <= j < i + 1 && c.short_of(#[trigger] keys@[j], slack) implies exists|
                k: int,
            |
                0 <= k < plan.len() && (#[trigger] plan@[k]).0 == keys@[j] by {
                if j < i {
                    let k = choose|k: int|
                        0 <= k < before.len() && (#[trigger] before[k]).0 == keys@[j];
                    assert(plan@[k].0 == keys@[j]);
                } else {
                    assert(plan@[plan.len() - 1].0 == keys@[j]);
                }
            }
            i = i + 1;
        }
        proof {
            assert forall|b: usize| #[trigger] c.short_of(b, slack) implies exists|k: int|
                0 <= k < plan.len() && (#[trigger] plan@[k]).0 == b by {
                assert(keys@.contains(b));
                let j = choose|j: int| 0 <= j < keys@.len() && keys@[j] == b;
                assert(c.short_of(keys@[j], slack));
            }
        }
        plan
    }

    /// File freshly allocated buffers into the free pool, with full retention
    /// accounting and without eviction.
    ///
    /// Eviction here would take its victims from the sizes topped up earlier in
    /// the same pass, and the addresses are about to be baked into a graph.
    /// Retention may therefore exceed the cap until the next ordinary put.
    pub fn install_prewarmed(&mut self, bytes: usize, ptrs: Vec<u64>)
        requires
            old(self)@.wf(),
            old(self)@.install_fits(bytes, ptrs@.len()),
        ensures
            final(self)@ == old(self)@.installed(bytes, ptrs@),
            final(self)@.wf(),
    {
        if ptrs.is_empty() {
            return ;
        }
        proof {
            self@.lemma_installed(bytes, ptrs@);
        }
        let ghost given = ptrs@;
        let mut ptrs = ptrs;
        self.tick = self.tick + 1;
        let n: usize = ptrs.len();
        let mut stack: Vec<u64> = match self.free.remove(&bytes) {
            Some(sc) => sc.ptrs,
            None => Vec::new(),
        };
        stack.append(&mut ptrs);
        assert(bytes * n <= usize::MAX);
        self.free.insert(bytes, SizeClass { ptrs: stack, tick: self.tick });
        self.cached_bytes = self.cached_bytes + bytes * n;
        self.cached_buffers = self.cached_buffers + n;
        self.prewarmed = self.prewarmed + n as u64;
        if self.high_water_bytes < self.cached_bytes {
            self.high_water_bytes = self.cached_bytes;
        }
        assert(self@.free =~= old(self)@.installed(bytes, given).free);
        assert(self@ =~= old(self)@.installed(bytes, given));
    }

    /// Return the parked buffers to the free pool. They are already counted as
    /// retained, so only the recency stamp changes hands, and nothing is evicted.
    pub fn release_deferred(&mut self)
        requires
            old(self)@.wf(),
            old(self)@.tick < u64::MAX,
        ensures
            final(self)@ == old(self)@.released(),
            final(self)@.wf(),
    {
        let ghost c0 = self@;
        proof {
            c0.lemma_released();
        }
        self.tick = self.tick + 1;
        let tick = self.tick;
        let mut parked: Vec<(usize, u64)> = Vec::new();
        parked.append(&mut self.deferred);
        let mut i: usize = 0;
        proof {
            assert(parked@ =~= c0.deferred);
            assert(parked@.take(0) =~= Seq::empty());
            assert(self@.free =~= model::pool_with(c0.free, parked@.take(0), tick));
        }
        while i < parked.len()
            invariant
                tick == c0.tick + 1,
                tick == self.tick,
                parked@ == c0.deferred,
                0 <= i <= parked.len(),
                self@ == (CacheView {
                    free: model::pool_with(c0.free, parked@.take(i as int), tick),
                    deferred: Seq::empty(),
                    tick: c0.tick + 1,
                    ..c0
                }),
            decreases parked.len() - i,
        {
            let (bytes, ptr) = parked[i];
            let ghost before = self@.free;
            let mut ptrs: Vec<u64> = match self.free.remove(&bytes) {
                Some(sc) => sc.ptrs,
                None => Vec::new(),
            };
            assert(ptrs@ =~= model::stack_at(before, bytes));
            ptrs.push(ptr);
            self.free.insert(bytes, SizeClass { ptrs, tick });
            proof {
                assert(parked@.take(i + 1) =~= parked@.take(i as int).push((bytes, ptr)));
                crate::keep::lemma_pool_with_push(
                    c0.free,
                    parked@.take(i as int),
                    tick,
                    (bytes, ptr),
                );
                assert(self@.free =~= before.insert(
                    bytes,
                    ClassView { ptrs: model::stack_at(before, bytes).push(ptr), tick },
                ));
            }
            i = i + 1;
        }
        proof {
            assert(parked@.take(i as int) =~= c0.deferred);
            assert(self@ =~= c0.released());
        }
    }

    /// Counters: driver allocations, driver frees, bytes retained, high-water mark.
    pub fn stats(&self) -> (s: AllocCacheStats)
        requires
            self@.wf(),
            tally::total(self@.capture_misses) <= usize::MAX,
        ensures
            s.describes(self@),
    {
        proof {
            assert(self@.demand.dom() =~= self.demand@.dom());
        }
        AllocCacheStats {
            hits: self.hits,
            misses: self.misses,
            puts: self.puts,
            evicted: self.evicted,
            drained: self.drained,
            prewarmed: self.prewarmed,
            evicted_at_demand_size: self.evicted_at_demand_size,
            cached_bytes: self.cached_bytes,
            cached_buffers: self.cached_buffers,
            high_water_bytes: self.high_water_bytes,
            capacity_bytes: self.capacity,
            size_classes: self.count_stocked(),
            demand_sizes: self.demand.len(),
            capture_misses: tally::sum_counts(&self.capture_misses),
        }
    }

    /// The number of sizes that hold a free buffer.
    fn count_stocked(&self) -> (n: usize)
        requires
            self@.wf(),
        ensures
            n == lru::stocked_sizes(self@.free).len(),
    {
        let ghost free = self@.free;
        let keys = tally::keys_of(&self.free);
        let mut n: usize = 0;
        let mut i: usize = 0;
        let ghost mut found: Set<usize> = Set::empty();
        while i < keys.len()
            invariant
                free == self@.free,
                tally::enumerates(keys@, free.dom()),
                0 <= i <= keys.len(),
                n <= i,
                found.finite(),
                found.len() == n,
                forall|b: usize| #[trigger]
                    found.contains(b) ==> lru::stocked(free, b) && exists|j: int|
                        0 <= j < i && keys@[j] == b,
                forall|j: int|
                    0 <= j < i && lru::stocked(free, #[trigger] keys@[j]) ==> found.contains(
                        keys@[j],
                    ),
            decreases keys.len() - i,
        {
            let bytes = keys[i];
            assert(keys@.contains(keys@[i as int]));
            assert(!found.contains(bytes));
            if let Some(sc) = self.free.get(&bytes) {
                assert(free[bytes] == sc@);
                if !sc.ptrs.is_empty() {
                    n = n + 1;
                    proof {
                        found = found.insert(bytes);
                    }
                }
            }
            i = i + 1;
        }
        proof {
            assert forall|b: usize| found.contains(b) <==> lru::stocked_sizes(free).contains(
                b,
            ) by {
                if lru::stocked(free, b) {
                    assert(keys@.contains(b));
                    let j = choose|j: int| 0 <= j < keys@.len() && keys@[j] == b;
                    assert(lru::stocked(free, keys@[j]));
                }
            }
            assert(found =~= lru::stocked_sizes(free));
        }
        n
    }

    /// Count what is retained from scratch: bytes and buffers. The incremental
    /// counters agree with it.
    pub fn recount(&self) -> (r: (usize, usize))
        requires
            self@.wf(),
        ensures
            r.0 == self@.held_bytes(),
            r.1 == self@.held_buffers(),
            r.0 == self@.cached_bytes,
            r.1 == self@.cached_buffers,
    {
        let ghost c = self@;
        let ghost mb = model::class_bytes(c.free);
        let ghost ml = model::class_lens(c.free);
        let keys = tally::keys_of(&self.free);
        let mut bytes: usize = 0;
        let mut n: usize = 0;
        let mut i: usize = 0;
        proof {
            assert(mb.dom() =~= c.free.dom());
            assert(ml.dom() =~= c.free.dom());
            assert(mb.restrict(keys@.take(0).to_set()).dom() =~= Set::empty());
            assert(ml.restrict(keys@.take(0).to_set()).dom() =~= Set::empty());
        }
        while i < keys.len()
            invariant
                c == self@,
                c.wf(),
                mb == model::class_bytes(c.free),
                ml == model::class_lens(c.free),
                mb.dom() == c.free.dom(),
                ml.dom() == c.free.dom(),
                tally::enumerates(keys@, c.free.dom()),
                0 <= i <= keys.len(),
                bytes == tally::total(mb.restrict(keys@.take(i as int).to_set())),
                n == tally::total(ml.restrict(keys@.take(i as int).to_set())),
            decreases keys.len() - i,
        {
            let size = keys[i];
            proof {
                assert(keys@.contains(keys@[i as int]));
                tally::lemma_total_step(mb, keys@, i as int);
                tally::lemma_total_step(ml, keys@, i as int);
                tally::lemma_total_restrict_le(mb, keys@.take(i + 1).to_set());
                tally::lemma_total_restrict_le(ml, keys@.take(i + 1).to_set());
            }
            let len: usize = match self.free.get(&size) {
                Some(sc) => sc.ptrs.len(),
                None => 0,
            };
            proof {
                assert(c.free[size] == self.free@[size]@);
                assert(mb[size] == size as nat * len as nat);
            }
            bytes = bytes + size * len;
            n = n + len;
            i = i + 1;
        }
        proof {
            assert(keys@.take(i as int) =~= keys@);
            assert(mb.restrict(keys@.to_set()) =~= mb);
            assert(ml.restrict(keys@.to_set()) =~= ml);
        }
        let mut k: usize = 0;
        while k < self.deferred.len()
            invariant
                c == self@,
                c.wf(),
                0 <= k <= self.deferred.len(),
                bytes == tally::total(model::class_bytes(c.free)) + lru::bytes_in(
                    c.deferred.take(k as int),
                ),
                n == tally::total(model::class_lens(c.free)) + k,
            decreases self.deferred.len() - k,
        {
            let (b, _) = self.deferred[k];
            proof {
                assert(c.deferred.take(k + 1).drop_last() =~= c.deferred.take(k as int));
                lru::lemma_bytes_in_prefix(c.deferred, k + 1);
            }
            bytes = bytes + b;
            n = n + 1;
            k = k + 1;
        }
        assert(c.deferred.take(k as int) =~= c.deferred);
        (bytes, n)
    }

    /// The allocations of the open capture window by size, the smallest first.
    pub fn window_counts(&self) -> (list: Vec<(usize, usize)>)
        ensures
            sorting::is_listing(list@, self@.window),
    {
        sorting::list_counts(&self.window)
    }

    /// The demand profile by size, the smallest first.
    pub fn capture_alloc_demand(&self) -> (list: Vec<(usize, usize)>)
        ensures
            sorting::is_listing(list@, self@.demand),
    {
        sorting::list_counts(&self.demand)
    }

    /// The miss ledger by size, the smallest first.
    pub fn capture_misses(&self) -> (list: Vec<(usize, usize)>)
        ensures
            sorting::is_listing(list@, self@.capture_misses),
    {
        sorting::list_counts(&self.capture_misses)
    }

    /// The number of misses in the ledger.
    pub fn capture_miss_count(&self) -> (n: usize)
        requires
            tally::total(self@.capture_misses) <= usize::MAX,
        ensures
            n == tally::total(self@.capture_misses),
    {
        tally::sum_counts(&self.capture_misses)
    }

    /// Clear the miss ledger.
    pub fn reset_capture_misses(&mut self)
        requires
            old(self)@.wf(),
        ensures
            final(self)@ == (CacheView { capture_misses: Map::empty(), ..old(self)@ }),
            final(self)@.wf(),
    {
        self.capture_misses.clear();
        proof {
            let c = CacheView { capture_misses: Map::empty(), ..old(self)@ };
            assert(self@.capture_misses =~= Map::empty());
            assert(self@ =~= c);
            assert(c.capture_misses.dom() =~= Set::empty());
        }
    }

    /// The free buffers of each size, the smallest size first. Sizes whose stack
    /// ran empty since the last sweep are listed with zero.
    pub fn free_counts(&self) -> (list: Vec<(usize, usize)>)
        ensures
            sorting::is_listing(list@, model::class_lens(self@.free)),
    {
        let ghost free = self@.free;
        let keys = tally::keys_of(&self.free);
        let mut pairs: Vec<(u64, usize)> = Vec::new();
        let mut i: usize = 0;
        while i < keys.len()
            invariant
                free == self@.free,
                tally::enumerates(keys@, free.dom()),
                0 <= i <= keys.len(),
                pairs.len() == i,
                forall|k: int|
                    0 <= k < i ==> (#[trigger] pairs@[k]).0 == keys@[k] && free.contains_key(
                        keys@[k],
                    ) && pairs@[k].1 == free[keys@[k]].ptrs.len(),
            decreases keys.len() - i,
        {
            let k = keys[i];
            assert(keys@.contains(keys@[i as int]));
            let n: usize = match self.free.get(&k) {
                Some(sc) => sc.ptrs.len(),
                None => 0,
            };
            assert(free[k] == self.free@[k]@);
            pairs.push((k as u64, n));
            i = i + 1;
        }
        let ghost lens = model::class_lens(free);
        proof {
            assert forall|i: int, j: int| 0 <= i < j < pairs.len() implies (
            #[trigger] pairs@[i]).0 != (#[trigger] pairs@[j]).0 by {
                assert(keys@[i] != keys@[j]);
            }
            assert forall|k: usize| #[trigger] lens.contains_key(k) implies exists|i: int|
                0 <= i < pairs.len() && (#[trigger] pairs@[i]).0 == k by {
                assert(keys@.contains(k));
                let i = choose|i: int| 0 <= i < keys@.len() && keys@[i] == k;
                assert(pairs@[i].0 == k);
            }
        }
        sorting::sorted_listing(pairs, Ghost(lens))
    }

    /// Record a miss of a size class. True if the class had not missed before.
    pub fn note_missed(&mut self, class: usize) -> (first: bool)
        requires
            old(self)@.wf(),
        ensures
            first == !old(self)@.missed.contains(class),
            final(self)@ == (CacheView { missed: old(self)@.missed.insert(class), ..old(self)@ }),
            final(self)@.wf(),
    {
        let first = self.missed.insert(class);
        let ghost c = CacheView { missed: old(self)@.missed.insert(class), ..old(self)@ };
        assert(self@.missed =~= c.missed);
        assert(self@ =~= c);
        first
    }

    /// Forget which size classes have missed.
    pub fn forget_missed(&mut self)
        requires
            old(self)@.wf(),
        ensures
            final(self)@ == (CacheView { missed: Set::empty(), ..old(self)@ }),
            final(self)@.wf(),
    {
        self.missed.clear();
        let ghost c = CacheView { missed: Set::empty(), ..old(self)@ };
        assert(self@.missed =~= c.missed);
        assert(self@ =~= c);
    }

    /// Switch the cache on or off. What is held stays.
    pub fn set_enabled(&mut self, enabled: bool)
        requires
            old(self)@.wf(),
        ensures
            final(self)@ == (CacheView { enabled, ..old(self)@ }),
            final(self)@.wf(),
    {
        self.enabled = enabled;
    }

    pub fn enabled(&self) -> (b: bool)
        ensures
            b == self@.enabled,
    {
        self.enabled
    }

    /// Set or clear capture mode. Windows and parked buffers stay as they are.
    pub fn set_capturing(&mut self, capturing: bool)
        requires
            old(self)@.wf(),
        ensures
            final(self)@ == (CacheView { capturing, ..old(self)@ }),
            final(self)@.wf(),
    {
        self.capturing = capturing;
    }

    pub fn capturing(&self) -> (b: bool)
        ensures
            b == self@.capturing,
    {
        self.capturing
    }

    /// The bytes retained, parked buffers included.
    pub fn cached_bytes(&self) -> (n: usize)
        ensures
            n == self@.cached_bytes,
    {
        self.cached_bytes
    }

    /// The cap.
    pub fn capacity(&self) -> (n: usize)
        ensures
            n == self@.capacity,
    {
        self.capacity
    }

    /// The counters are machine integers.
    pub proof fn lemma_counters_fit(&self)
        ensures
            self@.cached_bytes <= usize::MAX,
            self@.cached_buffers <= usize::MAX,
    {
    }

    /// The counters have room for a request for `bytes`.
    pub fn can_take(&self, bytes: usize) -> (b: bool)
        ensures
            b == self@.take_fits(bytes),
    {
        let seen: usize = match self.window.get(&bytes) {
            Some(n) => *n,
            None => 0,
        };
        let missed: usize = match self.capture_misses.get(&bytes) {
            Some(n) => *n,
            None => 0,
        };
        let stocked: bool = match self.free.get(&bytes) {
            Some(sc) => !sc.ptrs.is_empty(),
            None => false,
        };
        proof {
            assert(seen == tally::count_of(self@.window, bytes));
            assert(missed == tally::count_of(self@.capture_misses, bytes));
            if self.free@.contains_key(bytes) {
                assert(self@.free[bytes] == self.free@[bytes]@);
            }
            assert(stocked == self@.serves(bytes));
        }
        self.tick < u64::MAX && (!self.capturing || (seen < usize::MAX && (stocked || missed
            < usize::MAX)))
    }

    /// The counters have room for a freed buffer of `bytes`, even if everything
    /// held has to be given back for it.
    pub fn can_put(&self, bytes: usize) -> (b: bool)
        requires
            self@.wf(),
        ensures
            b == self@.put_room(bytes),
            b ==> forall|ptr: u64| #[trigger] self@.put_fits(bytes, ptr),
    {
        let b = self.tick < u64::MAX && bytes <= usize::MAX - self.cached_bytes
            && self.cached_buffers < usize::MAX && self.cached_buffers as u64 + 1 <= u64::MAX
            - self.evicted;
        proof {
            if b {
                assert forall|ptr: u64| #[trigger] self@.put_fits(bytes, ptr) by {
                    self@.lemma_put_room(bytes, ptr);
                }
            }
        }
        b
    }

    /// The counters have room for a sweep, even if it gives back everything held.
    pub fn can_sweep(&self) -> (b: bool)
        requires
            self@.wf(),
        ensures
            b == self@.sweep_room(),
            b ==> self@.evicted + self@.victims().len() <= u64::MAX,
    {
        proof {
            self@.lemma_swept();
        }
        self.cached_buffers as u64 <= u64::MAX - self.evicted
    }

    /// The counters have room for a drain.
    pub fn can_drain(&self) -> (b: bool)
        ensures
            b == (self@.drained + self@.cached_buffers <= u64::MAX),
    {
        self.cached_buffers as u64 <= u64::MAX - self.drained
    }

    /// The counters have room for `n` buffers fresh from the driver.
    pub fn can_install(&self, bytes: usize, n: usize) -> (b: bool)
        ensures
            b == self@.install_fits(bytes, n as nat),
    {
        if n == 0 {
            return true;
        }
        match bytes.checked_mul(n) {
            Some(total) => self.tick < u64::MAX && total <= usize::MAX - self.cached_bytes && n
                <= usize::MAX - self.cached_buffers && n as u64 <= u64::MAX - self.prewarmed,
            None => false,
        }
    }

    /// The clock has room for one more stamp.
    pub fn can_release(&self) -> (b: bool)
        ensures
            b == (self@.tick < u64::MAX),
    {
        self.tick < u64::MAX
    }

    /// The number of misses in the ledger can be written down.
    pub fn can_report(&self) -> (b: bool)
        requires
            self@.wf(),
        ensures
            b ==> tally::total(self@.capture_misses) <= usize::MAX,
            b == (self@.misses <= usize::MAX),
    {
        self.misses <= usize::MAX as u64
    }

    /// The wanted numbers of a pre-warm can be written down.
    pub fn can_plan(&self, slack: usize) -> (b: bool)
        ensures
            b == self@.plan_fits(slack),
    {
        let ghost c = self@;
        let keys = tally::keys_of(&self.demand);
        let mut i: usize = 0;
        while i < keys.len()
            invariant
                c == self@,
                tally::enumerates(keys@, c.demand.dom()),
                0 <= i <= keys.len(),
                forall|j: int|
                    0 <= j < i ==> c.demand[#[trigger] keys@[j]] + slack <= usize::MAX,
            decreases keys.len() - i,
        {
            let bytes = keys[i];
            assert(keys@.contains(keys@[i as int]));
            assert(c.demand.contains_key(bytes));
            let need: usize = match self.demand.get(&bytes) {
                Some(need) => *need,
                None => 0,
            };
            if need > usize::MAX - slack {
                return false;
            }
            i = i + 1;
        }
        proof {
            assert forall|b: usize| #[trigger] c.demand.contains_key(b) implies c.demand[b] + slack
                <= usize::MAX by {
                assert(keys@.contains(b));
                let j = choose|j: int| 0 <= j < keys@.len() && keys@[j] == b;
                assert(keys@[j] == b);
            }
        }
        true
    }

    /// Set the cap. What is held stays until the next sweep.
    pub fn set_capacity(&mut self, capacity: usize)
        requires
            old(self)@.wf(),
        ensures
            final(self)@ == (CacheView { capacity, ..old(self)@ }),
            final(self)@.wf(),
    {
        self.capacity = capacity;
    }
}

/// The queue of the sizes from `i` on starts with the stack of size `i`.
proof fn lemma_front(free: Map<usize, ClassView>, sizes: Seq<usize>, i: int)
    requires
        0 <= i <= sizes.len(),
    ensures
        i < sizes.len() ==> lru::queue_of(free, sizes.skip(i)) == lru::class_run(
            sizes[i],
            free[sizes[i]].ptrs,
        ) + lru::queue_of(free, sizes.skip(i + 1)),
{
    if i < sizes.len() {
        assert(sizes.skip(i).drop_first() =~= sizes.skip(i + 1));
    }
}

} // verus!
