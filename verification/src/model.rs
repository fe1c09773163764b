//! The caching allocator as a mathematical object: its state, and what each
//! operation makes of it.
use crate::lru;
use crate::lru::ClassView;
use crate::tally;
use vstd::prelude::*;

verus! {

/// The state of the allocator. Sizes are byte counts, buffers are the pair of
/// a byte size and a device address.
#[verifier::ext_equal]
pub struct CacheView {
    pub enabled: bool,
    pub capturing: bool,
    /// The buffers that can be served, by their exact size.
    pub free: Map<usize, ClassView>,
    /// The buffers parked until the capture ends, in the order of arrival.
    pub deferred: Seq<(usize, u64)>,
    /// The size classes whose first miss has been reported.
    pub missed: Set<usize>,
    /// The allocations of the open capture window, by size.
    pub window: Map<usize, nat>,
    /// The largest number of allocations of each size in any closed window.
    pub demand: Map<usize, nat>,
    /// The misses taken while capturing, by size.
    pub capture_misses: Map<usize, nat>,
    pub cached_bytes: nat,
    pub cached_buffers: nat,
    pub capacity: usize,
    pub tick: nat,
    pub hits: nat,
    pub misses: nat,
    pub puts: nat,
    pub evicted: nat,
    pub drained: nat,
    pub prewarmed: nat,
    pub evicted_at_demand_size: nat,
    pub high_water_bytes: nat,
}

/// The bytes held at each size.
pub open spec fn class_bytes(free: Map<usize, ClassView>) -> Map<usize, nat> {
    Map::new(|b: usize| free.contains_key(b), |b: usize| b as nat * free[b].ptrs.len())
}

/// The number of buffers held at each size.
pub open spec fn class_lens(free: Map<usize, ClassView>) -> Map<usize, nat> {
    Map::new(|b: usize| free.contains_key(b), |b: usize| free[b].ptrs.len())
}

/// The free buffers of size `bytes`, the next to be served last.
pub open spec fn stack_at(free: Map<usize, ClassView>, bytes: usize) -> Seq<u64> {
    if free.contains_key(bytes) {
        free[bytes].ptrs
    } else {
        Seq::empty()
    }
}

/// The parked addresses of size `bytes`, in the order of arrival.
pub open spec fn parked_at(deferred: Seq<(usize, u64)>, bytes: usize) -> Seq<u64>
    decreases deferred.len(),
{
    if deferred.len() == 0 {
        Seq::empty()
    } else if deferred.last().0 == bytes {
        parked_at(deferred.drop_last(), bytes).push(deferred.last().1)
    } else {
        parked_at(deferred.drop_last(), bytes)
    }
}

/// The parked buffers of a size, picked out.
pub proof fn lemma_parked_filter(deferred: Seq<(usize, u64)>, bytes: usize)
    ensures
        parked_at(deferred, bytes) == deferred.filter(
            |x: (usize, u64)| x.0 == bytes,
        ).map_values(|x: (usize, u64)| x.1),
    decreases deferred.len(),
{
    reveal(Seq::filter);
    let picked = deferred.filter(|x: (usize, u64)| x.0 == bytes);
    if deferred.len() > 0 {
        lemma_parked_filter(deferred.drop_last(), bytes);
    }
    assert(parked_at(deferred, bytes) =~= picked.map_values(|x: (usize, u64)| x.1));
}

/// The pool with the parked buffers on top of the stacks of their sizes, in
/// the order of arrival. The sizes that gained a buffer are stamped `tick`.
pub open spec fn pool_with(
    free: Map<usize, ClassView>,
    parked: Seq<(usize, u64)>,
    tick: u64,
) -> Map<usize, ClassView> {
    Map::new(
        |b: usize| free.contains_key(b) || parked_at(parked, b).len() > 0,
        |b: usize|
            ClassView {
                ptrs: stack_at(free, b) + parked_at(parked, b),
                tick: if parked_at(parked, b).len() > 0 {
                    tick
                } else {
                    free[b].tick
                },
            },
    )
}

/// One stack as buffers.
pub open spec fn stack_bufs(bytes: usize, ptrs: Seq<u64>) -> Seq<(usize, u64)> {
    ptrs.map_values(|p: u64| (bytes, p))
}

/// The buffers of the given sizes, one stack after the other.
pub open spec fn stacks_of(free: Map<usize, ClassView>, sizes: Seq<usize>) -> Seq<(usize, u64)>
    decreases sizes.len(),
{
    if sizes.len() == 0 {
        Seq::empty()
    } else {
        stacks_of(free, sizes.drop_last()) + stack_bufs(sizes.last(), free[sizes.last()].ptrs)
    }
}

/// The larger of two numbers.
pub open spec fn larger(a: nat, b: nat) -> nat {
    if a < b {
        b
    } else {
        a
    }
}

impl CacheView {
    /// An allocator that holds nothing, has seen nothing and is switched off.
    pub open spec fn fresh(capacity: usize) -> CacheView {
        CacheView {
            enabled: false,
            capturing: false,
            free: Map::empty(),
            deferred: Seq::empty(),
            missed: Set::empty(),
            window: Map::empty(),
            demand: Map::empty(),
            capture_misses: Map::empty(),
            cached_bytes: 0,
            cached_buffers: 0,
            capacity,
            tick: 0,
            hits: 0,
            misses: 0,
            puts: 0,
            evicted: 0,
            drained: 0,
            prewarmed: 0,
            evicted_at_demand_size: 0,
            high_water_bytes: 0,
        }
    }

    /// The bytes in the free pool and in the parking list.
    pub open spec fn held_bytes(self) -> nat {
        tally::total(class_bytes(self.free)) + lru::bytes_in(self.deferred)
    }

    /// The buffers in the free pool and in the parking list.
    pub open spec fn held_buffers(self) -> nat {
        tally::total(class_lens(self.free)) + self.deferred.len()
    }

    /// How often the buffer of size `bytes` at address `ptr` is held.
    pub open spec fn held(self, bytes: usize, ptr: u64) -> nat {
        stack_at(self.free, bytes).to_multiset().count(ptr) + self.deferred.to_multiset().count(
            (bytes, ptr),
        )
    }

    /// What every operation keeps: the running counters agree with what is
    /// held, no stamp lies in the future, every buffer that came in has left by
    /// exactly one way or is still held, and the capture ledger is a part of
    /// the misses and lists no size without one.
    pub open spec fn wf(self) -> bool {
        &&& self.free.dom().finite()
        &&& self.window.dom().finite()
        &&& self.demand.dom().finite()
        &&& self.capture_misses.dom().finite()
        &&& self.cached_bytes == self.held_bytes()
        &&& self.cached_buffers == self.held_buffers()
        &&& forall|b: usize| #[trigger]
            self.free.contains_key(b) ==> self.free[b].tick <= self.tick
        &&& self.hits + self.misses + self.puts <= self.tick
        &&& self.puts + self.prewarmed == self.hits + self.evicted + self.drained
            + self.cached_buffers
        &&& self.evicted_at_demand_size <= self.evicted
        &&& self.cached_bytes <= self.high_water_bytes
        &&& tally::total(self.capture_misses) <= self.misses
        &&& forall|b: usize| #[trigger]
            self.capture_misses.contains_key(b) ==> self.capture_misses[b] >= 1
    }

    /// A request for `bytes` can be served.
    pub open spec fn serves(self, bytes: usize) -> bool {
        lru::stocked(self.free, bytes)
    }

    /// What a request for `bytes` is answered: the most recently freed buffer of
    /// exactly that size, if there is one.
    pub open spec fn answer(self, bytes: usize) -> Option<u64> {
        if self.serves(bytes) {
            Some(self.free[bytes].ptrs.last())
        } else {
            None
        }
    }

    /// The state after a request for `bytes`.
    pub open spec fn taken(self, bytes: usize) -> CacheView {
        let window = if self.capturing {
            tally::bumped(self.window, bytes)
        } else {
            self.window
        };
        if self.serves(bytes) {
            CacheView {
                free: self.free.insert(
                    bytes,
                    ClassView {
                        ptrs: self.free[bytes].ptrs.drop_last(),
                        tick: (self.tick + 1) as u64,
                    },
                ),
                window,
                cached_bytes: (self.cached_bytes - bytes) as nat,
                cached_buffers: (self.cached_buffers - 1) as nat,
                tick: self.tick + 1,
                hits: self.hits + 1,
                ..self
            }
        } else {
            CacheView {
                window,
                capture_misses: if self.capturing {
                    tally::bumped(self.capture_misses, bytes)
                } else {
                    self.capture_misses
                },
                tick: self.tick + 1,
                misses: self.misses + 1,
                ..self
            }
        }
    }

    /// The counters have room for a request for `bytes`.
    pub open spec fn take_fits(self, bytes: usize) -> bool {
        &&& self.tick < u64::MAX
        &&& self.capturing ==> tally::count_of(self.window, bytes) < usize::MAX
        &&& self.capturing && !self.serves(bytes) ==> tally::count_of(self.capture_misses, bytes)
            < usize::MAX
    }

    /// The state once a freed buffer has been filed and before anything is
    /// given back. While capturing it is parked, otherwise it can be served.
    pub open spec fn filed(self, bytes: usize, ptr: u64) -> CacheView {
        let retained = self.cached_bytes + bytes as nat;
        CacheView {
            free: if self.capturing {
                self.free
            } else {
                self.free.insert(
                    bytes,
                    ClassView {
                        ptrs: stack_at(self.free, bytes).push(ptr),
                        tick: (self.tick + 1) as u64,
                    },
                )
            },
            deferred: if self.capturing {
                self.deferred.push((bytes, ptr))
            } else {
                self.deferred
            },
            cached_bytes: retained,
            cached_buffers: self.cached_buffers + 1,
            tick: self.tick + 1,
            puts: self.puts + 1,
            high_water_bytes: larger(self.high_water_bytes, retained),
            ..self
        }
    }

    /// The counters have room for a freed buffer of `bytes` at `ptr`.
    pub open spec fn put_fits(self, bytes: usize, ptr: u64) -> bool {
        &&& self.tick < u64::MAX
        &&& self.cached_bytes + bytes <= usize::MAX
        &&& self.cached_buffers < usize::MAX
        &&& self.evicted + self.filed(bytes, ptr).victims().len() <= u64::MAX
    }

    /// The counters have room for a freed buffer of `bytes` even if everything
    /// held has to be given back for it.
    pub open spec fn put_room(self, bytes: usize) -> bool {
        &&& self.tick < u64::MAX
        &&& self.cached_bytes + bytes <= usize::MAX
        &&& self.cached_buffers < usize::MAX
        &&& self.evicted + self.cached_buffers + 1 <= u64::MAX
    }

    /// The counters have room for a sweep that gives back everything held.
    pub open spec fn sweep_room(self) -> bool {
        self.evicted + self.cached_buffers <= u64::MAX
    }

    /// More is retained than the cap allows, and it may be given back. Nothing
    /// is given back while capturing, and the largest cap is no cap.
    pub open spec fn over_capacity(self) -> bool {
        self.capacity != usize::MAX && self.cached_bytes > self.capacity && !self.capturing
    }

    /// Where a sweep stops: seven eighths of the cap.
    pub open spec fn low_water(self) -> nat {
        self.capacity as nat / 8 * 7
    }

    /// The buffers that a sweep gives back: from the front of the eviction
    /// queue, as few as bring retention down to the low-water mark.
    pub open spec fn victims(self) -> Seq<(usize, u64)> {
        if self.over_capacity() {
            let q = lru::eviction_queue(self.free);
            q.take(lru::excess_len(q, self.cached_bytes as int, self.low_water() as int) as int)
        } else {
            Seq::empty()
        }
    }

    /// The state after the buffers in `gone` have been given back.
    pub open spec fn without(self, gone: Seq<(usize, u64)>) -> CacheView {
        CacheView {
            free: lru::pool_after(self.free, gone),
            cached_bytes: (self.cached_bytes - lru::bytes_in(gone)) as nat,
            cached_buffers: (self.cached_buffers - gone.len()) as nat,
            evicted: self.evicted + gone.len(),
            evicted_at_demand_size: self.evicted_at_demand_size + lru::number_within(
                gone,
                self.demand.dom(),
            ),
            ..self
        }
    }

    /// The state after a sweep.
    pub open spec fn swept(self) -> CacheView {
        if self.over_capacity() {
            self.without(self.victims())
        } else {
            self
        }
    }

    /// The state after everything held has been given back. The open window is
    /// dropped; the demand profile and the miss ledger stay.
    pub open spec fn emptied(self) -> CacheView {
        CacheView {
            capturing: false,
            window: Map::empty(),
            free: Map::empty(),
            deferred: Seq::empty(),
            drained: self.drained + self.cached_buffers,
            cached_bytes: 0,
            cached_buffers: 0,
            ..self
        }
    }

    /// `out` lists everything held: the stacks one after the other, in some
    /// order of the sizes, then the parked buffers.
    pub open spec fn lists_all(self, out: Seq<(usize, u64)>) -> bool {
        exists|sizes: Seq<usize>| #[trigger]
            tally::enumerates(sizes, self.free.dom()) && out == stacks_of(self.free, sizes)
                + self.deferred
    }

    /// The state after the open window has been folded into the demand profile:
    /// at each size the larger of the two.
    pub open spec fn folded(self) -> CacheView {
        CacheView {
            window: Map::empty(),
            demand: Map::new(
                |b: usize| self.demand.contains_key(b) || self.window.contains_key(b),
                |b: usize| larger(tally::count_of(self.demand, b), tally::count_of(self.window, b)),
            ),
            ..self
        }
    }

    /// The profile asks for `slack` more than its demand of size `bytes`, and
    /// the pool holds fewer.
    pub open spec fn short_of(self, bytes: usize, slack: usize) -> bool {
        &&& bytes > 0
        &&& self.demand.contains_key(bytes)
        &&& self.demand[bytes] + slack > stack_at(self.free, bytes).len()
    }

    /// `plan` lists every size that is short, once, with what is missing.
    pub open spec fn is_plan(self, slack: usize, plan: Seq<(usize, usize)>) -> bool {
        &&& forall|i: int, j: int|
            0 <= i < j < plan.len() ==> (#[trigger] plan[i]).0 != (#[trigger] plan[j]).0
        &&& forall|i: int|
            0 <= i < plan.len() ==> {
                &&& self.short_of((#[trigger] plan[i]).0, slack)
                &&& plan[i].1 == self.demand[plan[i].0] + slack - stack_at(
                    self.free,
                    plan[i].0,
                ).len()
            }
        &&& forall|b: usize| #[trigger]
            self.short_of(b, slack) ==> exists|i: int|
                0 <= i < plan.len() && (#[trigger] plan[i]).0 == b
    }

    /// The wanted numbers can be written down.
    pub open spec fn plan_fits(self, slack: usize) -> bool {
        forall|b: usize| #[trigger]
            self.demand.contains_key(b) ==> self.demand[b] + slack <= usize::MAX
    }

    /// The state after buffers fresh from the driver have been filed at `bytes`.
    /// Nothing is given back, whatever the cap says.
    pub open spec fn installed(self, bytes: usize, ptrs: Seq<u64>) -> CacheView {
        let retained = self.cached_bytes + bytes as nat * ptrs.len();
        if ptrs.len() == 0 {
            self
        } else {
            CacheView {
                free: self.free.insert(
                    bytes,
                    ClassView {
                        ptrs: stack_at(self.free, bytes) + ptrs,
                        tick: (self.tick + 1) as u64,
                    },
                ),
                cached_bytes: retained,
                cached_buffers: self.cached_buffers + ptrs.len(),
                tick: self.tick + 1,
                prewarmed: self.prewarmed + ptrs.len(),
                high_water_bytes: larger(self.high_water_bytes, retained),
                ..self
            }
        }
    }

    /// The counters have room for `n` buffers fresh from the driver.
    pub open spec fn install_fits(self, bytes: usize, n: nat) -> bool {
        n > 0 ==> {
            &&& self.tick < u64::MAX
            &&& self.cached_bytes + bytes as nat * n <= usize::MAX
            &&& self.cached_buffers + n <= usize::MAX
            &&& self.prewarmed + n <= u64::MAX
        }
    }

    /// The state after the parked buffers have gone back to the free pool, each
    /// on top of the stack of its size, in the order of arrival.
    pub open spec fn released(self) -> CacheView {
        CacheView {
            free: pool_with(self.free, self.deferred, (self.tick + 1) as u64),
            deferred: Seq::empty(),
            tick: self.tick + 1,
            ..self
        }
    }
}

/// The words of the model: the stack of a size is what the pool has under it, and empty
/// where it has nothing; the larger of two numbers is one of them and at least both.
pub proof fn law_words_of_the_model(
    free: Map<usize, ClassView>,
    deferred: Seq<(usize, u64)>,
    bytes: usize,
    a: nat,
    b: nat,
)
    ensures
        free.contains_key(bytes) ==> stack_at(free, bytes) == free[bytes].ptrs,
        !free.contains_key(bytes) ==> stack_at(free, bytes).len() == 0,
        larger(a, b) >= a,
        larger(a, b) >= b,
        larger(a, b) == a || larger(a, b) == b,
        lru::stocked(free, bytes) <==> free.contains_key(bytes) && free[bytes].ptrs.len() > 0,
        parked_at(deferred, bytes) == deferred.filter(
            |x: (usize, u64)| x.0 == bytes,
        ).map_values(|x: (usize, u64)| x.1),
{
    lemma_parked_filter(deferred, bytes);
}

} // verus!
