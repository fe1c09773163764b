//! Counters for the caching allocator.
use crate::lru;
use crate::model::CacheView;
use crate::tally;
use vstd::prelude::*;

verus! {

/// Counters for the caching allocator. Every number here is a count of a real
/// driver call or a real retained byte; nothing is inferred.
#[derive(Debug, Clone, Copy, PartialEq, Eq, Structural)]
pub struct AllocCacheStats {
    /// Allocations served from the cache.
    pub hits: u64,
    /// Allocations that fell through to the driver while the cache was enabled.
    pub misses: u64,
    /// Buffers accepted into the cache instead of being freed.
    pub puts: u64,
    /// Buffers handed back to the driver by capacity eviction.
    pub evicted: u64,
    /// Buffers handed back to the driver by a drain.
    pub drained: u64,
    /// Buffers allocated straight from the driver by a pre-warm and filed into
    /// the cache: neither misses nor puts.
    pub prewarmed: u64,
    /// Eviction victims whose byte size is in the capture demand profile. Should
    /// be zero while an instantiated graph can still replay.
    pub evicted_at_demand_size: u64,
    /// Bytes currently retained, parked and pre-warmed buffers included.
    pub cached_bytes: usize,
    /// Buffers currently retained.
    pub cached_buffers: usize,
    /// Largest `cached_bytes` ever reached.
    pub high_water_bytes: usize,
    /// The cap. `usize::MAX` means unbounded.
    pub capacity_bytes: usize,
    /// Distinct sizes that currently hold a free buffer.
    pub size_classes: usize,
    /// Distinct byte sizes in the capture demand profile.
    pub demand_sizes: usize,
    /// Misses in the capture ledger since it was last cleared.
    pub capture_misses: usize,
}

impl AllocCacheStats {
    /// The numbers are those of the allocator `c`.
    pub open spec fn describes(self, c: CacheView) -> bool {
        &&& self.hits == c.hits
        &&& self.misses == c.misses
        &&& self.puts == c.puts
        &&& self.evicted == c.evicted
        &&& self.drained == c.drained
        &&& self.prewarmed == c.prewarmed
        &&& self.evicted_at_demand_size == c.evicted_at_demand_size
        &&& self.cached_bytes == c.cached_bytes
        &&& self.cached_buffers == c.cached_buffers
        &&& self.high_water_bytes == c.high_water_bytes
        &&& self.capacity_bytes == c.capacity
        &&& self.size_classes == lru::stocked_sizes(c.free).len()
        &&& self.demand_sizes == c.demand.dom().len()
        &&& self.capture_misses == tally::total(c.capture_misses)
    }

    /// Buffers returned to the driver, by any route.
    pub open spec fn freed(self) -> int {
        self.evicted + self.drained
    }

    /// Driver allocations that the cache caused.
    pub open spec fn from_driver(self) -> int {
        self.misses + self.prewarmed
    }

    /// Buffers returned to the driver, by any route.
    pub fn frees(&self) -> (n: u64)
        requires
            self.evicted + self.drained <= u64::MAX,
        ensures
            n == self.evicted + self.drained,
            n == self.freed(),
    {
        self.evicted + self.drained
    }

    /// Driver allocations that the cache caused: those that fell through it, and
    /// those that the pre-warm made on purpose.
    pub fn driver_allocs(&self) -> (n: u64)
        requires
            self.misses + self.prewarmed <= u64::MAX,
        ensures
            n == self.misses + self.prewarmed,
            n == self.from_driver(),
    {
        self.misses + self.prewarmed
    }
}

impl Default for AllocCacheStats {
    /// All counters at zero.
    fn default() -> (s: Self)
        ensures
            s == (AllocCacheStats {
                hits: 0,
                misses: 0,
                puts: 0,
                evicted: 0,
                drained: 0,
                prewarmed: 0,
                evicted_at_demand_size: 0,
                cached_bytes: 0,
                cached_buffers: 0,
                high_water_bytes: 0,
                capacity_bytes: 0,
                size_classes: 0,
                demand_sizes: 0,
                capture_misses: 0,
            }),
    {
        AllocCacheStats {
            hits: 0,
            misses: 0,
            puts: 0,
            evicted: 0,
            drained: 0,
            prewarmed: 0,
            evicted_at_demand_size: 0,
            cached_bytes: 0,
            cached_buffers: 0,
            high_water_bytes: 0,
            capacity_bytes: 0,
            size_classes: 0,
            demand_sizes: 0,
            capture_misses: 0,
        }
    }
}

/// What the counters of an allocator tell: each its own number; the sizes with a free
/// buffer and those of the profile are counted once each.
pub proof fn law_counters_tell_the_state(s: AllocCacheStats, c: CacheView)
    requires
        s.describes(c),
    ensures
        s.hits == c.hits,
        s.misses == c.misses,
        s.puts == c.puts,
        s.evicted == c.evicted,
        s.drained == c.drained,
        s.prewarmed == c.prewarmed,
        s.evicted_at_demand_size == c.evicted_at_demand_size,
        s.cached_bytes == c.cached_bytes,
        s.cached_buffers == c.cached_buffers,
        s.high_water_bytes == c.high_water_bytes,
        s.capacity_bytes == c.capacity,
        s.size_classes == Set::new(
            |b: usize| c.free.contains_key(b) && c.free[b].ptrs.len() > 0,
        ).len(),
        s.demand_sizes == c.demand.dom().len(),
        s.capture_misses == tally::total(c.capture_misses),
{
    assert(lru::stocked_sizes(c.free) =~= Set::new(
        |b: usize| c.free.contains_key(b) && c.free[b].ptrs.len() > 0,
    ));
}

/// The frees are what came in less what was served and what is still held. The driver
/// allocations and the hits are the requests and what was pre-warmed.
pub proof fn law_frees_and_allocations_balance(s: AllocCacheStats, c: CacheView)
    requires
        c.wf(),
        s.describes(c),
    ensures
        s.freed() == c.puts + c.prewarmed - c.hits - c.cached_buffers,
        s.from_driver() + c.hits == (c.hits + c.misses) + c.prewarmed,
{
}

} // verus!
