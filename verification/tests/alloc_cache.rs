//! The caching allocator, without a device: byte counts and address values.
use cuda_device::{bucket_index, AllocCache, SUBCLASSES};

/// Addresses are opaque to the cache, so a counter stands in for the driver.
fn cache(capacity: usize) -> AllocCache {
    let mut c = AllocCache::default(None);
    c.set_enabled(true);
    c.set_capacity(capacity);
    c
}

const UNBOUNDED: usize = usize::MAX;

fn lookup(list: &[(usize, usize)], bytes: usize) -> Option<usize> {
    list.iter().find(|(b, _)| *b == bytes).map(|(_, n)| *n)
}

#[test]
fn a_put_then_a_take_of_the_same_size_is_a_hit() {
    let mut c = cache(UNBOUNDED);
    assert!(c.put(4096, 0x1000).is_empty());
    assert_eq!(c.take(4096), Some(0x1000));
    let s = c.stats();
    assert_eq!((s.hits, s.misses, s.puts), (1, 0, 1));
    assert_eq!(s.cached_bytes, 0, "the buffer left the cache");
}

#[test]
fn a_different_size_is_never_served() {
    let mut c = cache(UNBOUNDED);
    c.put(4096, 0x1000);
    assert_eq!(c.take(4097), None, "must not serve a larger request");
    assert_eq!(c.take(4095), None, "must not serve a smaller request");
    assert_eq!(c.take(8192), None);
    assert_eq!(c.stats().misses, 3);
    // The buffer is still there, untouched, for its own size.
    assert_eq!(c.take(4096), Some(0x1000));
}

#[test]
fn unbounded_growing_sizes_retain_everything_and_free_nothing() {
    let mut c = cache(UNBOUNDED);
    let mut expect = 0usize;
    for step in 0..500u64 {
        let bytes = 65536 + step as usize * 8192;
        assert_eq!(c.take(bytes), None, "a never-seen size cannot hit");
        c.put(bytes, 0x1_0000 + step);
        expect += bytes;
    }
    let s = c.stats();
    assert_eq!(s.frees(), 0, "this is the leak: nothing is ever freed");
    assert_eq!(s.cached_bytes, expect);
    assert_eq!(s.cached_buffers, 500);
    assert_eq!(c.recount(), (s.cached_bytes, s.cached_buffers));
}

#[test]
fn a_capped_cache_bounds_retention_and_frees() {
    const CAP: usize = 8 * 1024 * 1024;
    let mut c = cache(CAP);
    let mut freed = 0u64;
    let mut largest = 0usize;
    for step in 0..500u64 {
        let bytes = 65536 + step as usize * 8192;
        largest = largest.max(bytes);
        c.take(bytes);
        freed += c.put(bytes, 0x1_0000 + step).len() as u64;
        assert!(
            c.stats().cached_bytes <= CAP,
            "retention passed the cap at step {step}: {} > {CAP}",
            c.stats().cached_bytes
        );
    }
    let s = c.stats();
    assert!(s.frees() > 0, "frees must be non-zero once the cap bites");
    assert_eq!(s.frees(), freed, "every victim was handed to the caller");
    assert_eq!(s.evicted, freed);
    // A buffer is taken in before the sweep that makes room for it, so the peak
    // overshoots the cap by at most one allocation and never more.
    assert!(
        s.high_water_bytes <= CAP + largest,
        "peak {} exceeded cap {CAP} by more than one allocation ({largest})",
        s.high_water_bytes
    );
    assert!(s.high_water_bytes > CAP - largest, "the cap was actually reached");
    assert_eq!(c.recount(), (s.cached_bytes, s.cached_buffers));
}

#[test]
fn eviction_keeps_the_hot_size_and_drops_the_cold_ones() {
    const HOT: usize = 1024 * 1024;
    const CAP: usize = 4 * 1024 * 1024;
    let mut c = cache(CAP);
    c.put(HOT, 0xAAAA);
    let mut cold_max = 0;
    for step in 0..400u64 {
        // The hot buffer is taken and returned every step.
        let hot = c.take(HOT).expect("the hot size must stay resident");
        c.put(HOT, hot);
        // A cold, never-repeated size, small next to the cap.
        let cold = 4096 + step as usize * 512;
        cold_max = cold;
        c.take(cold);
        c.put(cold, 0x2_0000 + step);
    }
    assert!(HOT + cold_max < CAP / 8 * 7, "fixture must fit under low water");
    assert_eq!(c.stats().hits, 400, "every hot take hit");
    assert!(c.stats().evicted > 0, "the cold sizes were reclaimed");
    assert!(c.stats().cached_bytes <= CAP);
}

#[test]
fn zero_capacity_retains_nothing() {
    let mut c = cache(0);
    let victims = c.put(4096, 0x1000);
    assert_eq!(victims, vec![0x1000]);
    assert_eq!(c.stats().cached_bytes, 0);
    assert_eq!(c.stats().cached_buffers, 0);
    assert_eq!(c.take(4096), None);
}

#[test]
fn drain_returns_every_buffer_once_and_zeroes_the_accounting() {
    let mut c = cache(UNBOUNDED);
    for i in 0..64u64 {
        c.put(4096 + (i as usize % 8) * 512, 0x3_0000 + i);
    }
    c.set_capturing(true);
    for i in 0..16u64 {
        c.put(2048, 0x4_0000 + i);
    }
    let mut drained = c.drain_all();
    assert_eq!(drained.len(), 80, "64 free + 16 deferred");
    drained.sort_unstable();
    drained.dedup();
    assert_eq!(drained.len(), 80, "no pointer handed back twice");
    let s = c.stats();
    assert_eq!((s.cached_bytes, s.cached_buffers), (0, 0));
    assert_eq!(s.drained, 80);
    assert_eq!(c.recount(), (0, 0));
}

#[test]
fn capture_parks_buffers_and_never_evicts_them() {
    let mut c = cache(64 * 1024);
    c.set_capturing(true);
    for i in 0..64u64 {
        let victims = c.put(65536, 0x5_0000 + i);
        assert!(victims.is_empty(), "capture must not evict");
    }
    let s = c.stats();
    assert_eq!(s.cached_buffers, 64);
    assert_eq!(s.cached_bytes, 64 * 65536);
    assert!(s.cached_bytes > s.capacity_bytes, "over the cap, deliberately");
    assert_eq!(s.evicted, 0);
    // Nothing parked is reusable until capture ends.
    assert_eq!(c.take(65536), None);
}

#[test]
fn emptied_sizes_are_dropped_from_the_map() {
    let mut c = cache(1024 * 1024);
    for step in 0..2000u64 {
        let bytes = 4096 + step as usize * 512;
        c.put(bytes, 0x6_0000 + step);
    }
    let keys = c.free_counts().len();
    assert!(keys < 600, "the size map grew unbounded: {} keys", keys);
    assert_eq!(c.stats().size_classes, keys);
}

#[test]
fn size_classes_are_monotonic_and_few() {
    let mut last = 0;
    for bytes in [0usize, 1, 511, 512, 513, 640, 768, 1023, 1024, 1 << 20] {
        let b = bucket_index(bytes);
        assert!(b >= last, "not monotonic at {bytes}");
        last = b;
    }
    assert_eq!(bucket_index(0), bucket_index(511), "tiny is one class");
    assert!(bucket_index(512) > bucket_index(511));
    // 512..=usize::MAX spans 4 classes per octave, plus the tiny class.
    let top = bucket_index(usize::MAX);
    assert!(top < 256, "ladder is small and fixed: {top}");
    // 2000 distinct byte sizes stepping by 8 KiB from 64 KiB collapse to the
    // octaves they span: eight octaves, four classes each.
    let sizes: Vec<usize> = (0..2000).map(|s| 65536 + s * 8192).collect();
    assert!(*sizes.last().unwrap() < (1 << 24));
    let classes: std::collections::HashSet<usize> =
        sizes.iter().map(|s| bucket_index(*s)).collect();
    assert_eq!(classes.len(), 8 * SUBCLASSES, "one class per octave-quarter");
}

#[test]
fn the_demand_window_counts_hits_and_misses_alike() {
    let mut c = cache(UNBOUNDED);
    c.put(4096, 0x1000); // one buffer available, so take #1 hits
    c.set_capturing(true);
    c.take(4096); // hit
    c.take(4096); // miss
    c.take(4096); // miss
    c.set_capturing(false);
    c.close_capture_window();
    assert_eq!(
        lookup(&c.capture_alloc_demand(), 4096),
        Some(3),
        "3 allocations, not 2 misses"
    );
}

#[test]
fn windows_union_by_max_not_by_overwrite() {
    let mut c = cache(UNBOUNDED);
    // Window 1: size A twice, size B once.
    c.set_capturing(true);
    c.take(1024);
    c.take(1024);
    c.take(2048);
    c.set_capturing(false);
    c.close_capture_window();
    // Window 2: size A once, size C once. A must not drop to 1, B must survive
    // not being seen at all.
    c.set_capturing(true);
    c.take(1024);
    c.take(4096);
    c.set_capturing(false);
    c.close_capture_window();
    let demand = c.capture_alloc_demand();
    assert_eq!(lookup(&demand, 1024), Some(2), "max over windows, not last");
    assert_eq!(lookup(&demand, 2048), Some(1), "a size seen once survives");
    assert_eq!(lookup(&demand, 4096), Some(1));
}

#[test]
fn the_miss_ledger_is_scoped_by_reset_and_never_deduped() {
    let mut c = cache(UNBOUNDED);
    // A warm pass: everything misses, by design.
    c.set_capturing(true);
    for _ in 0..5 {
        c.take(8192);
    }
    c.set_capturing(false);
    c.close_capture_window();
    assert_eq!(c.capture_miss_count(), 5);
    // The caller scopes the ledger to the real capture.
    c.reset_capture_misses();
    assert_eq!(c.capture_miss_count(), 0);
    c.set_capturing(true);
    c.take(8192);
    c.take(8192);
    c.take(9999);
    assert_eq!(
        lookup(&c.capture_misses(), 8192),
        Some(2),
        "counted, not deduped"
    );
    assert_eq!(lookup(&c.capture_misses(), 9999), Some(1));
    assert_eq!(c.stats().capture_misses, 3);
}

#[test]
fn misses_outside_capture_do_not_reach_the_ledger() {
    let mut c = cache(UNBOUNDED);
    for i in 0..10u64 {
        c.take(4096 + i as usize);
    }
    assert_eq!(c.stats().misses, 10, "they are real driver allocations");
    assert_eq!(c.stats().capture_misses, 0, "but not capture misses");
}

#[test]
fn prewarm_installs_over_the_cap_without_evicting() {
    const CAP: usize = 64 * 1024;
    let mut c = cache(CAP);
    // A profile that does not fit: 8 sizes x 4 buffers x 64 KiB = 2 MiB.
    for i in 0..8usize {
        c.raise_demand(65536 + i * 8192, 4);
    }
    let plan = c.prewarm_plan(0);
    assert_eq!(plan.len(), 8);
    let mut installed = 0usize;
    let mut ptr = 0x10_0000u64;
    for (bytes, n) in plan {
        let ptrs: Vec<_> = (0..n)
            .map(|_| {
                ptr += 1;
                ptr
            })
            .collect();
        installed += ptrs.len();
        c.install_prewarmed(bytes, ptrs);
    }
    let s = c.stats();
    assert_eq!(installed, 32);
    assert_eq!(s.prewarmed, 32);
    assert_eq!(s.evicted, 0, "the pre-warm must not evict");
    assert_eq!(s.puts, 0, "a pre-warm is not a put");
    assert_eq!(s.misses, 0, "and not a miss");
    assert!(
        s.cached_bytes > s.capacity_bytes,
        "deliberately over the cap: {} <= {CAP}",
        s.cached_bytes
    );
    assert_eq!(c.recount(), (s.cached_bytes, s.cached_buffers));
    // Every profiled size can now be served exactly `demand` times.
    for i in 0..8usize {
        let bytes = 65536 + i * 8192;
        for k in 0..4 {
            assert!(c.take(bytes).is_some(), "size {bytes} short at {k}");
        }
    }
    assert_eq!(c.stats().hits, 32);
}

#[test]
fn the_cap_is_reimposed_by_the_first_ordinary_put_after_prewarm() {
    const CAP: usize = 64 * 1024;
    let mut c = cache(CAP);
    c.install_prewarmed(65536, (0..32u64).map(|i| 0x20_0000 + i).collect());
    assert!(c.stats().cached_bytes > CAP);
    let victims = c.put(4096, 0x30_0000);
    assert!(!victims.is_empty(), "the sweep ran");
    assert!(c.stats().cached_bytes <= CAP, "retention bounded again");
}

#[test]
fn eviction_at_a_profiled_size_is_counted_separately() {
    const CAP: usize = 64 * 1024;
    let mut c = cache(CAP);
    c.raise_demand(65536, 8);
    c.install_prewarmed(65536, (0..8u64).map(|i| 0x40_0000 + i).collect());
    assert_eq!(c.stats().evicted_at_demand_size, 0);
    c.put(4096, 0x50_0000);
    let s = c.stats();
    assert!(s.evicted > 0);
    assert_eq!(
        s.evicted_at_demand_size, s.evicted,
        "every victim came from the profiled size"
    );
}

#[test]
fn a_drain_discards_the_window_but_keeps_the_profile_and_the_ledger() {
    let mut c = cache(UNBOUNDED);
    c.set_capturing(true);
    c.take(1024); // window + ledger entry
    c.close_capture_window(); // profile now knows 1024
    c.set_capturing(true);
    c.take(2048); // an open window, mid-capture
    c.put(4096, 0x60_0000);
    let drained = c.drain_all();
    assert_eq!(drained.len(), 1);
    assert!(c.window_counts().is_empty(), "the open window is discarded");
    assert_eq!(
        lookup(&c.capture_alloc_demand(), 1024),
        Some(1),
        "the profile survives"
    );
    assert_eq!(
        c.capture_miss_count(),
        2,
        "the ledger survives; only reset_capture_misses clears it"
    );
    assert!(!c.capturing(), "drain leaves capture mode");
    assert_eq!(c.recount(), (0, 0));
}

#[test]
fn prewarm_is_idempotent_when_the_pool_already_covers_the_profile() {
    let mut c = cache(UNBOUNDED);
    c.raise_demand(4096, 3);
    let first = c.prewarm_plan(1);
    assert_eq!(first, vec![(4096, 4)], "demand 3 + slack 1");
    c.install_prewarmed(4096, vec![1, 2, 3, 4]);
    assert!(
        c.prewarm_plan(1).is_empty(),
        "a second pre-warm must allocate nothing"
    );
    assert_eq!(c.stats().prewarmed, 4);
}
