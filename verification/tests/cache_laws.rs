//! The laws of the allocator on concrete values.
use cuda_device::{AllocCache, AllocCacheStats};

fn bounded(capacity: usize) -> AllocCache {
    let mut c = AllocCache::new(capacity);
    c.set_enabled(true);
    c
}

#[test]
fn the_most_recently_freed_buffer_is_served_first() {
    let mut c = bounded(usize::MAX);
    c.put(64, 1);
    c.put(64, 2);
    c.put(128, 3);
    assert_eq!(c.take(64), Some(2));
    assert_eq!(c.take(64), Some(1));
    assert_eq!(c.take(64), None);
    assert_eq!(c.take(128), Some(3));
}

#[test]
fn victims_leave_stalest_size_first_and_from_the_top() {
    let mut c = bounded(1000);
    assert_eq!(c.put(100, 1), vec![]);
    assert_eq!(c.put(100, 2), vec![]);
    assert_eq!(c.put(300, 3), vec![]);
    assert_eq!(c.put(400, 4), vec![]);
    // A hit renews the size.
    assert_eq!(c.take(100), Some(2));
    assert_eq!(c.put(100, 5), vec![]);
    // 100 + 100 + 300 + 400 are held. Another 200 goes over the cap, and the
    // sweep goes down to 875: the 300 was used least recently.
    assert_eq!(c.put(200, 6), vec![3]);
    assert_eq!(c.stats().cached_bytes, 800);
    assert_eq!(c.free_counts(), vec![(100, 2), (200, 1), (400, 1)]);
    // 800 + 250: the 400 goes next.
    assert_eq!(c.put(250, 7), vec![4]);
    // 650 + 400: now the stack of 100, from the top, and no more than needed.
    assert_eq!(c.put(400, 8), vec![5, 1]);
    assert_eq!(c.stats().cached_bytes, 850);
    assert_eq!(c.stats().evicted, 4);
}

#[test]
fn sizes_with_one_stamp_leave_smallest_first() {
    let mut c = bounded(1000);
    c.set_capturing(true);
    c.put(300, 1);
    c.put(200, 2);
    c.put(400, 3);
    c.set_capturing(false);
    c.close_capture_window();
    c.release_deferred();
    // One stamp for all three. 900 + 450 has to come down to 875.
    assert_eq!(c.put(450, 4), vec![2, 1]);
    assert_eq!(c.stats().cached_bytes, 850);
}

#[test]
fn a_sweep_may_take_the_new_buffer_too() {
    let mut c = bounded(1000);
    c.put(500, 1);
    assert_eq!(c.put(2000, 2), vec![1, 2]);
    assert_eq!(c.stats().cached_bytes, 0);
    assert_eq!(c.stats().frees(), 2);
}

#[test]
fn the_working_set_survives_a_sweep() {
    let mut c = bounded(8000);
    for i in 0..10u64 {
        c.put(600 + i as usize, i);
    }
    c.put(1000, 100);
    c.put(1000, 101);
    assert_eq!(c.take(1000), Some(101));
    assert_eq!(c.take(1000), Some(100));
}

#[test]
fn lowering_the_cap_sweeps_down_to_the_low_water_mark() {
    let mut c = bounded(usize::MAX);
    for i in 0..10u64 {
        c.put(100 + i as usize, i);
    }
    c.set_capacity(800);
    assert!(c.can_sweep());
    let victims = c.evict_if_over_capacity();
    // 1045 held, 700 is the mark: 100 + 101 + 102 + 103 have to go.
    assert_eq!(victims, vec![0, 1, 2, 3]);
    assert_eq!(c.stats().cached_bytes, 639);
    assert_eq!(c.evict_if_over_capacity(), vec![]);
}

#[test]
fn every_buffer_is_accounted_for() {
    let mut c = bounded(4096);
    for i in 0..200u64 {
        let bytes = 64 + (i as usize * 37) % 900;
        if i % 3 == 0 {
            c.take(bytes);
        }
        c.put(bytes, i);
        if i % 50 == 49 {
            c.install_prewarmed(128, vec![1000 + i, 2000 + i]);
        }
    }
    let s = c.stats();
    assert_eq!(s.frees(), s.puts + s.prewarmed - s.hits - s.cached_buffers as u64);
    assert_eq!(s.driver_allocs(), s.misses + s.prewarmed);
    assert_eq!(c.recount(), (s.cached_bytes, s.cached_buffers));
    assert!(s.cached_bytes <= s.high_water_bytes);
    let drained = c.drain_all();
    assert_eq!(drained.len(), s.cached_buffers);
}

#[test]
fn every_buffer_that_comes_in_leaves_once() {
    let mut c = bounded(2000);
    let mut gone: Vec<u64> = Vec::new();
    for i in 0..100u64 {
        gone.extend(c.put(50 + (i as usize * 13) % 200, i));
        if i % 4 == 0 {
            gone.extend(c.take(50 + (i as usize * 13) % 200));
        }
    }
    gone.extend(c.drain_all());
    gone.sort_unstable();
    assert_eq!(gone, (0..100u64).collect::<Vec<_>>());
}

#[test]
fn a_capture_never_serves_a_buffer_twice() {
    let mut c = bounded(usize::MAX);
    c.put(64, 1);
    c.put(64, 2);
    c.set_capturing(true);
    let mut served = Vec::new();
    for _ in 0..5 {
        if let Some(p) = c.take(64) {
            served.push(p);
            c.put(64, p);
        }
    }
    assert_eq!(served, vec![2, 1]);
    assert_eq!(c.capture_miss_count(), 3);
    c.set_capturing(false);
    c.close_capture_window();
    c.release_deferred();
    // The parked buffers come back in the order in which they were freed.
    assert_eq!(c.take(64), Some(1));
    assert_eq!(c.take(64), Some(2));
}

#[test]
fn a_plan_leaves_out_what_the_pool_covers() {
    let mut c = bounded(usize::MAX);
    c.raise_demand(0, 5);
    c.raise_demand(100, 2);
    c.raise_demand(200, 3);
    c.raise_demand(300, 0);
    c.put(200, 1);
    c.put(100, 2);
    c.put(100, 3);
    assert_eq!(c.prewarm_plan(0), vec![(200, 2)]);
    let mut plan = c.prewarm_plan(1);
    plan.sort_unstable();
    assert_eq!(plan, vec![(100, 1), (200, 3), (300, 1)]);
}

#[test]
fn demand_is_raised_and_never_lowered() {
    let mut c = bounded(usize::MAX);
    c.raise_demand(100, 2);
    c.raise_demand(100, 1);
    assert_eq!(c.capture_alloc_demand(), vec![(100, 2)]);
    c.raise_demand(100, 7);
    assert_eq!(c.capture_alloc_demand(), vec![(100, 7)]);
}

#[test]
fn listings_are_sorted_by_size() {
    let mut c = bounded(usize::MAX);
    for bytes in [900usize, 100, 500, 300, 700] {
        c.put(bytes, bytes as u64);
        c.raise_demand(bytes, bytes / 100);
    }
    c.take(500);
    assert_eq!(c.free_counts(), vec![(100, 1), (300, 1), (500, 0), (700, 1), (900, 1)]);
    assert_eq!(
        c.capture_alloc_demand(),
        vec![(100, 1), (300, 3), (500, 5), (700, 7), (900, 9)]
    );
    assert_eq!(c.stats().size_classes, 4, "an empty stack is no size class");
    assert_eq!(c.stats().demand_sizes, 5);
    c.set_capturing(true);
    for bytes in [40usize, 10, 30, 10] {
        c.take(bytes);
    }
    assert_eq!(c.window_counts(), vec![(10, 2), (30, 1), (40, 1)]);
    assert_eq!(c.capture_misses(), vec![(10, 2), (30, 1), (40, 1)]);
    c.open_capture_window();
    assert_eq!(c.window_counts(), vec![]);
}

#[test]
fn installing_nothing_changes_nothing() {
    let mut c = bounded(usize::MAX);
    c.install_prewarmed(100, vec![]);
    assert_eq!(c.free_counts(), vec![]);
    assert_eq!(c.stats().prewarmed, 0);
}

#[test]
fn the_guards_tell_what_the_counters_can_take() {
    let mut c = bounded(usize::MAX);
    assert!(c.can_take(64) && c.can_put(64) && c.can_drain() && c.can_release());
    assert!(c.can_report() && c.can_plan(3) && c.can_install(64, 2));
    assert!(!c.can_install(usize::MAX, 2));
    c.put(64, 1);
    assert!(!c.can_put(usize::MAX));
    assert!(c.can_put(usize::MAX - 64));
    c.raise_demand(64, usize::MAX);
    assert!(c.can_plan(0));
    assert!(!c.can_plan(1));
    assert_eq!(c.cached_bytes(), 64);
    assert_eq!(c.capacity(), usize::MAX);
}

#[test]
fn counters_start_at_zero() {
    let s = AllocCacheStats::default();
    assert_eq!(s.frees(), 0);
    assert_eq!(s.driver_allocs(), 0);
    let fresh = AllocCache::new(0).stats();
    assert_eq!(fresh, s);
}

#[test]
fn the_high_water_mark_is_a_peak_that_was_reached() {
    let mut c = bounded(1000);
    c.put(600, 1);
    c.take(600);
    assert_eq!(c.stats().high_water_bytes, 600);
    c.put(900, 2);
    // Taken in at 900 + 700 before the sweep.
    c.put(700, 3);
    assert_eq!(c.stats().high_water_bytes, 1600);
    assert_eq!(c.stats().cached_bytes, 700);
    c.drain_all();
    assert_eq!(c.stats().high_water_bytes, 1600);
    c.install_prewarmed(400, vec![4, 5, 6, 7, 8]);
    assert_eq!(c.stats().high_water_bytes, 2000);
}

#[test]
fn a_hot_size_survives_a_cold_put() {
    let mut c = bounded(800);
    c.put(50, 1);
    c.put(300, 2);
    c.put(200, 3);
    // 550 + 300 has to come down to 700: the stale sizes go, the hot one stays.
    assert_eq!(c.put(301, 4), vec![1, 2]);
    assert_eq!(c.take(200), Some(3));
}
