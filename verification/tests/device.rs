//! The device: what it asks of the driver.
use cuda_device::{
    arc_capture_clone_dtoh, arc_capture_dtoh_count, arc_capture_htod_retained,
    arc_capture_retain_host, retain_notice, CaptureCounters, CudaDevice, CudaError, CustomModules,
    DType, DeviceLocation, IdCounter, MissNotice, ModuleStore, Origin, PrewarmTally, ReadBack,
    RetainNotice,
};

fn device() -> CudaDevice<&'static str> {
    let mut ids = IdCounter::new();
    CudaDevice::new(&mut ids, 0, 3, None).0
}

fn caching() -> CudaDevice<&'static str> {
    let mut d = device();
    assert_eq!(d.set_alloc_cache_enabled(true), vec![]);
    d
}

const STORED: [(DType, usize); 10] = [
    (DType::U8, 1),
    (DType::U32, 4),
    (DType::I16, 2),
    (DType::I32, 4),
    (DType::I64, 8),
    (DType::BF16, 2),
    (DType::F16, 2),
    (DType::F32, 4),
    (DType::F64, 8),
    (DType::F8E4M3, 1),
];

const DUMMY: [DType; 4] = [DType::F6E2M3, DType::F6E3M2, DType::F4, DType::F8E8M0];

#[test]
fn devices_have_identifiers_of_their_own() {
    let mut ids = IdCounter::new();
    let (a, _) = CudaDevice::<u8>::new(&mut ids, 0, 0, None);
    let (b, _) = CudaDevice::<u8>::new_with_stream(&mut ids, 0, 0, None);
    assert_eq!(format!("{:?}", a.id()), "DeviceId(1)");
    assert_eq!(format!("{:?}", b.id()), "DeviceId(2)");
    assert!(a.same_device(&a));
    assert!(!a.same_device(&b));
}

#[test]
fn a_new_device_uses_the_default_stream() {
    let mut ids = IdCounter::new();
    let (d, setup) = CudaDevice::<u8>::new(&mut ids, 2, 5, Some("8"));
    assert!(!setup.own_stream);
    assert!(!setup.disable_event_tracking);
    assert_eq!(setup.workspace, None);
    assert_eq!(setup.seed, 299792458);
    assert_eq!(d.get_current_seed(), 299792458);
    assert_eq!(d.location(), DeviceLocation::Cuda { gpu_id: 2 });
    assert_eq!(d.module_count(), 5);
    assert!(!d.alloc_cache_enabled());
    assert!(!d.capture_mode());
    assert_eq!(d.alloc_cache_stats().capacity_bytes, 8 * 1024 * 1024);
}

#[test]
fn a_device_with_a_stream_can_be_captured() {
    let mut ids = IdCounter::new();
    let (d, setup) = CudaDevice::<u8>::new_with_stream(&mut ids, 1, 0, None);
    assert!(setup.own_stream);
    assert!(setup.disable_event_tracking);
    assert_eq!(setup.workspace, Some(32 * 1024 * 1024));
    assert_eq!(setup.seed, 299792458);
    assert_eq!(d.get_current_seed(), 299792458);
    assert_eq!(d.location(), DeviceLocation::Cuda { gpu_id: 1 });
}

#[test]
fn the_seed_is_kept() {
    let mut d = device();
    d.set_seed(42);
    assert_eq!(d.get_current_seed(), 42);
}

#[test]
fn a_cache_that_is_off_is_not_consulted() {
    let mut d = device();
    assert_eq!(d.cache_take(64), (None, MissNotice::Silent));
    assert_eq!(d.cache_put(64, 1), None);
    assert_eq!(d.alloc_cache_stats().misses, 0);
    assert_eq!(d.alloc_cache_stats().puts, 0);
}

#[test]
fn zero_bytes_never_reach_the_cache() {
    let mut d = caching();
    assert_eq!(d.cache_take(0), (None, MissNotice::Silent));
    assert_eq!(d.cache_put(0, 1), None);
    let a = d.alloc_slice::<u64>(0);
    assert_eq!((a.bytes, a.origin), (0, Origin::Driver));
    assert_eq!(d.alloc_cache_stats().misses, 0);
}

#[test]
fn switching_off_drains_the_cache() {
    let mut d = caching();
    assert_eq!(d.cache_put(64, 1), Some(vec![]));
    assert_eq!(d.cache_put(64, 2), Some(vec![]));
    assert_eq!(d.set_alloc_cache_enabled(true), vec![], "on again changes nothing");
    assert_eq!(d.set_alloc_cache_enabled(false), vec![1, 2]);
    assert!(!d.alloc_cache_enabled());
    assert_eq!(d.alloc_cache_stats().drained, 2);
    assert_eq!(d.alloc_cache_stats().cached_bytes, 0);
}

#[test]
fn only_the_first_miss_of_a_size_class_speaks() {
    let mut d = caching();
    assert_eq!(d.cache_take(512), (None, MissNotice::NewClass));
    assert_eq!(d.cache_take(513), (None, MissNotice::Silent));
    assert_eq!(d.cache_take(640), (None, MissNotice::NewClass));
    d.set_capture_mode(true, false);
    assert_eq!(d.cache_take(512), (None, MissNotice::Silent));
    assert_eq!(d.cache_take(768), (None, MissNotice::DuringCapture));
    assert_eq!(d.capture_miss_count(), 2, "the ledger counts what the log leaves out");
    assert_eq!(d.drain_alloc_cache_and_free(), vec![]);
    assert_eq!(d.cache_take(512), (None, MissNotice::NewClass), "forgotten by the drain");
}

#[test]
fn a_hit_is_silent() {
    let mut d = caching();
    d.cache_put(512, 7);
    assert_eq!(d.cache_take(512), (Some(7), MissNotice::Silent));
}

#[test]
fn a_put_over_the_cap_hands_victims_back() {
    let mut d = caching();
    assert_eq!(d.set_alloc_cache_capacity(1000), vec![]);
    assert_eq!(d.cache_put(600, 1), Some(vec![]));
    assert_eq!(d.cache_put(500, 2), Some(vec![1]));
    assert_eq!(d.alloc_cache_stats().cached_bytes, 500);
    assert_eq!(d.set_alloc_cache_capacity(400), vec![2]);
    assert_eq!(d.alloc_cache_stats().evicted, 2);
}

#[test]
fn capture_mode_parks_and_returns_buffers() {
    let mut d = caching();
    d.set_capture_mode(true, false);
    assert!(d.capture_mode());
    assert_eq!(d.cache_take(64), (None, MissNotice::DuringCapture));
    assert_eq!(d.cache_put(64, 9), Some(vec![]));
    assert_eq!(d.cache_take(64).0, None, "parked");
    d.set_capture_mode(false, false);
    assert!(!d.capture_mode());
    assert_eq!(d.capture_alloc_demand(), vec![(64, 2)]);
    assert_eq!(d.capture_misses(), vec![(64, 2)]);
    assert_eq!(d.alloc_cache_free_counts(), vec![(64, 1)]);
    assert_eq!(d.cache_take(64).0, Some(9));
    d.reset_capture_misses();
    assert_eq!(d.capture_miss_count(), 0);
}

#[test]
fn without_deferred_frees_capture_mode_does_nothing() {
    let mut d = caching();
    d.set_capture_mode(true, true);
    assert!(!d.capture_mode());
    d.cache_take(64);
    assert_eq!(d.capture_miss_count(), 0);
    assert_eq!(d.capture_alloc_demand(), vec![]);
}

#[test]
fn a_new_window_starts_empty() {
    let mut d = caching();
    d.set_capture_mode(true, false);
    d.cache_take(64);
    d.cache_take(64);
    d.set_capture_mode(true, false);
    d.cache_take(64);
    d.set_capture_mode(false, false);
    assert_eq!(d.capture_alloc_demand(), vec![(64, 1)]);
}

#[test]
fn leaving_capture_does_not_evict() {
    let mut d = caching();
    d.set_alloc_cache_capacity(100);
    d.set_capture_mode(true, false);
    d.cache_put(64, 1);
    d.cache_put(64, 2);
    d.set_capture_mode(false, false);
    assert_eq!(d.alloc_cache_stats().cached_bytes, 128);
    assert_eq!(d.alloc_cache_stats().evicted, 0);
    assert_eq!(d.over_cap(), Some((128, 100)));
    // The next put takes it back: 135 has to come down to 84.
    assert_eq!(d.cache_put(7, 3), Some(vec![2]));
    assert_eq!(d.over_cap(), None);
}

#[test]
fn the_protocol_makes_a_capture_free_of_allocations() {
    let mut d = caching();
    d.set_alloc_cache_capacity(300);
    let sizes = [64usize, 64, 200, 64];
    // A warm pass.
    d.set_capture_mode(true, false);
    for (i, bytes) in sizes.iter().enumerate() {
        assert_eq!(d.cache_take(*bytes).0, None);
        d.cache_put(*bytes, i as u64);
    }
    d.set_capture_mode(false, false);
    assert_eq!(d.drain_alloc_cache_and_free().len(), 4);
    // The pre-warm.
    let todo = d.prewarm_alloc_cache(1).expect("the cache is on");
    assert!(!todo.while_capturing);
    let mut tally = PrewarmTally { sizes: 0, buffers: 0 };
    let mut next = 100u64;
    for (bytes, n) in todo.plan {
        let made: Vec<u64> = (0..n as u64).map(|i| next + i).collect();
        next += n as u64;
        assert!(d.alloc_cache().can_install(bytes, n));
        d.file_prewarmed(&mut tally, bytes, made);
    }
    assert_eq!((tally.sizes, tally.buffers), (2, 6));
    assert_eq!(d.over_cap(), Some((656, 300)));
    assert_eq!(d.alloc_cache_stats().prewarmed, 6);
    assert!(d.prewarm_alloc_cache(1).unwrap().plan.is_empty());
    d.reset_capture_misses();
    // The capture.
    d.set_capture_mode(true, false);
    let mut served = Vec::new();
    for bytes in sizes {
        served.push(d.cache_take(bytes).0.expect("served from the pool"));
    }
    served.sort_unstable();
    served.dedup();
    assert_eq!(served.len(), 4, "every allocation has an address of its own");
    assert_eq!(d.capture_miss_count(), 0);
}

#[test]
fn a_prewarm_of_a_cache_that_is_off_does_nothing() {
    let mut d = caching();
    d.set_capture_mode(true, false);
    d.cache_take(64);
    assert!(d.prewarm_alloc_cache(0).unwrap().while_capturing);
    d.set_capture_mode(false, false);
    assert_eq!(d.prewarm_alloc_cache(0).unwrap().plan, vec![(64, 1)]);
    d.set_alloc_cache_enabled(false);
    assert!(d.prewarm_alloc_cache(0).is_none());
}

#[test]
fn allocations_count_bytes_and_reuse_exact_sizes() {
    let mut d = caching();
    let a = d.alloc_slice::<u32>(10);
    assert_eq!((a.len, a.bytes), (10, 40));
    assert_eq!((a.origin, a.zeroed), (Origin::Driver, false));
    assert_eq!(a.notice, MissNotice::NewClass);
    d.cache_put(40, 0xbeef);
    let b = d.alloc_zeros::<u8>(40);
    assert_eq!((b.len, b.bytes), (40, 40));
    assert_eq!((b.origin, b.zeroed), (Origin::Reused(0xbeef), true));
    assert_eq!(b.notice, MissNotice::Silent);
}

#[test]
fn storage_has_the_width_of_its_type() {
    for (dtype, width) in STORED {
        assert_eq!(dtype.elem_width(), Some(width));
        let mut d = caching();
        d.cache_put(6 * width, 77);
        let z = d.zeros_impl(6, dtype).unwrap();
        assert_eq!((z.len, z.bytes, z.zeroed), (6, 6 * width, true), "{dtype:?}");
        assert_eq!(z.origin, Origin::Reused(77));
        let u = d.alloc_uninit(6, dtype).unwrap();
        assert_eq!((u.len, u.bytes, u.zeroed), (6, 6 * width, false), "{dtype:?}");
        assert_eq!(u.origin, Origin::Driver);
    }
    assert_eq!(std::mem::size_of::<half::bf16>(), 2);
    assert_eq!(std::mem::size_of::<half::f16>(), 2);
    assert_eq!(std::mem::size_of::<float8::F8E4M3>(), 1);
    assert_eq!(std::mem::size_of::<f32>(), 4);
    assert_eq!(std::mem::size_of::<f64>(), 8);
}

#[test]
fn dummy_types_have_no_storage() {
    for dtype in DUMMY {
        let mut d = caching();
        assert_eq!(dtype.elem_width(), None);
        for r in [d.zeros_impl(6, dtype), d.alloc_uninit(6, dtype)] {
            match r {
                Err(CudaError::InternalError(text)) => {
                    assert_eq!(text, "Dummy types not supported in CUDA backend")
                }
                _ => panic!("{dtype:?} must be refused"),
            }
        }
        assert_eq!(d.alloc_cache_stats().misses, 0);
    }
}

#[test]
fn random_numbers_come_in_two_types() {
    for (dtype, width) in [(DType::F32, 4usize), (DType::F64, 8)] {
        let mut d = caching();
        let u = d.rand_uniform(7, dtype).unwrap();
        assert_eq!((u.len, u.bytes, u.zeroed), (7, 7 * width, false));
        // The generator wants an even number of normal values.
        let n = d.rand_normal(7, dtype).unwrap();
        assert_eq!((n.len, n.bytes, n.zeroed), (8, 8 * width, false));
        let n = d.rand_normal(8, dtype).unwrap();
        assert_eq!((n.len, n.bytes), (8, 8 * width));
        let n = d.rand_normal(0, dtype).unwrap();
        assert_eq!((n.len, n.bytes), (0, 0));
    }
    let mut d = caching();
    for dtype in STORED.iter().map(|(d, _)| *d).chain(DUMMY) {
        if dtype == DType::F32 || dtype == DType::F64 {
            continue;
        }
        for (r, name) in [
            (d.rand_uniform(7, dtype), "rand_uniform"),
            (d.rand_normal(7, dtype), "rand_normal"),
        ] {
            match r {
                Err(CudaError::UnsupportedDtype { dtype: refused, op }) => {
                    assert_eq!((refused, op), (dtype, name))
                }
                _ => panic!("{dtype:?} must be refused"),
            }
        }
    }
    assert_eq!(d.alloc_cache_stats().misses, 0);
}

#[test]
fn uploads_outside_capture_use_the_source_of_the_caller() {
    let mut d = caching();
    let mut counters = CaptureCounters::new();
    let data = vec![1u32, 2, 3];
    let copy = d.clone_htod(&mut counters, &data);
    assert_eq!((copy.allocation.len, copy.allocation.bytes), (3, 12));
    assert!(copy.source.is_none());
    assert!(d.memcpy_htod(&mut counters, &data).is_none());
    assert_eq!(arc_capture_htod_retained(&counters), (0, 0));
}

#[test]
fn uploads_inside_capture_retain_their_source() {
    let mut d = caching();
    let mut counters = CaptureCounters::new();
    d.set_capture_mode(true, false);
    let data = vec![1u32, 2, 3];
    let copy = d.clone_htod(&mut counters, &data);
    let kept = copy.source.expect("retained");
    assert_eq!(kept, &[1, 2, 3]);
    assert_ne!(kept.as_ptr(), data.as_ptr(), "a copy of its own");
    drop(data);
    assert_eq!(kept, &[1, 2, 3]);
    let info = d.htod_info(&mut counters, &[7u64, 8]);
    assert_eq!(info.source, Some(&[7u64, 8][..]));
    assert_eq!((info.allocation.len, info.allocation.bytes), (2, 16));
    let again = d.memcpy_htod(&mut counters, &[5u8]);
    assert_eq!(again, Some(&[5u8][..]));
    assert_eq!(arc_capture_htod_retained(&counters), (3, 12 + 16 + 1));
    assert_eq!(arc_capture_dtoh_count(&counters), 0);
}

#[test]
fn an_empty_source_is_not_counted() {
    let mut counters = CaptureCounters::new();
    let kept = arc_capture_retain_host::<u32>(&mut counters, &[]);
    assert!(kept.is_empty());
    assert_eq!(arc_capture_htod_retained(&counters), (0, 0));
    assert_eq!(retain_notice::<u32>(&[]), RetainNotice::Empty);
}

#[test]
fn bulk_uploads_are_noticed_and_retained() {
    let mib = vec![1u8; 1 << 20];
    assert_eq!(retain_notice(&mib), RetainNotice::Retained(1 << 20));
    let more = vec![3u8; (1 << 20) + 1];
    assert_eq!(retain_notice(&more), RetainNotice::Bulk((1 << 20) + 1));
    assert_eq!(retain_notice(&[1u32, 2, 3]), RetainNotice::Retained(12));
    let mut counters = CaptureCounters::new();
    assert_eq!(arc_capture_retain_host(&mut counters, &more), &more[..]);
    assert_eq!(arc_capture_htod_retained(&counters), (1, (1 << 20) + 1));
}

#[test]
fn host_storage_is_uploaded_or_refused_by_type() {
    let mut d = caching();
    let mut counters = CaptureCounters::new();
    let data = [1i64, 2];
    for r in [
        d.storage_from_slice(&mut counters, DType::I64, &data),
        d.storage_from_cpu_storage(&mut counters, DType::I64, &data),
        d.storage_from_cpu_storage_owned(&mut counters, DType::I64, &data),
    ] {
        match r {
            Ok(stored) => {
                assert_eq!(stored.dtype, DType::I64);
                let a = stored.copy.allocation;
                assert_eq!((a.len, a.bytes, a.zeroed), (2, 16, false));
                assert!(stored.copy.source.is_none());
            }
            Err(_) => panic!("integers have storage"),
        }
    }
    assert_eq!(d.alloc_cache_stats().misses, 3);
    for dtype in DUMMY {
        for (r, name) in [
            (d.storage_from_slice(&mut counters, dtype, &data), "storage_from_slice"),
            (
                d.storage_from_cpu_storage(&mut counters, dtype, &data),
                "storage_from_cpu_storage",
            ),
            (
                d.storage_from_cpu_storage_owned(&mut counters, dtype, &data),
                "storage_from_cpu_storage_owned",
            ),
        ] {
            match r {
                Err(CudaError::UnsupportedDtype { dtype: refused, op }) => {
                    assert_eq!((refused, op), (dtype, name))
                }
                _ => panic!("{dtype:?} must be refused"),
            }
        }
    }
    assert_eq!(d.alloc_cache_stats().misses, 3, "a refusal allocates nothing");
}

#[test]
fn read_backs_inside_capture_are_counted_and_redirected() {
    let mut d = caching();
    let mut counters = CaptureCounters::new();
    assert_eq!(arc_capture_clone_dtoh(&mut counters, &d), ReadBack::Direct);
    assert_eq!(arc_capture_dtoh_count(&counters), 0);
    d.set_capture_mode(true, false);
    assert_eq!(arc_capture_clone_dtoh(&mut counters, &d), ReadBack::Redirected);
    assert_eq!(arc_capture_clone_dtoh(&mut counters, &d), ReadBack::Redirected);
    assert_eq!(arc_capture_dtoh_count(&counters), 2);
    assert_eq!(arc_capture_htod_retained(&counters), (0, 0));
}

#[test]
fn modules_are_loaded_once() {
    let mut d = device();
    assert_eq!(d.get_or_load_func(1), None);
    d.keep_module(1, "affine");
    assert_eq!(d.get_or_load_func(1), Some(&"affine"));
    assert_eq!(d.get_or_load_func(0), None);
    assert_eq!(d.get_or_load_func(2), None);
    assert_eq!(d.get_or_load_custom_func("mine"), None);
    d.keep_custom_module("mine", "ptx");
    d.keep_custom_module("other", "ptx2");
    assert_eq!(d.get_or_load_custom_func("mine"), Some(&"ptx"));
    assert_eq!(d.get_or_load_custom_func("other"), Some(&"ptx2"));
    d.keep_custom_module("mine", "ptx3");
    assert_eq!(d.get_or_load_custom_func("mine"), Some(&"ptx3"));
    assert_eq!(d.get_or_load_custom_func("min"), None);
}

#[test]
fn module_stores_start_empty() {
    let store = ModuleStore::<u8>::new(4);
    assert_eq!(store.len(), 4);
    for i in 0..4 {
        assert_eq!(store.loaded(i), None);
    }
    assert_eq!(CustomModules::<u8>::new().loaded(""), None);
}

#[test]
fn the_log_of_misses_is_bounded_by_the_ladder() {
    let mut d = caching();
    let mut notices = 0;
    for k in 0..64u32 {
        for step in 0..40usize {
            let bytes = (1usize << k).saturating_add(step << k.saturating_sub(5));
            if d.cache_take(bytes).1 != MissNotice::Silent {
                notices += 1;
            }
        }
    }
    assert_eq!(notices, 221);
}

#[test]
fn a_prewarm_inside_a_capture_warms_nothing() {
    let mut d = caching();
    d.set_capture_mode(true, false);
    for _ in 0..3 {
        d.cache_take(4096);
    }
    d.set_capture_mode(false, false);
    assert_eq!(d.capture_alloc_demand(), vec![(4096, 3)]);
    d.set_capture_mode(true, false);
    let todo = d.prewarm_alloc_cache(0).expect("the cache is on");
    assert!(todo.while_capturing);
    assert!(todo.plan.is_empty());
    d.reset_capture_misses();
    assert_eq!(d.cache_take(4096).0, None, "still a miss");
    assert_eq!(d.capture_miss_count(), 1);
    assert_eq!(d.alloc_cache_stats().prewarmed, 0);
    d.set_capture_mode(false, false);
    assert_eq!(d.prewarm_alloc_cache(0).unwrap().plan, vec![(4096, 3)]);
}

#[test]
fn read_backs_are_counted_by_every_route() {
    let mut d = caching();
    let mut counters = CaptureCounters::new();
    d.clone_dtoh(&mut counters);
    d.memcpy_dtoh(&mut counters);
    assert_eq!(arc_capture_dtoh_count(&counters), 0);
    d.set_capture_mode(true, false);
    d.clone_dtoh(&mut counters);
    d.memcpy_dtoh(&mut counters);
    arc_capture_clone_dtoh(&mut counters, &d);
    assert_eq!(arc_capture_dtoh_count(&counters), 3);
    d.set_capture_mode(false, false);
    d.memcpy_dtoh(&mut counters);
    assert_eq!(arc_capture_dtoh_count(&counters), 3);
    assert_eq!(arc_capture_htod_retained(&counters), (0, 0));
}

#[test]
fn retained_sources_add_up() {
    let mut counters = CaptureCounters::new();
    arc_capture_retain_host(&mut counters, &[1u8, 2, 3]);
    arc_capture_retain_host::<u64>(&mut counters, &[]);
    arc_capture_retain_host(&mut counters, &[1u64]);
    arc_capture_retain_host(&mut counters, &[1u32, 2]);
    assert_eq!(arc_capture_htod_retained(&counters), (3, 3 + 8 + 8));
    assert_eq!(arc_capture_htod_retained(&counters), (3, 19), "reading changes nothing");
    assert_eq!(arc_capture_dtoh_count(&counters), 0);
}

#[test]
fn the_ledger_holds_the_capture_misses_since_the_reset() {
    let mut d = caching();
    d.cache_take(64);
    d.set_capture_mode(true, false);
    d.cache_take(64);
    d.cache_take(0);
    d.reset_capture_misses();
    d.cache_take(200);
    d.cache_take(100);
    d.cache_take(200);
    d.set_capture_mode(false, false);
    d.cache_take(300);
    d.drain_alloc_cache_and_free();
    d.set_capture_mode(true, false);
    d.cache_take(100);
    let list = d.capture_misses();
    assert_eq!(list, vec![(100, 2), (200, 2)]);
    assert_eq!(list.iter().map(|(_, n)| n).sum::<usize>(), 4);
    assert_eq!(d.capture_miss_count(), 4);
    assert_eq!(d.alloc_cache_stats().capture_misses, 4);
}

#[test]
fn owned_storage_is_made_like_storage_that_is_kept() {
    let mut counters = CaptureCounters::new();
    let data = [1u32, 2, 3];
    let mut a = caching();
    let mut b = caching();
    a.cache_put(12, 5);
    b.cache_put(12, 5);
    let kept = a.storage_from_cpu_storage(&mut counters, DType::U32, &data).ok().unwrap();
    let owned = b.storage_from_cpu_storage_owned(&mut counters, DType::U32, &data).ok().unwrap();
    assert_eq!(kept.dtype, owned.dtype);
    assert_eq!(kept.copy.allocation, owned.copy.allocation);
    assert_eq!(owned.copy.allocation.origin, Origin::Reused(5));
    assert!(kept.copy.source.is_none() && owned.copy.source.is_none());
    assert_eq!(a.alloc_cache_stats(), b.alloc_cache_stats());
}
