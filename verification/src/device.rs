//! The host side of a CUDA device.
//!
//! The device decides here what the driver is asked to do: whether an allocation
//! reuses a buffer or goes to the driver, whether a freed buffer is kept, which
//! buffers are handed back, what a capture records, and which modules have to be
//! loaded. The driver calls themselves are made by the caller, who acts on what
//! these methods return.
use crate::cache::AllocCache;
use crate::capture::{CaptureCounters, CopyEvent};
use crate::history;
use crate::history::Event;
use crate::ids::{DeviceId, IdCounter};
use crate::ladder;
use crate::lru;
use crate::model;
use crate::model::CacheView;
use crate::modules::{CustomModules, ModuleStore};
use crate::retention;
use crate::setting;
use crate::sorting;
use crate::stats::AllocCacheStats;
use crate::tally;
use vstd::layout;
use vstd::prelude::*;

verus! {

/// The seed of the random number generator of a new device.
pub const INITIAL_SEED: u64 = 299_792_458;

/// The matrix workspace of a device with its own stream: 32 MiB.
pub const WORKSPACE_BYTES: usize = 33_554_432;

/// Where a device is.
#[derive(Debug, Clone, Copy, PartialEq, Eq, Hash, Structural)]
pub enum DeviceLocation {
    Cuda { gpu_id: usize },
}

/// What a new device needs from the driver.
#[derive(Debug, Clone, Copy, PartialEq, Eq, Structural)]
pub struct DeviceSetup {
    /// A stream of its own in place of the default stream.
    pub own_stream: bool,
    /// No event tracking. Events are not needed on a single stream, and they
    /// break a capture.
    pub disable_event_tracking: bool,
    /// The bytes of a fixed matrix workspace, if it needs one. The workspace that
    /// the matrix library allocates by itself is not safe inside a capture.
    pub workspace: Option<usize>,
    /// The seed of the random number generator.
    pub seed: u64,
}

impl DeviceSetup {
    /// A device on the default stream.
    pub open spec fn shared() -> DeviceSetup {
        DeviceSetup {
            own_stream: false,
            disable_event_tracking: false,
            workspace: None,
            seed: INITIAL_SEED,
        }
    }

    /// A device that can be captured.
    pub open spec fn captured() -> DeviceSetup {
        DeviceSetup {
            own_stream: true,
            disable_event_tracking: true,
            workspace: Some(WORKSPACE_BYTES),
            seed: INITIAL_SEED,
        }
    }
}

/// Where the buffer of an allocation comes from.
#[derive(Debug, Clone, Copy, PartialEq, Eq, Structural)]
pub enum Origin {
    /// A buffer of the cache, by its address.
    Reused(u64),
    /// The driver.
    Driver,
}

/// What to say about a request that the cache could not serve.
#[derive(Debug, Clone, Copy, PartialEq, Eq, Structural)]
pub enum MissNotice {
    Silent,
    /// The first miss of its size class, outside capture.
    NewClass,
    /// The first miss of its size class, while capturing: the graph will be
    /// unstable.
    DuringCapture,
}

/// What an allocation amounts to.
#[derive(Debug, Clone, Copy, PartialEq, Eq, Structural)]
pub struct Allocation {
    /// The number of elements.
    pub len: usize,
    /// The number of bytes.
    pub bytes: usize,
    pub origin: Origin,
    /// The buffer has to be cleared.
    pub zeroed: bool,
    pub notice: MissNotice,
}

/// An upload into a buffer of its own.
pub struct HostCopy<T: 'static> {
    pub allocation: Allocation,
    /// The source to copy from in place of the caller's, if it has to outlive the
    /// caller's.
    pub source: Option<&'static [T]>,
}

/// What a pre-warm has to do.
pub struct Prewarm {
    /// How many buffers of each size to allocate.
    pub plan: Vec<(usize, usize)>,
    /// The pre-warm was asked for while capturing, where it warms nothing.
    pub while_capturing: bool,
}

/// What a pre-warm has done so far.
#[derive(Debug, Clone, Copy, PartialEq, Eq, Structural)]
pub struct PrewarmTally {
    /// Sizes topped up.
    pub sizes: usize,
    /// Buffers allocated.
    pub buffers: usize,
}

impl PrewarmTally {
    /// One more size with `n` buffers.
    pub open spec fn with_line(self, n: nat) -> PrewarmTally {
        PrewarmTally {
            sizes: (self.sizes + 1) as usize,
            buffers: (self.buffers + n) as usize,
        }
    }
}

/// How a read-back is done.
#[derive(Debug, Clone, Copy, PartialEq, Eq, Structural)]
pub enum ReadBack {
    /// Straight into the caller's memory.
    Direct,
    /// Into a buffer that is never freed: a capture is open, and the graph will
    /// write there on every replay. The caller's memory keeps no meaning.
    Redirected,
}

impl ReadBack {
    /// How a read-back is done, inside a capture and outside.
    pub open spec fn under(capturing: bool) -> ReadBack {
        if capturing {
            ReadBack::Redirected
        } else {
            ReadBack::Direct
        }
    }
}

impl CacheView {
    /// `p` is the answer to a pre-warm.
    pub open spec fn answers_prewarm(self, slack: usize, p: Option<Prewarm>) -> bool {
        match p {
            Some(p) => {
                &&& self.enabled
                &&& p.while_capturing == self.capturing
                &&& self.is_prewarm(slack, p.plan@)
            },
            None => !self.enabled,
        }
    }

    /// What is retained and the cap, if it is more than the cap.
    pub open spec fn overshoot(self) -> Option<(nat, nat)> {
        if self.cached_bytes > self.capacity {
            Some((self.cached_bytes, self.capacity as nat))
        } else {
            None
        }
    }

    /// What every method of a device keeps: the cache is well formed, buffers are
    /// parked only while capturing, the reported misses are classes of the ladder,
    /// and no window, profile or ledger knows the size zero.
    pub open spec fn owned_wf(self) -> bool {
        &&& self.wf()
        &&& self.deferred.len() > 0 ==> self.capturing
        &&& forall|k: usize| #[trigger] self.missed.contains(k) ==> k <= 220
        &&& !self.window.contains_key(0)
        &&& !self.demand.contains_key(0)
        &&& !self.capture_misses.contains_key(0)
    }

    /// The cache is asked for `bytes`: it is on, and there is something to ask for.
    pub open spec fn consults(self, bytes: usize) -> bool {
        bytes > 0 && self.enabled
    }

    /// The counters have room for an allocation of `bytes`.
    pub open spec fn alloc_fits(self, bytes: usize) -> bool {
        self.consults(bytes) ==> self.take_fits(bytes)
    }

    /// The buffer that an allocation of `bytes` reuses.
    pub open spec fn reuse(self, bytes: usize) -> Option<u64> {
        if self.consults(bytes) {
            self.answer(bytes)
        } else {
            None
        }
    }

    /// The state after an allocation of `bytes`. A miss leaves a note of its size
    /// class.
    pub open spec fn allocated(self, bytes: usize) -> CacheView {
        if !self.consults(bytes) {
            self
        } else if self.serves(bytes) {
            self.taken(bytes)
        } else {
            CacheView {
                missed: self.missed.insert(ladder::size_class(bytes as nat) as usize),
                ..self.taken(bytes)
            }
        }
    }

    /// What an allocation of `bytes` has to say: only the first miss of a size
    /// class speaks.
    pub open spec fn miss_notice(self, bytes: usize) -> MissNotice {
        if !self.consults(bytes) || self.serves(bytes) || self.missed.contains(
            ladder::size_class(bytes as nat) as usize,
        ) {
            MissNotice::Silent
        } else if self.capturing {
            MissNotice::DuringCapture
        } else {
            MissNotice::NewClass
        }
    }

    /// What an allocation of `len` elements of `width` bytes amounts to.
    pub open spec fn allocation(self, len: usize, width: usize, zeroed: bool) -> Allocation {
        let bytes = (len * width) as usize;
        Allocation {
            len,
            bytes,
            origin: match self.reuse(bytes) {
                Some(ptr) => Origin::Reused(ptr),
                None => Origin::Driver,
            },
            zeroed,
            notice: self.miss_notice(bytes),
        }
    }

    /// `plan` is what a pre-warm has to allocate: nothing inside a capture window,
    /// otherwise what the profile is short of.
    pub open spec fn is_prewarm(self, slack: usize, plan: Seq<(usize, usize)>) -> bool {
        if self.capturing {
            plan.len() == 0
        } else {
            self.is_plan(slack, plan)
        }
    }

    /// Capture mode begins: the window starts empty.
    pub open spec fn capture_begun(self) -> CacheView {
        CacheView { capturing: true, window: Map::empty(), ..self }
    }

    /// Capture mode ends: the window is folded into the profile and the parked
    /// buffers go back to the pool.
    pub open spec fn capture_ended(self) -> CacheView {
        (CacheView { capturing: false, ..self }).folded().released()
    }
}

/// The state of a device.
#[verifier::reject_recursive_types(M)]
pub struct DeviceView<M> {
    pub id: DeviceId,
    pub ordinal: usize,
    pub cache: CacheView,
    pub modules: Seq<Option<M>>,
    pub custom: Map<Seq<char>, M>,
    pub seed: u64,
}

impl<M> DeviceView<M> {
    /// What every method keeps: that of the cache as part of a device.
    pub open spec fn wf(self) -> bool {
        self.cache.owned_wf()
    }

    /// A new device.
    pub open spec fn made(
        id: DeviceId,
        ordinal: usize,
        n_modules: nat,
        capacity: usize,
    ) -> DeviceView<M> {
        DeviceView {
            id,
            ordinal,
            cache: CacheView::fresh(capacity),
            modules: Seq::new(n_modules, |i: int| None::<M>),
            custom: Map::empty(),
            seed: INITIAL_SEED,
        }
    }

    /// The state with another seed.
    pub open spec fn seeded(self, seed: u64) -> DeviceView<M> {
        DeviceView { seed, ..self }
    }

    /// The state with a built-in module.
    pub open spec fn with_module(self, index: int, module: M) -> DeviceView<M> {
        DeviceView { modules: self.modules.update(index, Some(module)), ..self }
    }

    /// The state with a custom module.
    pub open spec fn with_custom(self, name: Seq<char>, module: M) -> DeviceView<M> {
        DeviceView { custom: self.custom.insert(name, module), ..self }
    }

    /// The built-in module at `index`, if it is loaded.
    pub open spec fn module_at(self, index: int) -> Option<M> {
        self.modules[index]
    }

    /// The custom module of that name, if it is loaded.
    pub open spec fn custom_named(self, name: Seq<char>) -> Option<M> {
        if self.custom.contains_key(name) {
            Some(self.custom[name])
        } else {
            None
        }
    }

    /// The state with another cache.
    pub open spec fn with_cache(self, cache: CacheView) -> DeviceView<M> {
        DeviceView { cache, ..self }
    }
}

/// A CUDA device as the host sees it. `M` is the handle of a loaded module.
#[verifier::reject_recursive_types(M)]
pub struct CudaDevice<M> {
    id: DeviceId,
    ordinal: usize,
    modules: ModuleStore<M>,
    custom_modules: CustomModules<M>,
    seed_value: u64,
    alloc_cache: AllocCache,
}

impl<M> View for CudaDevice<M> {
    type V = DeviceView<M>;

    closed spec fn view(&self) -> DeviceView<M> {
        DeviceView {
            id: self.id,
            ordinal: self.ordinal,
            cache: self.alloc_cache@,
            modules: self.modules@,
            custom: self.custom_modules@,
            seed: self.seed_value,
        }
    }
}

impl<M> CudaDevice<M> {
    /// A device on the default stream, with its allocator switched off.
    /// `n_modules` is the number of built-in modules, `max_mb` the setting of the
    /// retention cap.
    pub fn new(
        ids: &mut IdCounter,
        ordinal: usize,
        n_modules: usize,
        max_mb: Option<&str>,
    ) -> (r: (Self, DeviceSetup))
        ensures
            r.0@.wf(),
            r.0@.id.number() == old(ids).upcoming(),
            final(ids).upcoming() == vstd::wrapping::usize_specs::wrapping_add(
                old(ids).upcoming(),
                1,
            ),
            r.0@.ordinal == ordinal,
            r.0@.cache == CacheView::fresh(setting::cap_of_setting(max_mb)),
            r.0@.modules == Seq::new(n_modules as nat, |i: int| None::<M>),
            r.0@.custom == Map::<Seq<char>, M>::empty(),
            r.0@.seed == INITIAL_SEED,
            r.0@ == DeviceView::<M>::made(
                r.0@.id,
                ordinal,
                n_modules as nat,
                setting::cap_of_setting(max_mb),
            ),
            r.1 == DeviceSetup::shared(),
            r.1 == (DeviceSetup {
                own_stream: false,
                disable_event_tracking: false,
                workspace: None,
                seed: INITIAL_SEED,
            }),
    {
        let device = CudaDevice {
            id: DeviceId::new(ids),
            ordinal,
            modules: ModuleStore::new(n_modules),
            custom_modules: CustomModules::new(),
            seed_value: INITIAL_SEED,
            alloc_cache: AllocCache::default(max_mb),
        };
        let setup = DeviceSetup {
            own_stream: false,
            disable_event_tracking: false,
            workspace: None,
            seed: INITIAL_SEED,
        };
        (device, setup)
    }

    /// A device on a stream of its own that can be captured: without event
    /// tracking and with a fixed matrix workspace.
    pub fn new_with_stream(
        ids: &mut IdCounter,
        ordinal: usize,
        n_modules: usize,
        max_mb: Option<&str>,
    ) -> (r: (Self, DeviceSetup))
        ensures
            r.0@.wf(),
            r.0@.id.number() == old(ids).upcoming(),
            final(ids).upcoming() == vstd::wrapping::usize_specs::wrapping_add(
                old(ids).upcoming(),
                1,
            ),
            r.0@.ordinal == ordinal,
            r.0@.cache == CacheView::fresh(setting::cap_of_setting(max_mb)),
            r.0@.modules == Seq::new(n_modules as nat, |i: int| None::<M>),
            r.0@.custom == Map::<Seq<char>, M>::empty(),
            r.0@.seed == INITIAL_SEED,
            r.0@ == DeviceView::<M>::made(
                r.0@.id,
                ordinal,
                n_modules as nat,
                setting::cap_of_setting(max_mb),
            ),
            r.1 == DeviceSetup::captured(),
            r.1 == (DeviceSetup {
                own_stream: true,
                disable_event_tracking: true,
                workspace: Some(WORKSPACE_BYTES),
                seed: INITIAL_SEED,
            }),
    {
        let (device, _) = CudaDevice::new(ids, ordinal, n_modules, max_mb);
        let setup = DeviceSetup {
            own_stream: true,
            disable_event_tracking: true,
            workspace: Some(WORKSPACE_BYTES),
            seed: INITIAL_SEED,
        };
        (device, setup)
    }

    pub fn id(&self) -> (id: DeviceId)
        ensures
            id == self@.id,
    {
        self.id
    }

    /// Where the device is.
    pub fn location(&self) -> (l: DeviceLocation)
        ensures
            l == (DeviceLocation::Cuda { gpu_id: self@.ordinal }),
    {
        DeviceLocation::Cuda { gpu_id: self.ordinal }
    }

    /// Both are the same device.
    pub fn same_device(&self, rhs: &Self) -> (b: bool)
        ensures
            b == (self@.id == rhs@.id),
    {
        self.id == rhs.id
    }

    /// Note the seed of the generator that has been made in place of the old one.
    pub fn set_seed(&mut self, seed: u64)
        ensures
            final(self)@ == (DeviceView { seed, ..old(self)@ }),
            final(self)@ == old(self)@.seeded(seed),
    {
        self.seed_value = seed;
    }

    pub fn get_current_seed(&self) -> (seed: u64)
        ensures
            seed == self@.seed,
    {
        self.seed_value
    }

    /// The caching allocator.
    pub fn alloc_cache(&self) -> (cache: &AllocCache)
        ensures
            cache@ == self@.cache,
    {
        &self.alloc_cache
    }

    /// Switch the caching allocator on or off. Switching it off drains it; the
    /// result lists the buffers to hand back to the driver.
    pub fn set_alloc_cache_enabled(&mut self, enabled: bool) -> (drained: Vec<u64>)
        requires
            old(self)@.wf(),
            !enabled ==> old(self)@.cache.drained + old(self)@.cache.cached_buffers <= u64::MAX,
        ensures
            final(self)@.wf(),
            final(self)@ == old(self)@.with_cache(
                history::happens(old(self)@.cache, Event::Enable(enabled)),
            ),
            enabled ==> drained@.len() == 0 && final(self)@ == old(self)@.with_cache(
                (CacheView { enabled: true, ..old(self)@.cache }),
            ),
            !enabled ==> final(self)@ == old(self)@.with_cache(
                (CacheView { enabled: false, ..old(self)@.cache.emptied() }),
            ),
            !enabled ==> exists|bufs: Seq<(usize, u64)>| #[trigger]
                old(self)@.cache.lists_all(bufs) && drained@ == lru::ptrs_of(bufs),
    {
        self.alloc_cache.set_enabled(enabled);
        if enabled {
            Vec::new()
        } else {
            let ghost off = self.alloc_cache@;
            let drained = self.alloc_cache.drain_all();
            proof {
                let bufs = choose|bufs: Seq<(usize, u64)>| #[trigger]
                    off.lists_all(bufs) && drained@ == lru::ptrs_of(bufs);
                assert(old(self)@.cache.lists_all(bufs));
            }
            drained
        }
    }

    pub fn alloc_cache_enabled(&self) -> (b: bool)
        ensures
            b == self@.cache.enabled,
    {
        self.alloc_cache.enabled()
    }

    /// Counters of the caching allocator.
    pub fn alloc_cache_stats(&self) -> (s: AllocCacheStats)
        requires
            self@.wf(),
            tally::total(self@.cache.capture_misses) <= usize::MAX,
        ensures
            s.describes(self@.cache),
    {
        self.alloc_cache.stats()
    }

    /// Set the retention cap in bytes; `usize::MAX` is no cap. A cap below what is
    /// retained evicts at once; the result lists the victims to hand back.
    pub fn set_alloc_cache_capacity(&mut self, capacity_bytes: usize) -> (victims: Vec<u64>)
        requires
            old(self)@.wf(),
            old(self)@.cache.evicted + (CacheView {
                capacity: capacity_bytes,
                ..old(self)@.cache
            }).victims().len() <= u64::MAX,
        ensures
            final(self)@.wf(),
            ({
                let capped = CacheView { capacity: capacity_bytes, ..old(self)@.cache };
                &&& victims@ == lru::ptrs_of(capped.victims())
                &&& final(self)@ == old(self)@.with_cache(capped.swept())
            }),
            final(self)@ == old(self)@.with_cache(
                history::happens(old(self)@.cache, Event::Capacity(capacity_bytes)),
            ),
            !old(self)@.cache.capturing ==> final(self)@.cache.cached_bytes <= capacity_bytes,
    {
        proof {
            self.alloc_cache.lemma_counters_fit();
            if !self@.cache.capturing {
                retention::law_a_new_cap_applies_at_once(self@.cache, capacity_bytes);
            }
        }
        self.alloc_cache.set_capacity(capacity_bytes);
        self.alloc_cache.evict_if_over_capacity()
    }

    /// Drain the cache while the pool that its buffers came from is still alive.
    /// The result lists the buffers to hand back to the driver.
    ///
    /// Parked buffers are drained with the pooled ones: the cache does not record
    /// which memory pool a buffer came from. Call this before the pool is
    /// destroyed, and only when no captured graph can still replay.
    pub fn drain_alloc_cache_and_free(&mut self) -> (drained: Vec<u64>)
        requires
            old(self)@.wf(),
            old(self)@.cache.drained + old(self)@.cache.cached_buffers <= u64::MAX,
        ensures
            final(self)@.wf(),
            final(self)@ == old(self)@.with_cache(
                (CacheView { missed: Set::empty(), ..old(self)@.cache.emptied() }),
            ),
            final(self)@ == old(self)@.with_cache(
                history::happens(old(self)@.cache, Event::Drain),
            ),
            exists|bufs: Seq<(usize, u64)>| #[trigger]
                old(self)@.cache.lists_all(bufs) && drained@ == lru::ptrs_of(bufs),
    {
        self.alloc_cache.forget_missed();
        let ghost c = self.alloc_cache@;
        let drained = self.alloc_cache.drain_all();
        proof {
            let bufs = choose|bufs: Seq<(usize, u64)>| #[trigger]
                c.lists_all(bufs) && drained@ == lru::ptrs_of(bufs);
            assert(old(self)@.cache.lists_all(bufs));
        }
        drained
    }

    /// Enter or leave capture mode.
    ///
    /// While capturing, freed buffers are parked; leaving returns them to the
    /// pool, without eviction even over the cap, because inside the capture
    /// protocol a drain must be the only thing that hands buffers back. The window
    /// of the demand profile opens and closes here; the miss ledger does not
    /// change.
    ///
    /// With `no_deferred_free` this does nothing at all, so that neither the
    /// profile nor the ledger sees the capture.
    pub fn set_capture_mode(&mut self, capturing: bool, no_deferred_free: bool)
        requires
            old(self)@.wf(),
            !capturing && !no_deferred_free ==> old(self)@.cache.tick < u64::MAX,
        ensures
            final(self)@.wf(),
            no_deferred_free ==> final(self)@ == old(self)@,
            !no_deferred_free ==> final(self)@ == old(self)@.with_cache(
                history::happens(old(self)@.cache, Event::Capture(capturing)),
            ),
            !no_deferred_free && capturing ==> final(self)@ == old(self)@.with_cache(
                old(self)@.cache.capture_begun(),
            ),
            !no_deferred_free && !capturing ==> final(self)@ == old(self)@.with_cache(
                old(self)@.cache.capture_ended(),
            ),
    {
        if no_deferred_free {
            return ;
        }
        self.alloc_cache.set_capturing(capturing);
        if capturing {
            self.alloc_cache.open_capture_window();
        } else {
            self.alloc_cache.close_capture_window();
            self.alloc_cache.release_deferred();
        }
    }

    pub fn capture_mode(&self) -> (b: bool)
        ensures
            b == self@.cache.capturing,
    {
        self.alloc_cache.capturing()
    }

    /// The largest number of allocations of each size in any capture window so
    /// far, sorted by size.
    pub fn capture_alloc_demand(&self) -> (list: Vec<(usize, usize)>)
        ensures
            sorting::is_listing(list@, self@.cache.demand),
    {
        self.alloc_cache.capture_alloc_demand()
    }

    /// Clear the miss ledger. The one place for this is after the pre-warm and
    /// before capture mode is entered for the real capture: earlier, and the
    /// ledger carries the misses of the warm passes; later, and real misses are
    /// lost.
    pub fn reset_capture_misses(&mut self)
        requires
            old(self)@.wf(),
        ensures
            final(self)@.wf(),
            final(self)@ == old(self)@.with_cache(
                (CacheView { capture_misses: Map::empty(), ..old(self)@.cache }),
            ),
            final(self)@ == old(self)@.with_cache(
                history::happens(old(self)@.cache, Event::ResetMisses),
            ),
    {
        self.alloc_cache.reset_capture_misses();
    }

    /// The misses taken while capturing since the last reset, sorted by size.
    pub fn capture_misses(&self) -> (list: Vec<(usize, usize)>)
        requires
            self@.wf(),
        ensures
            sorting::is_listing(list@, self@.cache.capture_misses),
            forall|i: int| 0 <= i < list@.len() ==> (#[trigger] list@[i]).1 >= 1,
    {
        self.alloc_cache.capture_misses()
    }

    /// The number of misses taken while capturing since the last reset. If it is
    /// not zero after a capture, the graph must not be instantiated.
    pub fn capture_miss_count(&self) -> (n: usize)
        requires
            tally::total(self@.cache.capture_misses) <= usize::MAX,
        ensures
            n == tally::total(self@.cache.capture_misses),
    {
        self.alloc_cache.capture_miss_count()
    }

    /// The free buffers of each size, sorted by size.
    pub fn alloc_cache_free_counts(&self) -> (list: Vec<(usize, usize)>)
        ensures
            sorting::is_listing(list@, model::class_lens(self@.cache.free)),
    {
        self.alloc_cache.free_counts()
    }

    /// What a pre-warm has to allocate, straight from the driver, so that every
    /// size of the demand profile can be served its demand and `slack` more.
    /// `None` if the allocator is switched off: there is nothing to do. Inside a
    /// capture window a pre-warm warms nothing, and the plan is empty.
    pub fn prewarm_alloc_cache(&self, slack: usize) -> (p: Option<Prewarm>)
        requires
            self@.wf(),
            self@.cache.enabled ==> self@.cache.plan_fits(slack),
        ensures
            self@.cache.answers_prewarm(slack, p),
            p.is_some() <==> self@.cache.enabled,
            p matches Some(p) ==> p.while_capturing == self@.cache.capturing,
            p matches Some(p) ==> self@.cache.is_prewarm(slack, p.plan@),
            p matches Some(p) ==> (self@.cache.capturing ==> p.plan@.len() == 0),
            p matches Some(p) ==> (!self@.cache.capturing ==> self@.cache.is_plan(
                slack,
                p.plan@,
            )),
    {
        if !self.alloc_cache.enabled() {
            return None;
        }
        if self.alloc_cache.capturing() {
            return Some(Prewarm { plan: Vec::new(), while_capturing: true });
        }
        Some(Prewarm { plan: self.alloc_cache.prewarm_plan(slack), while_capturing: false })
    }

    /// File the buffers that were allocated for one line of a pre-warm.
    pub fn file_prewarmed(&mut self, tally: &mut PrewarmTally, bytes: usize, made: Vec<u64>)
        requires
            old(self)@.wf(),
            old(self)@.cache.install_fits(bytes, made@.len()),
            old(tally).sizes < usize::MAX,
            old(tally).buffers + made@.len() <= usize::MAX,
        ensures
            final(self)@.wf(),
            final(self)@ == old(self)@.with_cache(old(self)@.cache.installed(bytes, made@)),
            final(self)@ == old(self)@.with_cache(
                history::happens(old(self)@.cache, Event::Prewarmed(bytes, made@)),
            ),
            *final(tally) == old(tally).with_line(made@.len()),
    {
        tally.buffers = tally.buffers + made.len();
        tally.sizes = tally.sizes + 1;
        self.alloc_cache.install_prewarmed(bytes, made);
    }

    /// What is retained and the cap, if a pre-warm left more than the cap.
    pub fn over_cap(&self) -> (r: Option<(usize, usize)>)
        requires
            self@.wf(),
        ensures
            r.is_some() <==> self@.cache.overshoot().is_some(),
            r matches Some((bytes, cap)) ==> self@.cache.overshoot() == Some(
                (bytes as nat, cap as nat),
            ),
            r.is_some() <==> self@.cache.cached_bytes > self@.cache.capacity,
            r matches Some((bytes, cap)) ==> bytes == self@.cache.cached_bytes && cap
                == self@.cache.capacity,
    {
        let bytes: usize = self.alloc_cache.cached_bytes();
        let cap: usize = self.alloc_cache.capacity();
        if bytes > cap {
            Some((bytes, cap))
        } else {
            None
        }
    }

    /// Ask the cache for a buffer of exactly `bytes`. Nothing is asked of a cache
    /// that is switched off, nor for zero bytes.
    pub fn cache_take(&mut self, bytes: usize) -> (r: (Option<u64>, MissNotice))
        requires
            old(self)@.wf(),
            old(self)@.cache.alloc_fits(bytes),
        ensures
            final(self)@.wf(),
            r.0 == old(self)@.cache.reuse(bytes),
            r.1 == old(self)@.cache.miss_notice(bytes),
            final(self)@ == old(self)@.with_cache(old(self)@.cache.allocated(bytes)),
            final(self)@ == old(self)@.with_cache(
                history::happens(old(self)@.cache, Event::Alloc(bytes)),
            ),
            r.0 matches Some(ptr) ==> bytes > 0 && old(self)@.cache.enabled
                && old(self)@.cache.free[bytes].ptrs.last() == ptr,
            r.0.is_none() ==> final(self)@.cache.free == old(self)@.cache.free,
    {
        if bytes == 0 || !self.alloc_cache.enabled() {
            return (None, MissNotice::Silent);
        }
        let hit = self.alloc_cache.take(bytes);
        if hit.is_some() {
            return (hit, MissNotice::Silent);
        }
        proof {
            ladder::law_ladder_is_bounded(bytes as nat);
        }
        let first = self.alloc_cache.note_missed(ladder::bucket_index(bytes));
        let notice = if !first {
            MissNotice::Silent
        } else if self.alloc_cache.capturing() {
            MissNotice::DuringCapture
        } else {
            MissNotice::NewClass
        };
        (hit, notice)
    }

    /// Offer a freed buffer to the cache. The result is `None` if the caller has
    /// to free it: the cache is switched off, or there are no bytes. Otherwise the
    /// buffer is the cache's, and the result lists the victims to hand back.
    pub fn cache_put(&mut self, bytes: usize, ptr: u64) -> (r: Option<Vec<u64>>)
        requires
            old(self)@.wf(),
            old(self)@.cache.consults(bytes) ==> old(self)@.cache.put_fits(bytes, ptr),
        ensures
            final(self)@.wf(),
            r.is_some() <==> old(self)@.cache.consults(bytes),
            r.is_some() <==> bytes > 0 && old(self)@.cache.enabled,
            final(self)@ == old(self)@.with_cache(
                history::happens(old(self)@.cache, Event::Free(bytes, ptr)),
            ),
            r.is_none() ==> final(self)@ == old(self)@,
            r matches Some(victims) ==> {
                let filed = old(self)@.cache.filed(bytes, ptr);
                &&& victims@ == lru::ptrs_of(filed.victims())
                &&& final(self)@ == old(self)@.with_cache(filed.swept())
                &&& !old(self)@.cache.capturing ==> final(self)@.cache.cached_bytes
                    <= old(self)@.cache.capacity
            },
    {
        if bytes == 0 || !self.alloc_cache.enabled() {
            return None;
        }
        proof {
            if !self@.cache.capturing {
                retention::law_every_put_bounds_retention(self@.cache, bytes, ptr);
            }
        }
        Some(self.alloc_cache.put(bytes, ptr))
    }

    /// The counters have room for an allocation of `bytes`.
    pub fn can_alloc(&self, bytes: usize) -> (b: bool)
        ensures
            b == self@.cache.alloc_fits(bytes),
    {
        bytes == 0 || !self.alloc_cache.enabled() || self.alloc_cache.can_take(bytes)
    }

    /// The counters have room for a freed buffer of `bytes`.
    pub fn can_accept(&self, bytes: usize) -> (b: bool)
        requires
            self@.wf(),
        ensures
            b == (self@.cache.consults(bytes) ==> self@.cache.put_room(bytes)),
            b && self@.cache.consults(bytes) ==> forall|ptr: u64| #[trigger]
                self@.cache.put_fits(bytes, ptr),
    {
        bytes == 0 || !self.alloc_cache.enabled() || self.alloc_cache.can_put(bytes)
    }

    /// Allocate `len` elements of `width` bytes.
    pub(crate) fn alloc_elements(&mut self, len: usize, width: usize, zeroed: bool) -> (a: Allocation)
        requires
            old(self)@.wf(),
            len * width <= usize::MAX,
            old(self)@.cache.alloc_fits((len * width) as usize),
        ensures
            final(self)@.wf(),
            a == old(self)@.cache.allocation(len, width, zeroed),
            final(self)@ == old(self)@.with_cache(
                old(self)@.cache.allocated((len * width) as usize),
            ),
    {
        let bytes: usize = len * width;
        let (hit, notice) = self.cache_take(bytes);
        let origin = match hit {
            Some(ptr) => Origin::Reused(ptr),
            None => Origin::Driver,
        };
        Allocation { len, bytes, origin, zeroed, notice }
    }

    /// Allocate `len` elements without clearing them.
    pub fn alloc_slice<T>(&mut self, len: usize) -> (a: Allocation)
        requires
            old(self)@.wf(),
            len * layout::size_of::<T>() <= usize::MAX,
            old(self)@.cache.alloc_fits((len * layout::size_of::<T>()) as usize),
        ensures
            final(self)@.wf(),
            a.bytes == len * layout::size_of::<T>(),
            a == old(self)@.cache.allocation(len, layout::size_of::<T>() as usize, false),
            final(self)@ == old(self)@.with_cache(
                old(self)@.cache.allocated((len * layout::size_of::<T>()) as usize),
            ),
    {
        let width: usize = core::mem::size_of::<T>();
        self.alloc_elements(len, width, false)
    }

    /// Allocate `len` elements and clear them. A reused buffer has to be cleared,
    /// a new one comes clear from the driver.
    pub fn alloc_zeros<T>(&mut self, len: usize) -> (a: Allocation)
        requires
            old(self)@.wf(),
            len * layout::size_of::<T>() <= usize::MAX,
            old(self)@.cache.alloc_fits((len * layout::size_of::<T>()) as usize),
        ensures
            final(self)@.wf(),
            a.bytes == len * layout::size_of::<T>(),
            a == old(self)@.cache.allocation(len, layout::size_of::<T>() as usize, true),
            final(self)@ == old(self)@.with_cache(
                old(self)@.cache.allocated((len * layout::size_of::<T>()) as usize),
            ),
    {
        let width: usize = core::mem::size_of::<T>();
        self.alloc_elements(len, width, true)
    }

    /// A read-back into new host memory is about to be issued. It is done as it is,
    /// and counted if a capture is open.
    pub fn clone_dtoh(&self, counters: &mut CaptureCounters)
        ensures
            final(counters)@ == old(counters)@.after(
                CopyEvent::ReadBack(self@.cache.capturing),
            ),
    {
        counters.note_read_back(self.capture_mode());
    }

    /// A read-back into host memory of the caller is about to be issued. It is done
    /// as it is, and counted if a capture is open.
    pub fn memcpy_dtoh(&self, counters: &mut CaptureCounters)
        ensures
            final(counters)@ == old(counters)@.after(
                CopyEvent::ReadBack(self@.cache.capturing),
            ),
    {
        counters.note_read_back(self.capture_mode());
    }

    /// The built-in module at `index`, if it is loaded already. Otherwise the
    /// caller loads it and files it with [`CudaDevice::keep_module`].
    pub fn get_or_load_func(&self, index: usize) -> (m: Option<&M>)
        requires
            index < self@.modules.len(),
        ensures
            m.is_some() <==> self@.modules[index as int].is_some(),
            m matches Some(m) ==> self@.modules[index as int] == Some(*m),
            m.is_some() <==> self@.module_at(index as int).is_some(),
            m matches Some(m) ==> self@.module_at(index as int) == Some(*m),
    {
        self.modules.loaded(index)
    }

    /// The number of built-in modules.
    pub fn module_count(&self) -> (n: usize)
        ensures
            n == self@.modules.len(),
    {
        self.modules.len()
    }

    /// File a built-in module that has been loaded.
    pub fn keep_module(&mut self, index: usize, module: M)
        requires
            index < old(self)@.modules.len(),
        ensures
            final(self)@ == (DeviceView {
                modules: old(self)@.modules.update(index as int, Some(module)),
                ..old(self)@
            }),
            final(self)@ == old(self)@.with_module(index as int, module),
    {
        self.modules.keep(index, module);
    }

    /// The custom module of that name, if it is loaded already. Otherwise the
    /// caller loads it and files it with [`CudaDevice::keep_custom_module`].
    pub fn get_or_load_custom_func(&self, module_name: &str) -> (m: Option<&M>)
        ensures
            m.is_some() <==> self@.custom.contains_key(module_name@),
            m matches Some(m) ==> self@.custom[module_name@] == *m,
            m.is_some() <==> self@.custom_named(module_name@).is_some(),
            m matches Some(m) ==> self@.custom_named(module_name@) == Some(*m),
    {
        self.custom_modules.loaded(module_name)
    }

    /// File a custom module that has been loaded.
    pub fn keep_custom_module(&mut self, module_name: &str, module: M)
        ensures
            final(self)@ == (DeviceView {
                custom: old(self)@.custom.insert(module_name@, module),
                ..old(self)@
            }),
            final(self)@ == old(self)@.with_custom(module_name@, module),
    {
        self.custom_modules.keep(module_name, module);
    }
}

/// The set of reported misses stays small, however many sizes go through the
/// device: it is bounded by the ladder.
pub proof fn law_reported_misses_are_few<M>(d: DeviceView<M>)
    requires
        d.wf(),
    ensures
        d.cache.missed.finite(),
        d.cache.missed.len() <= 221,
{
    let all = Set::new(|k: usize| k <= 220);
    lemma_numbers_up_to(220);
    assert(d.cache.missed.subset_of(all));
    vstd::set_lib::lemma_len_subset(d.cache.missed, all);
}

/// There are `n + 1` numbers up to `n`.
proof fn lemma_numbers_up_to(n: usize)
    ensures
        Set::new(|k: usize| k <= n).finite(),
        Set::new(|k: usize| k <= n).len() == n + 1,
    decreases n,
{
    let all = Set::new(|k: usize| k <= n);
    if n == 0 {
        assert(all =~= Set::empty().insert(0));
    } else {
        let m = (n - 1) as usize;
        lemma_numbers_up_to(m);
        assert(all =~= Set::new(|k: usize| k <= m).insert(n));
    }
}

/// How a read-back from the device is done. One that is issued while a capture is
/// open is counted and redirected.
pub fn arc_capture_clone_dtoh<M>(
    counters: &mut CaptureCounters,
    dev: &CudaDevice<M>,
) -> (r: ReadBack)
    ensures
        r == ReadBack::under(dev@.cache.capturing),
        r == (if dev@.cache.capturing {
            ReadBack::Redirected
        } else {
            ReadBack::Direct
        }),
        final(counters)@ == old(counters)@.after(CopyEvent::ReadBack(dev@.cache.capturing)),
{
    let capturing = dev.capture_mode();
    counters.note_read_back(capturing);
    if capturing {
        ReadBack::Redirected
    } else {
        ReadBack::Direct
    }
}

} // verus!
