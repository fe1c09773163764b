//! Host-side logic of a CUDA device: a caching allocator with a bound on what it
//! retains, the bookkeeping of graph captures, and the decisions of the device
//! around them.
//!
//! Nothing here calls the driver. The methods of [`device::CudaDevice`] say what
//! the driver is to be asked, and take in what it answered.
//!
//! - [`cache`] is the allocator, [`model`] its state as a mathematical object,
//!   [`lru`] the order in which it gives buffers back, [`tally`] and [`sorting`]
//!   its tables and lists, [`stats`] its counters, [`setting`] its cap.
//! - [`device`] and [`storage`] are the device, with [`elements`], [`modules`],
//!   [`ids`] and [`ladder`]; [`capture`] holds host copies for captured graphs.
//! - [`keep`] proves that every operation keeps the allocator well formed;
//!   [`effects`] and [`answers`] prove what each operation of the allocator and of
//!   the device does; [`laws`], [`retention`], [`traffic`], [`protocol`] and
//!   [`history`] prove what holds of them as a whole.
pub mod answers;
pub mod cache;
pub mod capture;
pub mod device;
pub mod effects;
pub mod elements;
pub mod history;
pub mod ids;
pub mod keep;
pub mod ladder;
pub mod laws;
pub mod lru;
pub mod model;
pub mod modules;
pub mod protocol;
pub mod retention;
pub mod setting;
pub mod sorting;
pub mod stats;
pub mod storage;
pub mod tally;
pub mod traffic;

pub use cache::AllocCache;
pub use capture::{
    arc_capture_dtoh_count, arc_capture_htod_retained, arc_capture_retain_host, retain_notice,
    CaptureCounters, RetainNotice,
};
pub use device::{
    arc_capture_clone_dtoh, Allocation, CudaDevice, DeviceLocation, DeviceSetup, HostCopy,
    MissNotice, Origin, Prewarm, PrewarmTally, ReadBack,
};
pub use elements::{CudaError, DType};
pub use ids::{DeviceId, IdCounter};
pub use ladder::{bucket_index, LADDER_BASE_LOG2, SUBCLASSES};
pub use modules::{CustomModules, ModuleStore};
pub use setting::{capacity_from_setting, DEFAULT_CAPACITY_BYTES};
pub use stats::AllocCacheStats;
pub use storage::Uploaded;
