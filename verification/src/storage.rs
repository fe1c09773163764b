//! Tensor storage on a device: which element types it takes, how many bytes they
//! need, and where the bytes come from.
use crate::capture;
use crate::capture::{CaptureCounters, CopyEvent, CountersView};
use crate::device::{Allocation, CudaDevice, DeviceView, HostCopy, Origin};
use crate::elements::{CudaError, DType};
use crate::model::CacheView;
use vstd::layout;
use vstd::prelude::*;

verus! {

/// The text of the refusal of a dummy type.
pub open spec fn dummy_text() -> Seq<char> {
    "Dummy types not supported in CUDA backend"@
}

/// `r` refuses `dtype` for the operation `op`.
pub open spec fn refuses<T>(r: Result<T, CudaError>, dtype: DType, op: Seq<char>) -> bool {
    r matches Err(CudaError::UnsupportedDtype { dtype: d, op: o }) && d == dtype && o@ == op
}

/// `r` refuses a dummy type.
pub open spec fn refuses_dummy<T>(r: Result<T, CudaError>) -> bool {
    r matches Err(CudaError::InternalError(text)) && text@ == dummy_text()
}

/// The random number generator fills an even number of values only.
pub open spec fn rounded_up_to_even(n: nat) -> nat {
    if n % 2 == 1 {
        n + 1
    } else {
        n
    }
}

/// Room for `len` elements of a type: the bytes can be counted, and the counters
/// of the cache have room.
pub open spec fn storage_fits(c: CacheView, len: nat, dtype: DType) -> bool {
    dtype.width() matches Some(w) ==> len * w <= usize::MAX && c.alloc_fits((len * w) as usize)
}

/// What an upload does to the counters: the source is retained, and counted, only
/// while capturing.
pub open spec fn upload_counted<T>(
    capturing: bool,
    src: Seq<T>,
    before: CountersView,
    after: CountersView,
) -> bool {
    after == if capturing {
        before.after(CopyEvent::Retain(src.len(), capture::bytes_of(src)))
    } else {
        before
    }
}

/// The source of an upload: a copy that is never freed while capturing, otherwise
/// the caller's own.
pub open spec fn upload_source<T>(
    capturing: bool,
    src: Seq<T>,
    source: Option<&'static [T]>,
) -> bool {
    &&& source.is_some() <==> capturing
    &&& source matches Some(s) ==> s@ == src
}

/// Storage of `n` elements of a type with a width is made: cleared or not, and taken
/// from the allocator.
pub open spec fn makes<M>(
    before: DeviceView<M>,
    n: nat,
    dtype: DType,
    zeroed: bool,
    r: Result<Allocation, CudaError>,
    after: DeviceView<M>,
) -> bool {
    &&& dtype.width() matches Some(w)
    &&& r == Ok::<Allocation, CudaError>(before.cache.allocation(n as usize, w, zeroed))
    &&& after == before.with_cache(before.cache.allocated((n * w) as usize))
}

/// What asking for storage comes to, cleared or not: a dummy type is refused.
pub open spec fn makes_or_refuses<M>(
    before: DeviceView<M>,
    n: nat,
    dtype: DType,
    zeroed: bool,
    r: Result<Allocation, CudaError>,
    after: DeviceView<M>,
) -> bool {
    if dtype.is_dummy() {
        refuses_dummy(r) && after == before
    } else {
        makes(before, n, dtype, zeroed, r, after)
    }
}

/// What asking for storage for random numbers comes to: a type that the generator does
/// not produce is refused for the operation `op`.
pub open spec fn makes_for_generator<M>(
    before: DeviceView<M>,
    n: nat,
    dtype: DType,
    op: Seq<char>,
    r: Result<Allocation, CudaError>,
    after: DeviceView<M>,
) -> bool {
    if dtype.is_generated() {
        makes(before, n, dtype, false, r, after)
    } else {
        refuses(r, dtype, op) && after == before
    }
}

impl<M> CudaDevice<M> {
    /// There is room for `len` elements of a type: the bytes can be counted, and
    /// the counters of the cache have room.
    pub fn can_store(&self, len: usize, dtype: DType) -> (b: bool)
        ensures
            b == storage_fits(self@.cache, len as nat, dtype),
    {
        match dtype.elem_width() {
            Some(w) => match len.checked_mul(w) {
                Some(bytes) => self.can_alloc(bytes),
                None => false,
            },
            None => true,
        }
    }

    /// Storage of `elem_count` zeros. The dummy types are refused.
    pub fn zeros_impl(&mut self, elem_count: usize, dtype: DType) -> (r: Result<
        Allocation,
        CudaError,
    >)
        requires
            old(self)@.wf(),
            storage_fits(old(self)@.cache, elem_count as nat, dtype),
        ensures
            final(self)@.wf(),
            makes_or_refuses(
                old(self)@,
                elem_count as nat,
                dtype,
                true,
                r,
                final(self)@,
            ),
            dtype.is_dummy() ==> refuses_dummy(r) && final(self)@ == old(self)@,
            dtype.width() matches Some(w) ==> {
                &&& r == Ok::<Allocation, CudaError>(
                    old(self)@.cache.allocation(elem_count, w, true),
                )
                &&& final(self)@ == old(self)@.with_cache(
                    old(self)@.cache.allocated((elem_count * w) as usize),
                )
            },
    {
        match dtype.elem_width() {
            Some(w) => Ok(self.alloc_elements(elem_count, w, true)),
            None => Err(CudaError::InternalError("Dummy types not supported in CUDA backend")),
        }
    }

    /// Storage of `elem_count` elements that are not cleared. The dummy types are
    /// refused.
    pub fn alloc_uninit(&mut self, elem_count: usize, dtype: DType) -> (r: Result<
        Allocation,
        CudaError,
    >)
        requires
            old(self)@.wf(),
            storage_fits(old(self)@.cache, elem_count as nat, dtype),
        ensures
            final(self)@.wf(),
            makes_or_refuses(
                old(self)@,
                elem_count as nat,
                dtype,
                false,
                r,
                final(self)@,
            ),
            dtype.is_dummy() ==> refuses_dummy(r) && final(self)@ == old(self)@,
            dtype.width() matches Some(w) ==> {
                &&& r == Ok::<Allocation, CudaError>(
                    old(self)@.cache.allocation(elem_count, w, false),
                )
                &&& final(self)@ == old(self)@.with_cache(
                    old(self)@.cache.allocated((elem_count * w) as usize),
                )
            },
    {
        match dtype.elem_width() {
            Some(w) => Ok(self.alloc_elements(elem_count, w, false)),
            None => Err(CudaError::InternalError("Dummy types not supported in CUDA backend")),
        }
    }

    /// Storage for `elem_count` uniform random numbers. Only the two types that
    /// the generator produces are taken.
    pub fn rand_uniform(&mut self, elem_count: usize, dtype: DType) -> (r: Result<
        Allocation,
        CudaError,
    >)
        requires
            old(self)@.wf(),
            dtype.is_generated() ==> storage_fits(old(self)@.cache, elem_count as nat, dtype),
        ensures
            final(self)@.wf(),
            makes_for_generator(
                old(self)@,
                elem_count as nat,
                dtype,
                "rand_uniform"@,
                r,
                final(self)@,
            ),
            !dtype.is_generated() ==> refuses(r, dtype, "rand_uniform"@) && final(self)@
                == old(self)@,
            dtype.is_generated() ==> {
                let w = dtype.width()->0;
                &&& r == Ok::<Allocation, CudaError>(
                    old(self)@.cache.allocation(elem_count, w, false),
                )
                &&& final(self)@ == old(self)@.with_cache(
                    old(self)@.cache.allocated((elem_count * w) as usize),
                )
            },
    {
        match dtype {
            DType::F32 => Ok(self.alloc_elements(elem_count, 4, false)),
            DType::F64 => Ok(self.alloc_elements(elem_count, 8, false)),
            _ => Err(CudaError::UnsupportedDtype { dtype, op: "rand_uniform" }),
        }
    }

    /// Storage for `elem_count` normal random numbers, rounded up to an even
    /// number of elements. Only the two types that the generator produces are
    /// taken.
    pub fn rand_normal(&mut self, elem_count: usize, dtype: DType) -> (r: Result<
        Allocation,
        CudaError,
    >)
        requires
            old(self)@.wf(),
            rounded_up_to_even(elem_count as nat) <= usize::MAX,
            dtype.is_generated() ==> storage_fits(
                old(self)@.cache,
                rounded_up_to_even(elem_count as nat),
                dtype,
            ),
        ensures
            final(self)@.wf(),
            makes_for_generator(
                old(self)@,
                rounded_up_to_even(elem_count as nat),
                dtype,
                "rand_normal"@,
                r,
                final(self)@,
            ),
            !dtype.is_generated() ==> refuses(r, dtype, "rand_normal"@) && final(self)@
                == old(self)@,
            dtype.is_generated() ==> {
                let w = dtype.width()->0;
                let n = rounded_up_to_even(elem_count as nat) as usize;
                &&& n % 2 == 0
                &&& elem_count <= n <= elem_count + 1
                &&& r == Ok::<Allocation, CudaError>(old(self)@.cache.allocation(n, w, false))
                &&& final(self)@ == old(self)@.with_cache(
                    old(self)@.cache.allocated((n * w) as usize),
                )
            },
    {
        let n: usize = if elem_count % 2 == 1 {
            elem_count + 1
        } else {
            elem_count
        };
        match dtype {
            DType::F32 => Ok(self.alloc_elements(n, 4, false)),
            DType::F64 => Ok(self.alloc_elements(n, 8, false)),
            _ => Err(CudaError::UnsupportedDtype { dtype, op: "rand_normal" }),
        }
    }

    /// The source of an upload into a buffer that is there already. While
    /// capturing it is a copy that is never freed; otherwise the caller's own.
    pub fn memcpy_htod<T: Copy + 'static>(
        &self,
        counters: &mut CaptureCounters,
        src: &[T],
    ) -> (source: Option<&'static [T]>)
        ensures
            self@.cache.capturing ==> source.is_some() && source->0@ == src@,
            !self@.cache.capturing ==> source.is_none() && final(counters)@ == old(counters)@,
            upload_source(self@.cache.capturing, src@, source),
            upload_counted(self@.cache.capturing, src@, old(counters)@, final(counters)@),
    {
        if self.capture_mode() {
            Some(capture::arc_capture_retain_host(counters, src))
        } else {
            None
        }
    }

    /// An upload into a buffer of its own. The buffer comes from the caching
    /// allocator, so that its address is stable inside a capture.
    pub fn clone_htod<T: Copy + 'static>(
        &mut self,
        counters: &mut CaptureCounters,
        src: &[T],
    ) -> (r: HostCopy<T>)
        requires
            old(self)@.wf(),
            old(self)@.cache.alloc_fits(capture::bytes_of(src@) as usize),
        ensures
            final(self)@.wf(),
            r.allocation.bytes == capture::bytes_of(src@),
            r.allocation == old(self)@.cache.allocation(
                src@.len() as usize,
                layout::size_of::<T>() as usize,
                false,
            ),
            final(self)@ == old(self)@.with_cache(
                old(self)@.cache.allocated(capture::bytes_of(src@) as usize),
            ),
            old(self)@.cache.capturing ==> r.source.is_some() && r.source->0@ == src@,
            !old(self)@.cache.capturing ==> r.source.is_none() && final(counters)@
                == old(counters)@,
            upload_source(old(self)@.cache.capturing, src@, r.source),
            upload_counted(old(self)@.cache.capturing, src@, old(counters)@, final(counters)@),
    {
        broadcast use vstd::layout::layout_of_slices;

        let bytes: usize = core::mem::size_of_val(src);
        assert(bytes == src@.len() * layout::size_of::<T>());
        let allocation = self.alloc_slice::<T>(src.len());
        let source = self.memcpy_htod(counters, src);
        HostCopy { allocation, source }
    }

    /// An upload of the dimensions and strides of an operation.
    pub fn htod_info<T: Copy + 'static>(
        &mut self,
        counters: &mut CaptureCounters,
        src: &[T],
    ) -> (r: HostCopy<T>)
        requires
            old(self)@.wf(),
            old(self)@.cache.alloc_fits(capture::bytes_of(src@) as usize),
        ensures
            final(self)@.wf(),
            r.allocation.bytes == capture::bytes_of(src@),
            r.allocation == old(self)@.cache.allocation(
                src@.len() as usize,
                layout::size_of::<T>() as usize,
                false,
            ),
            final(self)@ == old(self)@.with_cache(
                old(self)@.cache.allocated(capture::bytes_of(src@) as usize),
            ),
            old(self)@.cache.capturing ==> r.source.is_some() && r.source->0@ == src@,
            !old(self)@.cache.capturing ==> r.source.is_none() && final(counters)@
                == old(counters)@,
            upload_source(old(self)@.cache.capturing, src@, r.source),
            upload_counted(old(self)@.cache.capturing, src@, old(counters)@, final(counters)@),
    {
        self.clone_htod(counters, src)
    }

    /// An upload of elements of type `dtype`, or the refusal of a dummy type for
    /// the operation `op`.
    fn upload_as<T: Copy + 'static>(
        &mut self,
        counters: &mut CaptureCounters,
        dtype: DType,
        src: &[T],
        op: &'static str,
    ) -> (r: Result<Uploaded<T>, CudaError>)
        requires
            old(self)@.wf(),
            is_width_of::<T>(dtype),
            !dtype.is_dummy() ==> old(self)@.cache.alloc_fits(
                capture::bytes_of(src@) as usize,
            ),
        ensures
            final(self)@.wf(),
            stores(
                old(self)@,
                dtype,
                src@,
                op@,
                old(counters)@,
                r,
                final(self)@,
                final(counters)@,
            ),
    {
        match dtype.elem_width() {
            Some(_) => Ok(Uploaded { dtype, copy: self.clone_htod(counters, src) }),
            None => Err(CudaError::UnsupportedDtype { dtype, op }),
        }
    }

    /// Storage from a slice of elements of type `dtype`. The dummy types are
    /// refused.
    pub fn storage_from_slice<T: Copy + 'static>(
        &mut self,
        counters: &mut CaptureCounters,
        dtype: DType,
        s: &[T],
    ) -> (r: Result<Uploaded<T>, CudaError>)
        requires
            old(self)@.wf(),
            is_width_of::<T>(dtype),
            !dtype.is_dummy() ==> old(self)@.cache.alloc_fits(
                capture::bytes_of(s@) as usize,
            ),
        ensures
            final(self)@.wf(),
            stores(
                old(self)@,
                dtype,
                s@,
                "storage_from_slice"@,
                old(counters)@,
                r,
                final(self)@,
                final(counters)@,
            ),
    {
        self.upload_as(counters, dtype, s, "storage_from_slice")
    }

    /// Storage from host storage of type `dtype`. The dummy types are refused.
    pub fn storage_from_cpu_storage<T: Copy + 'static>(
        &mut self,
        counters: &mut CaptureCounters,
        dtype: DType,
        storage: &[T],
    ) -> (r: Result<Uploaded<T>, CudaError>)
        requires
            old(self)@.wf(),
            is_width_of::<T>(dtype),
            !dtype.is_dummy() ==> old(self)@.cache.alloc_fits(
                capture::bytes_of(storage@) as usize,
            ),
        ensures
            final(self)@.wf(),
            stores(
                old(self)@,
                dtype,
                storage@,
                "storage_from_cpu_storage"@,
                old(counters)@,
                r,
                final(self)@,
                final(counters)@,
            ),
    {
        self.upload_as(counters, dtype, storage, "storage_from_cpu_storage")
    }

    /// Storage from host storage of type `dtype` that the caller gives up. The
    /// dummy types are refused.
    pub fn storage_from_cpu_storage_owned<T: Copy + 'static>(
        &mut self,
        counters: &mut CaptureCounters,
        dtype: DType,
        storage: &[T],
    ) -> (r: Result<Uploaded<T>, CudaError>)
        requires
            old(self)@.wf(),
            is_width_of::<T>(dtype),
            !dtype.is_dummy() ==> old(self)@.cache.alloc_fits(
                capture::bytes_of(storage@) as usize,
            ),
        ensures
            final(self)@.wf(),
            stores(
                old(self)@,
                dtype,
                storage@,
                "storage_from_cpu_storage_owned"@,
                old(counters)@,
                r,
                final(self)@,
                final(counters)@,
            ),
    {
        self.upload_as(counters, dtype, storage, "storage_from_cpu_storage_owned")
    }
}

/// Storage made from host elements.
pub struct Uploaded<T: 'static> {
    /// The type of the elements.
    pub dtype: DType,
    pub copy: HostCopy<T>,
}

impl<T: 'static> Uploaded<T> {
    /// What is copied to the device, where the caller's own source is `src`.
    pub open spec fn contents(self, src: Seq<T>) -> Seq<T> {
        match self.copy.source {
            Some(retained) => retained@,
            None => src,
        }
    }
}

/// `T` has the width of the elements of type `dtype`.
pub open spec fn is_width_of<T>(dtype: DType) -> bool {
    dtype.width() matches Some(w) ==> w == layout::size_of::<T>()
}

/// What making storage from host elements comes to, for the operation `op`: a
/// dummy type is refused and nothing happens. Any other type gets a buffer of its
/// length times its width, with the elements of `src`.
pub open spec fn stores<M, T: 'static>(
    before: DeviceView<M>,
    dtype: DType,
    src: Seq<T>,
    op: Seq<char>,
    counted: CountersView,
    r: Result<Uploaded<T>, CudaError>,
    after: DeviceView<M>,
    now_counted: CountersView,
) -> bool {
    match dtype.width() {
        None => {
            &&& refuses(r, dtype, op)
            &&& after == before
            &&& now_counted == counted
        },
        Some(w) => {
            let c = before.cache;
            &&& r matches Ok(u)
            &&& u.dtype == dtype
            &&& u.copy.allocation == c.allocation(src.len() as usize, w, false)
            &&& u.copy.allocation.len == src.len()
            &&& u.copy.allocation.bytes == src.len() * w
            &&& upload_source(c.capturing, src, u.copy.source)
            &&& upload_counted(c.capturing, src, counted, now_counted)
            &&& after == before.with_cache(c.allocated((src.len() * w) as usize))
        },
    }
}

/// Storage that the caller gives up is made as storage that the caller keeps: both
/// succeed on the same types, with the same type, buffer and contents, and leave
/// the device in the same state. They differ in the name of the operation that a
/// refusal carries. Outside a capture both copy from the caller's own source.
pub proof fn law_owned_storage_is_made_alike<M, T: 'static>(
    before: DeviceView<M>,
    dtype: DType,
    src: Seq<T>,
    counted: CountersView,
    kept: Result<Uploaded<T>, CudaError>,
    after_kept: DeviceView<M>,
    counted_kept: CountersView,
    owned: Result<Uploaded<T>, CudaError>,
    after_owned: DeviceView<M>,
    counted_owned: CountersView,
)
    requires
        stores(
            before,
            dtype,
            src,
            "storage_from_cpu_storage"@,
            counted,
            kept,
            after_kept,
            counted_kept,
        ),
        stores(
            before,
            dtype,
            src,
            "storage_from_cpu_storage_owned"@,
            counted,
            owned,
            after_owned,
            counted_owned,
        ),
    ensures
        owned.is_ok() <==> kept.is_ok(),
        owned.is_ok() <==> !dtype.is_dummy(),
        after_owned == after_kept,
        counted_owned == counted_kept,
        owned matches Ok(o) ==> {
            let k = kept->Ok_0;
            &&& o.dtype == dtype
            &&& k.dtype == dtype
            &&& o.copy.allocation == k.copy.allocation
            &&& o.copy.allocation.len == src.len()
            &&& o.contents(src) == src
            &&& k.contents(src) == src
            &&& !before.cache.capturing ==> o.copy.source.is_none() && k.copy.source.is_none()
        },
        dtype.is_dummy() ==> refuses(kept, dtype, "storage_from_cpu_storage"@) && refuses(
            owned,
            dtype,
            "storage_from_cpu_storage_owned"@,
        ),
{
}

/// The generator is given an even number of elements, the smallest one that holds all
/// that were asked for: the count itself if it is even, otherwise one more.
pub proof fn law_normal_numbers_come_in_pairs(n: nat)
    ensures
        rounded_up_to_even(n) % 2 == 0,
        n <= rounded_up_to_even(n) <= n + 1,
        n % 2 == 0 ==> rounded_up_to_even(n) == n,
{
}

/// Inside a capture the source of every upload, whatever its length, is a copy with the
/// elements of the caller's; it is counted once, with its bytes, unless it is empty.
/// Outside a capture the caller's own source is used and nothing is counted.
pub proof fn law_every_upload_inside_a_capture_is_retained<T>(
    capturing: bool,
    src: Seq<T>,
    source: Option<&'static [T]>,
    before: CountersView,
    after: CountersView,
)
    requires
        upload_source(capturing, src, source),
        upload_counted(capturing, src, before, after),
    ensures
        capturing ==> source.is_some() && source->0@ == src,
        !capturing ==> source.is_none() && after == before,
        src.len() == 0 ==> after == before,
        capturing && src.len() > 0 && before.retained < u64::MAX ==> after.retained
            == before.retained + 1,
        capturing && src.len() > 0 && before.retained_bytes + src.len() * layout::size_of::<T>()
            <= u64::MAX ==> after.retained_bytes == before.retained_bytes + src.len()
            * layout::size_of::<T>(),
        after.read_backs == before.read_backs,
{
    assert(src.len() * layout::size_of::<T>() >= 0) by (nonlinear_arith);
}

/// Storage from host elements, whatever their number: the dummy types are refused by
/// name and nothing happens; every other type gets a buffer that is just large enough,
/// not cleared, and is filled with the elements of the caller. The allocator is asked
/// for exactly those bytes.
pub proof fn law_storage_holds_the_elements_of_the_caller<M, T: 'static>(
    before: DeviceView<M>,
    dtype: DType,
    src: Seq<T>,
    op: Seq<char>,
    counted: CountersView,
    r: Result<Uploaded<T>, CudaError>,
    after: DeviceView<M>,
    now_counted: CountersView,
)
    requires
        is_width_of::<T>(dtype),
        stores(before, dtype, src, op, counted, r, after, now_counted),
    ensures
        r.is_err() <==> dtype is F6E2M3 || dtype is F6E3M2 || dtype is F4 || dtype is F8E8M0,
        r matches Err(e) ==> {
            &&& e matches CudaError::UnsupportedDtype { dtype: d, op: o }
            &&& d == dtype
            &&& o@ == op
            &&& after == before
            &&& now_counted == counted
        },
        r matches Ok(u) ==> {
            let bytes = src.len() * layout::size_of::<T>();
            &&& u.dtype == dtype
            &&& u.copy.allocation.len == src.len()
            &&& u.copy.allocation.bytes == bytes
            &&& !u.copy.allocation.zeroed
            &&& u.copy.allocation.origin == match before.cache.reuse(bytes as usize) {
                Some(ptr) => Origin::Reused(ptr),
                None => Origin::Driver,
            }
            &&& after.cache == before.cache.allocated(bytes as usize)
            &&& after == (DeviceView { cache: after.cache, ..before })
            &&& before.cache.capturing ==> u.copy.source.is_some() && u.copy.source->0@ == src
            &&& !before.cache.capturing ==> u.copy.source.is_none()
            &&& before.cache.capturing && src.len() > 0 && counted.retained < u64::MAX
                ==> now_counted.retained == counted.retained + 1
            &&& !before.cache.capturing || src.len() == 0 ==> now_counted == counted
        },
{
}

/// A refusal names the type and the operation; that of a dummy type has a text of its own.
pub proof fn law_a_refusal_says_what_was_refused<T>(
    r: Result<T, CudaError>,
    dtype: DType,
    op: Seq<char>,
)
    ensures
        refuses(r, dtype, op) ==> r.is_err() && (r->Err_0 matches CudaError::UnsupportedDtype {
            dtype: d,
            op: o,
        } && d == dtype && o@ == op),
        refuses_dummy(r) ==> r.is_err() && (r->Err_0 matches CudaError::InternalError(text)
            && text@ == "Dummy types not supported in CUDA backend"@),
{
}

/// There is room for elements of a type exactly if it is a dummy type, or their bytes can
/// be counted and the allocator has room for them.
pub proof fn law_when_storage_fits(c: CacheView, len: nat, dtype: DType)
    ensures
        dtype.width().is_none() ==> storage_fits(c, len, dtype),
        dtype.width() matches Some(w) ==> (storage_fits(c, len, dtype) <==> len * w <= usize::MAX
            && (c.enabled && len * w > 0 ==> c.take_fits((len * w) as usize))),
{
}

/// Storage is made to measure, whatever its size: as many elements as were asked for, as
/// many bytes as these are wide, cleared exactly if that was asked for, and from a buffer
/// of the allocator if there is one. The dummy types alone are refused, and a refusal
/// changes nothing.
pub proof fn law_storage_is_made_to_measure<M>(
    before: DeviceView<M>,
    n: usize,
    dtype: DType,
    zeroed: bool,
    r: Result<Allocation, CudaError>,
    after: DeviceView<M>,
)
    requires
        makes_or_refuses(before, n as nat, dtype, zeroed, r, after),
        dtype.width() matches Some(w) ==> n * w <= usize::MAX,
    ensures
        r.is_err() <==> dtype is F6E2M3 || dtype is F6E3M2 || dtype is F4 || dtype is F8E8M0,
        r.is_err() ==> after == before,
        r matches Ok(a) ==> {
            &&& a.len == n
            &&& a.bytes == n * dtype.width()->0
            &&& a.zeroed == zeroed
            &&& a.origin == match before.cache.reuse(a.bytes) {
                Some(ptr) => Origin::Reused(ptr),
                None => Origin::Driver,
            }
            &&& a.notice == before.cache.miss_notice(a.bytes)
            &&& after.cache == before.cache.allocated(a.bytes)
            &&& after == (DeviceView { cache: after.cache, ..before })
        },
{
}

/// Storage for random numbers is made for the two types that the generator produces, is
/// not cleared, and is as wide as its elements; every other type is refused by name, which
/// changes nothing.
pub proof fn law_storage_for_random_numbers<M>(
    before: DeviceView<M>,
    n: usize,
    dtype: DType,
    op: Seq<char>,
    r: Result<Allocation, CudaError>,
    after: DeviceView<M>,
)
    requires
        makes_for_generator(before, n as nat, dtype, op, r, after),
        n * 8 <= usize::MAX,
    ensures
        r.is_ok() <==> dtype is F32 || dtype is F64,
        r matches Err(e) ==> {
            &&& e matches CudaError::UnsupportedDtype { dtype: d, op: o }
            &&& d == dtype
            &&& o@ == op
            &&& after == before
        },
        r matches Ok(a) ==> {
            &&& a.len == n
            &&& a.bytes == n * if dtype is F32 {
                4int
            } else {
                8int
            }
            &&& !a.zeroed
            &&& a.origin == match before.cache.reuse(a.bytes) {
                Some(ptr) => Origin::Reused(ptr),
                None => Origin::Driver,
            }
            &&& after.cache == before.cache.allocated(a.bytes)
            &&& after == (DeviceView { cache: after.cache, ..before })
        },
{
}

} // verus!
