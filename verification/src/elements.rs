//! Element types of tensors and what the device makes of them.
use vstd::prelude::*;

verus! {

/// The element type of a tensor.
#[derive(Debug, Clone, Copy, PartialEq, Eq, Hash, Structural)]
pub enum DType {
    U8,
    U32,
    I16,
    I32,
    I64,
    BF16,
    F16,
    F32,
    F64,
    F8E4M3,
    F6E2M3,
    F6E3M2,
    F4,
    F8E8M0,
}

/// Why the device refuses an operation.
#[derive(Debug, Clone, Copy)]
pub enum CudaError {
    InternalError(&'static str),
    UnsupportedDtype { dtype: DType, op: &'static str },
}

impl DType {
    /// The type has no storage on the device.
    pub open spec fn is_dummy(self) -> bool {
        self is F6E2M3 || self is F6E3M2 || self is F4 || self is F8E8M0
    }

    /// The random number generator can produce the type.
    pub open spec fn is_generated(self) -> bool {
        self is F32 || self is F64
    }

    /// The bytes of one element on the device; none for the dummy types.
    pub open spec fn width(self) -> Option<usize> {
        match self {
            DType::U8 => Some(1),
            DType::U32 => Some(4),
            DType::I16 => Some(2),
            DType::I32 => Some(4),
            DType::I64 => Some(8),
            DType::BF16 => Some(2),
            DType::F16 => Some(2),
            DType::F32 => Some(4),
            DType::F64 => Some(8),
            DType::F8E4M3 => Some(1),
            DType::F6E2M3 | DType::F6E3M2 | DType::F4 | DType::F8E8M0 => None,
        }
    }

    /// The bytes of one element on the device; none for the dummy types.
    pub fn elem_width(self) -> (w: Option<usize>)
        ensures
            w == self.width(),
            w.is_none() <==> self.is_dummy(),
    {
        match self {
            DType::U8 => Some(1),
            DType::U32 => Some(4),
            DType::I16 => Some(2),
            DType::I32 => Some(4),
            DType::I64 => Some(8),
            DType::BF16 => Some(bf16_width()),
            DType::F16 => Some(2),
            DType::F32 => Some(4),
            DType::F64 => Some(8),
            DType::F8E4M3 => Some(f8e4m3_width()),
            DType::F6E2M3 | DType::F6E3M2 | DType::F4 | DType::F8E8M0 => None,
        }
    }
}

/// The size of `half::bf16`. The claim: it is laid out as the `u16` that it wraps,
/// two bytes.
#[verifier::external_body]
fn bf16_width() -> (n: usize)
    ensures
        n == 2,
{
    core::mem::size_of::<half::bf16>()
}

/// The size of `float8::F8E4M3`. The claim: it is laid out as the `u8` that it
/// wraps, one byte.
#[verifier::external_body]
fn f8e4m3_width() -> (n: usize)
    ensures
        n == 1,
{
    core::mem::size_of::<float8::F8E4M3>()
}

/// An element on the device is as wide as the Rust type that stands for it; only the four
/// dummy types have no width. The generator produces two types with a width.
pub proof fn law_widths_are_those_of_the_types(t: DType)
    ensures
        DType::U8.width() == Some(vstd::layout::size_of::<u8>() as usize),
        DType::U32.width() == Some(vstd::layout::size_of::<u32>() as usize),
        DType::I16.width() == Some(vstd::layout::size_of::<i16>() as usize),
        DType::I32.width() == Some(vstd::layout::size_of::<i32>() as usize),
        DType::I64.width() == Some(vstd::layout::size_of::<i64>() as usize),
        DType::BF16.width() == Some(2usize),
        DType::F16.width() == Some(2usize),
        DType::F32.width() == Some(4usize),
        DType::F64.width() == Some(8usize),
        DType::F8E4M3.width() == Some(1usize),
        t.width().is_none() <==> t is F6E2M3 || t is F6E3M2 || t is F4 || t is F8E8M0,
        t.is_dummy() <==> t.width().is_none(),
        t.is_generated() <==> t is F32 || t is F64,
{
    broadcast use vstd::layout::group_layout_axioms;

}

} // verus!
