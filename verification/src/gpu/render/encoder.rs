//! Draw-call enums of the render command encoder.

use crate::gpu::ffi;
use crate::gpu::ffi::NSUInteger;
use vstd::prelude::*;

verus! {

/// Primitive topology (`MTLPrimitiveType`).
#[derive(Debug, Clone, Copy)]
pub enum PrimitiveType {
    Point,
    Line,
    LineStrip,
    Triangle,
    TriangleStrip,
}

impl PrimitiveType {
    /// The `MTLPrimitiveType` code.
    pub fn code(self) -> (c: NSUInteger)
        ensures
            c == match self {
                PrimitiveType::Point => ffi::MTLPrimitiveTypePoint,
                PrimitiveType::Line => ffi::MTLPrimitiveTypeLine,
                PrimitiveType::LineStrip => ffi::MTLPrimitiveTypeLineStrip,
                PrimitiveType::Triangle => ffi::MTLPrimitiveTypeTriangle,
                PrimitiveType::TriangleStrip => ffi::MTLPrimitiveTypeTriangleStrip,
            },
    {
        match self {
            PrimitiveType::Point => ffi::MTLPrimitiveTypePoint,
            PrimitiveType::Line => ffi::MTLPrimitiveTypeLine,
            PrimitiveType::LineStrip => ffi::MTLPrimitiveTypeLineStrip,
            PrimitiveType::Triangle => ffi::MTLPrimitiveTypeTriangle,
            PrimitiveType::TriangleStrip => ffi::MTLPrimitiveTypeTriangleStrip,
        }
    }
}

/// Index buffer element type (`MTLIndexType`).
#[derive(Debug, Clone, Copy)]
pub enum IndexType {
    UInt16,
    UInt32,
}

impl IndexType {
    /// Size of one index in bytes.
    pub fn size(self) -> (n: usize)
        ensures
            n == match self {
                IndexType::UInt16 => 2usize,
                IndexType::UInt32 => 4usize,
            },
    {
        match self {
            IndexType::UInt16 => 2,
            IndexType::UInt32 => 4,
        }
    }

    /// The `MTLIndexType` code.
    pub fn code(self) -> (c: NSUInteger)
        ensures
            c == match self {
                IndexType::UInt16 => ffi::MTLIndexTypeUInt16,
                IndexType::UInt32 => ffi::MTLIndexTypeUInt32,
            },
    {
        match self {
            IndexType::UInt16 => ffi::MTLIndexTypeUInt16,
            IndexType::UInt32 => ffi::MTLIndexTypeUInt32,
        }
    }
}

} // verus!
