//! Vertex descriptor: typed vertex input layout, turned into a
//! `MTLVertexDescriptor` when a render pipeline is built.

use crate::gpu::ffi;
use crate::gpu::ffi::NSUInteger;
use vstd::prelude::*;

verus! {

/// Vertex attribute element format (`MTLVertexFormat`).
#[derive(Debug, Clone, Copy)]
pub enum VertexFormat {
    Float,
    Float2,
    Float3,
    Float4,
    Half2,
    Half4,
    UChar4Normalized,
    UInt,
    Int,
}

impl VertexFormat {
    /// The `MTLVertexFormat` code.
    pub fn code(self) -> (c: NSUInteger)
        ensures
            c == match self {
                VertexFormat::Float => ffi::MTLVertexFormatFloat,
                VertexFormat::Float2 => ffi::MTLVertexFormatFloat2,
                VertexFormat::Float3 => ffi::MTLVertexFormatFloat3,
                VertexFormat::Float4 => ffi::MTLVertexFormatFloat4,
                VertexFormat::Half2 => ffi::MTLVertexFormatHalf2,
                VertexFormat::Half4 => ffi::MTLVertexFormatHalf4,
                VertexFormat::UChar4Normalized => ffi::MTLVertexFormatUChar4Normalized,
                VertexFormat::UInt => ffi::MTLVertexFormatUInt,
                VertexFormat::Int => ffi::MTLVertexFormatInt,
            },
    {
        match self {
            VertexFormat::Float => ffi::MTLVertexFormatFloat,
            VertexFormat::Float2 => ffi::MTLVertexFormatFloat2,
            VertexFormat::Float3 => ffi::MTLVertexFormatFloat3,
            VertexFormat::Float4 => ffi::MTLVertexFormatFloat4,
            VertexFormat::Half2 => ffi::MTLVertexFormatHalf2,
            VertexFormat::Half4 => ffi::MTLVertexFormatHalf4,
            VertexFormat::UChar4Normalized => ffi::MTLVertexFormatUChar4Normalized,
            VertexFormat::UInt => ffi::MTLVertexFormatUInt,
            VertexFormat::Int => ffi::MTLVertexFormatInt,
        }
    }
}

/// Step function (`MTLVertexStepFunction`).
#[derive(Debug, Clone, Copy)]
pub enum VertexStep {
    Constant,
    PerVertex,
    PerInstance,
}

impl VertexStep {
    /// The `MTLVertexStepFunction` code.
    pub fn code(self) -> (c: NSUInteger)
        ensures
            c == match self {
                VertexStep::Constant => ffi::MTLVertexStepFunctionConstant,
                VertexStep::PerVertex => ffi::MTLVertexStepFunctionPerVertex,
                VertexStep::PerInstance => ffi::MTLVertexStepFunctionPerInstance,
            },
    {
        match self {
            VertexStep::Constant => ffi::MTLVertexStepFunctionConstant,
            VertexStep::PerVertex => ffi::MTLVertexStepFunctionPerVertex,
            VertexStep::PerInstance => ffi::MTLVertexStepFunctionPerInstance,
        }
    }
}

/// One attribute (e.g. position, normal, uv) sourced from a buffer.
#[derive(Debug, Clone, Copy)]
pub struct VertexAttribute {
    /// Shader location (`[[attribute(N)]]`).
    pub shader_location: u32,
    pub format: VertexFormat,
    /// Byte offset within the buffer's stride.
    pub offset: u32,
    /// Which vertex buffer index this attribute reads from.
    pub buffer_index: u32,
}

/// Layout of one vertex buffer binding.
#[derive(Debug, Clone, Copy)]
pub struct VertexBufferLayout {
    /// Vertex buffer index (`[[buffer(N)]]`).
    pub buffer_index: u32,
    pub stride: u32,
    pub step: VertexStep,
    pub step_rate: u32,
}

/// Vertex descriptor: a collection of attributes and buffer layouts.
#[derive(Debug, Clone)]
pub struct VertexDescriptor {
    pub attributes: Vec<VertexAttribute>,
    pub layouts: Vec<VertexBufferLayout>,
}

impl Default for VertexDescriptor {
    fn default() -> (d: Self)
        ensures
            d.attributes@.len() == 0,
            d.layouts@.len() == 0,
    {
        VertexDescriptor { attributes: Vec::new(), layouts: Vec::new() }
    }
}

impl VertexDescriptor {
    /// An empty descriptor.
    pub fn new() -> (d: Self)
        ensures
            d.attributes@.len() == 0,
            d.layouts@.len() == 0,
    {
        VertexDescriptor { attributes: Vec::new(), layouts: Vec::new() }
    }

    /// Append an attribute.
    pub fn with_attribute(self, a: VertexAttribute) -> (d: Self)
        ensures
            d.attributes@ == self.attributes@.push(a),
            d.layouts@ == self.layouts@,
    {
        let mut d = self;
        d.attributes.push(a);
        d
    }

    /// Append a buffer layout.
    pub fn with_layout(self, l: VertexBufferLayout) -> (d: Self)
        ensures
            d.layouts@ == self.layouts@.push(l),
            d.attributes@ == self.attributes@,
    {
        let mut d = self;
        d.layouts.push(l);
        d
    }
}

} // verus!
