//! Render pipeline specification: color attachment formats and blending,
//! depth/stencil formats, MSAA sample count, vertex descriptor; plus the
//! cull, winding and depth-compare settings of the render encoder.

use crate::gpu::ffi;
use crate::gpu::ffi::NSUInteger;
use crate::gpu::render::vertex::VertexDescriptor;
use vstd::prelude::*;

verus! {

/// Builder spec for a render pipeline.
#[derive(Debug, Clone)]
pub struct RenderPipelineSpec {
    pub color_attachments: Vec<ColorAttachmentSpec>,
    pub depth_format: Option<NSUInteger>,
    pub stencil_format: Option<NSUInteger>,
    pub sample_count: u32,
    pub vertex_descriptor: Option<VertexDescriptor>,
}

/// A color attachment of pixel format `format` with no blending and all
/// channels written.
pub open spec fn plain_attachment(format: NSUInteger) -> ColorAttachmentSpec {
    ColorAttachmentSpec { format, blend: None, write_mask: 0xF }
}

impl RenderPipelineSpec {
    /// Single color attachment, no depth, no MSAA.
    pub fn color(format: NSUInteger) -> (s: Self)
        ensures
            s.color_attachments@ == seq![plain_attachment(format)],
            s.depth_format is None,
            s.stencil_format is None,
            s.sample_count == 1,
            s.vertex_descriptor is None,
    {
        let mut v = Vec::new();
        v.push(ColorAttachmentSpec::new(format));
        proof {
            assert(v@ =~= seq![plain_attachment(format)]);
        }
        RenderPipelineSpec {
            color_attachments: v,
            depth_format: None,
            stencil_format: None,
            sample_count: 1,
            vertex_descriptor: None,
        }
    }

    /// One color attachment per format, in order; no depth, no MSAA.
    pub fn colors(formats: &[NSUInteger]) -> (s: Self)
        ensures
            s.color_attachments@ == formats@.map_values(|f: NSUInteger| plain_attachment(f)),
            s.depth_format is None,
            s.stencil_format is None,
            s.sample_count == 1,
            s.vertex_descriptor is None,
    {
        let mut v: Vec<ColorAttachmentSpec> = Vec::new();
        let mut i: usize = 0;
        while i < formats.len()
            invariant
                i <= formats@.len(),
                v@ == formats@.subrange(0, i as int).map_values(|f: NSUInteger| plain_attachment(f)),
            decreases formats@.len() - i,
        {
            v.push(ColorAttachmentSpec::new(formats[i]));
            proof {
                assert(formats@.subrange(0, i + 1).map_values(|f: NSUInteger| plain_attachment(f))
                    =~= formats@.subrange(0, i as int).map_values(|f: NSUInteger| plain_attachment(f)).push(
                    plain_attachment(formats@[i as int]),
                ));
            }
            i += 1;
        }
        proof {
            assert(formats@.subrange(0, formats@.len() as int) =~= formats@);
        }
        RenderPipelineSpec {
            color_attachments: v,
            depth_format: None,
            stencil_format: None,
            sample_count: 1,
            vertex_descriptor: None,
        }
    }

    /// Set the depth attachment format.
    pub fn with_depth(self, format: NSUInteger) -> (s: Self)
        ensures
            s == (RenderPipelineSpec { depth_format: Some(format), ..self }),
    {
        let mut s = self;
        s.depth_format = Some(format);
        s
    }

    /// Set the stencil attachment format.
    pub fn with_stencil(self, format: NSUInteger) -> (s: Self)
        ensures
            s == (RenderPipelineSpec { stencil_format: Some(format), ..self }),
    {
        let mut s = self;
        s.stencil_format = Some(format);
        s
    }

    /// Set the MSAA sample count.
    pub fn with_sample_count(self, n: u32) -> (s: Self)
        ensures
            s == (RenderPipelineSpec { sample_count: n, ..self }),
    {
        let mut s = self;
        s.sample_count = n;
        s
    }

    /// Set the vertex descriptor.
    pub fn with_vertex_descriptor(self, desc: VertexDescriptor) -> (s: Self)
        ensures
            s == (RenderPipelineSpec { vertex_descriptor: Some(desc), ..self }),
    {
        let mut s = self;
        s.vertex_descriptor = Some(desc);
        s
    }

    /// Replace the blend configuration of attachment `index`.
    pub fn with_blend(self, index: usize, blend: BlendState) -> (s: Self)
        requires
            index < self.color_attachments@.len(),
        ensures
            s.color_attachments@ == self.color_attachments@.update(
                index as int,
                ColorAttachmentSpec { blend: Some(blend), ..self.color_attachments@[index as int] },
            ),
            s.depth_format == self.depth_format,
            s.stencil_format == self.stencil_format,
            s.sample_count == self.sample_count,
            s.vertex_descriptor == self.vertex_descriptor,
    {
        let mut s = self;
        let updated = ColorAttachmentSpec {
            format: s.color_attachments[index].format,
            blend: Some(blend),
            write_mask: s.color_attachments[index].write_mask,
        };
        s.color_attachments.set(index, updated);
        s
    }
}

/// Per-attachment color spec: pixel format and optional blend state.
#[derive(Debug, Clone)]
pub struct ColorAttachmentSpec {
    pub format: NSUInteger,
    pub blend: Option<BlendState>,
    /// Write mask (bits: R=1, G=2, B=4, A=8). Default 0xF (all).
    pub write_mask: u32,
}

impl ColorAttachmentSpec {
    /// Attachment of pixel format `format`, no blending, all channels written.
    pub fn new(format: NSUInteger) -> (a: Self)
        ensures
            a == plain_attachment(format),
    {
        ColorAttachmentSpec { format, blend: None, write_mask: 0xF }
    }

    /// Set the blend state.
    pub fn with_blend(self, blend: BlendState) -> (a: Self)
        ensures
            a == (ColorAttachmentSpec { blend: Some(blend), ..self }),
    {
        let mut a = self;
        a.blend = Some(blend);
        a
    }

    /// Set the write mask.
    pub fn with_write_mask(self, mask: u32) -> (a: Self)
        ensures
            a == (ColorAttachmentSpec { write_mask: mask, ..self }),
    {
        let mut a = self;
        a.write_mask = mask;
        a
    }
}

/// Blend state for one color attachment.
#[derive(Debug, Clone, Copy)]
pub struct BlendState {
    pub rgb_op: BlendOp,
    pub alpha_op: BlendOp,
    pub src_rgb: BlendFactor,
    pub dst_rgb: BlendFactor,
    pub src_alpha: BlendFactor,
    pub dst_alpha: BlendFactor,
}

impl BlendState {
    /// Standard alpha blending (source over).
    pub fn alpha_over() -> (b: Self)
        ensures
            b == (BlendState {
                rgb_op: BlendOp::Add,
                alpha_op: BlendOp::Add,
                src_rgb: BlendFactor::SourceAlpha,
                dst_rgb: BlendFactor::OneMinusSourceAlpha,
                src_alpha: BlendFactor::One,
                dst_alpha: BlendFactor::OneMinusSourceAlpha,
            }),
    {
        BlendState {
            rgb_op: BlendOp::Add,
            alpha_op: BlendOp::Add,
            src_rgb: BlendFactor::SourceAlpha,
            dst_rgb: BlendFactor::OneMinusSourceAlpha,
            src_alpha: BlendFactor::One,
            dst_alpha: BlendFactor::OneMinusSourceAlpha,
        }
    }

    /// Additive blending.
    pub fn additive() -> (b: Self)
        ensures
            b == (BlendState {
                rgb_op: BlendOp::Add,
                alpha_op: BlendOp::Add,
                src_rgb: BlendFactor::One,
                dst_rgb: BlendFactor::One,
                src_alpha: BlendFactor::One,
                dst_alpha: BlendFactor::One,
            }),
    {
        BlendState {
            rgb_op: BlendOp::Add,
            alpha_op: BlendOp::Add,
            src_rgb: BlendFactor::One,
            dst_rgb: BlendFactor::One,
            src_alpha: BlendFactor::One,
            dst_alpha: BlendFactor::One,
        }
    }
}

/// Blend factor (`MTLBlendFactor`).
#[derive(Debug, Clone, Copy)]
pub enum BlendFactor {
    Zero,
    One,
    SourceColor,
    OneMinusSourceColor,
    SourceAlpha,
    OneMinusSourceAlpha,
    DestinationAlpha,
    OneMinusDestinationAlpha,
    DestinationColor,
    OneMinusDestinationColor,
}

/// The Metal code of a `BlendFactor`.
pub open spec fn blend_factor_code(v: BlendFactor) -> NSUInteger {
    match v {
        BlendFactor::Zero => ffi::MTLBlendFactorZero,
        BlendFactor::One => ffi::MTLBlendFactorOne,
        BlendFactor::SourceColor => ffi::MTLBlendFactorSourceColor,
        BlendFactor::OneMinusSourceColor => ffi::MTLBlendFactorOneMinusSourceColor,
        BlendFactor::SourceAlpha => ffi::MTLBlendFactorSourceAlpha,
        BlendFactor::OneMinusSourceAlpha => ffi::MTLBlendFactorOneMinusSourceAlpha,
        BlendFactor::DestinationAlpha => ffi::MTLBlendFactorDestinationAlpha,
        BlendFactor::OneMinusDestinationAlpha => ffi::MTLBlendFactorOneMinusDestinationAlpha,
        BlendFactor::DestinationColor => ffi::MTLBlendFactorDestinationColor,
        BlendFactor::OneMinusDestinationColor => ffi::MTLBlendFactorOneMinusDestinationColor,
    }
}

impl BlendFactor {
    /// The `MTLBlendFactor` code.
    pub fn code(self) -> (c: NSUInteger)
        ensures
            c == blend_factor_code(self),
    {
        match self {
            BlendFactor::Zero => ffi::MTLBlendFactorZero,
            BlendFactor::One => ffi::MTLBlendFactorOne,
            BlendFactor::SourceColor => ffi::MTLBlendFactorSourceColor,
            BlendFactor::OneMinusSourceColor => ffi::MTLBlendFactorOneMinusSourceColor,
            BlendFactor::SourceAlpha => ffi::MTLBlendFactorSourceAlpha,
            BlendFactor::OneMinusSourceAlpha => ffi::MTLBlendFactorOneMinusSourceAlpha,
            BlendFactor::DestinationAlpha => ffi::MTLBlendFactorDestinationAlpha,
            BlendFactor::OneMinusDestinationAlpha => ffi::MTLBlendFactorOneMinusDestinationAlpha,
            BlendFactor::DestinationColor => ffi::MTLBlendFactorDestinationColor,
            BlendFactor::OneMinusDestinationColor => ffi::MTLBlendFactorOneMinusDestinationColor,
        }
    }
}

/// Blend operation (`MTLBlendOperation`).
#[derive(Debug, Clone, Copy)]
pub enum BlendOp {
    Add,
    Subtract,
    ReverseSubtract,
    Min,
    Max,
}

/// The Metal code of a `BlendOp`.
pub open spec fn blend_op_code(v: BlendOp) -> NSUInteger {
    match v {
        BlendOp::Add => ffi::MTLBlendOperationAdd,
        BlendOp::Subtract => ffi::MTLBlendOperationSubtract,
        BlendOp::ReverseSubtract => ffi::MTLBlendOperationReverseSubtract,
        BlendOp::Min => ffi::MTLBlendOperationMin,
        BlendOp::Max => ffi::MTLBlendOperationMax,
    }
}

impl BlendOp {
    /// The `MTLBlendOperation` code.
    pub fn code(self) -> (c: NSUInteger)
        ensures
            c == blend_op_code(self),
    {
        match self {
            BlendOp::Add => ffi::MTLBlendOperationAdd,
            BlendOp::Subtract => ffi::MTLBlendOperationSubtract,
            BlendOp::ReverseSubtract => ffi::MTLBlendOperationReverseSubtract,
            BlendOp::Min => ffi::MTLBlendOperationMin,
            BlendOp::Max => ffi::MTLBlendOperationMax,
        }
    }
}

/// Triangle cull mode (`MTLCullMode`).
#[derive(Debug, Clone, Copy)]
pub enum CullMode {
    NoCull,
    Front,
    Back,
}

impl CullMode {
    /// The `MTLCullMode` code.
    pub fn code(self) -> (c: NSUInteger)
        ensures
            c == match self {
                CullMode::NoCull => ffi::MTLCullModeNone,
                CullMode::Front => ffi::MTLCullModeFront,
                CullMode::Back => ffi::MTLCullModeBack,
            },
    {
        match self {
            CullMode::NoCull => ffi::MTLCullModeNone,
            CullMode::Front => ffi::MTLCullModeFront,
            CullMode::Back => ffi::MTLCullModeBack,
        }
    }
}

/// Front-face winding order (`MTLWinding`).
#[derive(Debug, Clone, Copy)]
pub enum Winding {
    Clockwise,
    CounterClockwise,
}

impl Winding {
    /// The `MTLWinding` code.
    pub fn code(self) -> (c: NSUInteger)
        ensures
            c == match self {
                Winding::Clockwise => ffi::MTLWindingClockwise,
                Winding::CounterClockwise => ffi::MTLWindingCounterClockwise,
            },
    {
        match self {
            Winding::Clockwise => ffi::MTLWindingClockwise,
            Winding::CounterClockwise => ffi::MTLWindingCounterClockwise,
        }
    }
}

/// Depth compare function (`MTLCompareFunction`).
#[derive(Debug, Clone, Copy)]
pub enum CompareFunction {
    Never,
    Less,
    Equal,
    LessEqual,
    Greater,
    NotEqual,
    GreaterEqual,
    Always,
}

impl CompareFunction {
    /// The `MTLCompareFunction` code.
    pub fn code(self) -> (c: NSUInteger)
        ensures
            c == match self {
                CompareFunction::Never => ffi::MTLCompareFunctionNever,
                CompareFunction::Less => ffi::MTLCompareFunctionLess,
                CompareFunction::Equal => ffi::MTLCompareFunctionEqual,
                CompareFunction::LessEqual => ffi::MTLCompareFunctionLessEqual,
                CompareFunction::Greater => ffi::MTLCompareFunctionGreater,
                CompareFunction::NotEqual => ffi::MTLCompareFunctionNotEqual,
                CompareFunction::GreaterEqual => ffi::MTLCompareFunctionGreaterEqual,
                CompareFunction::Always => ffi::MTLCompareFunctionAlways,
            },
    {
        match self {
            CompareFunction::Never => ffi::MTLCompareFunctionNever,
            CompareFunction::Less => ffi::MTLCompareFunctionLess,
            CompareFunction::Equal => ffi::MTLCompareFunctionEqual,
            CompareFunction::LessEqual => ffi::MTLCompareFunctionLessEqual,
            CompareFunction::Greater => ffi::MTLCompareFunctionGreater,
            CompareFunction::NotEqual => ffi::MTLCompareFunctionNotEqual,
            CompareFunction::GreaterEqual => ffi::MTLCompareFunctionGreaterEqual,
            CompareFunction::Always => ffi::MTLCompareFunctionAlways,
        }
    }
}

/// Depth/stencil state configuration.
#[derive(Debug, Clone, Copy)]
pub struct DepthStencil {
    pub compare: CompareFunction,
    pub write_enabled: bool,
}

impl DepthStencil {
    /// Standard "draw if closer, write depth" state.
    pub fn less_write() -> (d: Self)
        ensures
            d == (DepthStencil { compare: CompareFunction::Less, write_enabled: true }),
    {
        DepthStencil { compare: CompareFunction::Less, write_enabled: true }
    }

    /// "Always pass, no depth write", for overlays.
    pub fn always_no_write() -> (d: Self)
        ensures
            d == (DepthStencil { compare: CompareFunction::Always, write_enabled: false }),
    {
        DepthStencil { compare: CompareFunction::Always, write_enabled: false }
    }
}

} // verus!
