//! What building a render pipeline sets on the Metal descriptor, decided
//! from a `RenderPipelineSpec` before any Metal call, and the record kept
//! of the built pipeline.

use crate::gpu::error::GpuError;
use crate::gpu::ffi::NSUInteger;
use crate::gpu::render::pipeline::{
    blend_factor_code, blend_op_code, BlendFactor, BlendOp, BlendState, ColorAttachmentSpec,
    RenderPipelineSpec,
};
use vstd::prelude::*;
use vstd::string::*;

verus! {

/// The blend codes set on a color attachment slot with blending enabled.
#[derive(Debug, Clone, Copy)]
pub struct BlendCodes {
    pub rgb_op: NSUInteger,
    pub alpha_op: NSUInteger,
    pub src_rgb: NSUInteger,
    pub dst_rgb: NSUInteger,
    pub src_alpha: NSUInteger,
    pub dst_alpha: NSUInteger,
}

/// The settings of one color attachment slot: pixel format, write mask, and
/// the blend codes when blending is enabled (`None`: blending disabled).
#[derive(Debug, Clone, Copy)]
pub struct AttachmentSettings {
    pub pixel_format: NSUInteger,
    pub write_mask: NSUInteger,
    pub blend: Option<BlendCodes>,
}

/// Everything building a pipeline sets on the descriptor apart from the two
/// shader functions: one entry per color attachment, in order; the depth
/// and stencil formats when the spec has them; the raster sample count when
/// it is above one; and whether a vertex descriptor is attached.
#[derive(Debug, Clone)]
pub struct RenderPipelineSetup {
    pub attachments: Vec<AttachmentSettings>,
    pub depth_format: Option<NSUInteger>,
    pub stencil_format: Option<NSUInteger>,
    pub raster_sample_count: Option<NSUInteger>,
    pub sets_vertex_descriptor: bool,
}

/// The blend codes of a blend state.
pub open spec fn blend_codes_spec(b: BlendState) -> BlendCodes {
    BlendCodes {
        rgb_op: blend_op_code(b.rgb_op),
        alpha_op: blend_op_code(b.alpha_op),
        src_rgb: blend_factor_code(b.src_rgb),
        dst_rgb: blend_factor_code(b.dst_rgb),
        src_alpha: blend_factor_code(b.src_alpha),
        dst_alpha: blend_factor_code(b.dst_alpha),
    }
}

/// The settings of the slot of attachment `a`.
pub open spec fn attachment_settings_spec(a: ColorAttachmentSpec) -> AttachmentSettings {
    AttachmentSettings {
        pixel_format: a.format,
        write_mask: a.write_mask as NSUInteger,
        blend: match a.blend {
            Some(b) => Some(blend_codes_spec(b)),
            None => None,
        },
    }
}

/// The slot of an attachment carries the attachment's own pixel format and
/// write mask, enables blending exactly when the attachment has a blend
/// state, and then sets each Metal blend operation and factor from the
/// field of the same name: the RGB operation from `rgb_op`, the alpha
/// operation from `alpha_op`, and so on.
pub proof fn lemma_attachment_settings_fields(a: ColorAttachmentSpec)
    ensures
        ({
            let s = attachment_settings_spec(a);
            &&& s.pixel_format == a.format
            &&& s.write_mask == a.write_mask as NSUInteger
            &&& (a.blend is None <==> s.blend is None)
            &&& a.blend matches Some(b) ==> (s.blend matches Some(c) && {
                &&& c.rgb_op == blend_op_code(b.rgb_op)
                &&& c.alpha_op == blend_op_code(b.alpha_op)
                &&& c.src_rgb == blend_factor_code(b.src_rgb)
                &&& c.dst_rgb == blend_factor_code(b.dst_rgb)
                &&& c.src_alpha == blend_factor_code(b.src_alpha)
                &&& c.dst_alpha == blend_factor_code(b.dst_alpha)
            })
        }),
{
}

/// The Metal codes of blend operations and factors are the `MTLBlendOperation`
/// and `MTLBlendFactor` constants of the same name.
pub proof fn lemma_blend_codes_are_metal_constants(o: BlendOp, f: BlendFactor)
    ensures
        blend_op_code(o) == match o {
            BlendOp::Add => 0usize,
            BlendOp::Subtract => 1,
            BlendOp::ReverseSubtract => 2,
            BlendOp::Min => 3,
            BlendOp::Max => 4,
        },
        blend_factor_code(f) == match f {
            BlendFactor::Zero => 0usize,
            BlendFactor::One => 1,
            BlendFactor::SourceColor => 2,
            BlendFactor::OneMinusSourceColor => 3,
            BlendFactor::SourceAlpha => 4,
            BlendFactor::OneMinusSourceAlpha => 5,
            BlendFactor::DestinationAlpha => 6,
            BlendFactor::OneMinusDestinationAlpha => 7,
            BlendFactor::DestinationColor => 8,
            BlendFactor::OneMinusDestinationColor => 9,
        },
{
}

/// The slot settings of one color attachment.
pub fn attachment_settings(a: &ColorAttachmentSpec) -> (s: AttachmentSettings)
    ensures
        s == attachment_settings_spec(*a),
        s.pixel_format == a.format,
        s.write_mask == a.write_mask as NSUInteger,
        a.blend is None <==> s.blend is None,
        a.blend matches Some(b) ==> (s.blend matches Some(c) && {
            &&& c.rgb_op == blend_op_code(b.rgb_op)
            &&& c.alpha_op == blend_op_code(b.alpha_op)
            &&& c.src_rgb == blend_factor_code(b.src_rgb)
            &&& c.dst_rgb == blend_factor_code(b.dst_rgb)
            &&& c.src_alpha == blend_factor_code(b.src_alpha)
            &&& c.dst_alpha == blend_factor_code(b.dst_alpha)
        }),
{
    let blend = match a.blend {
        Some(b) => Some(
            BlendCodes {
                rgb_op: b.rgb_op.code(),
                alpha_op: b.alpha_op.code(),
                src_rgb: b.src_rgb.code(),
                dst_rgb: b.dst_rgb.code(),
                src_alpha: b.src_alpha.code(),
                dst_alpha: b.dst_alpha.code(),
            },
        ),
        None => None,
    };
    AttachmentSettings { pixel_format: a.format, write_mask: a.write_mask as NSUInteger, blend }
}

/// The descriptor settings for `spec`; refused, as `check_pipeline_spec`
/// refuses it, when the spec has no color attachment.
pub fn render_pipeline_setup(spec: &RenderPipelineSpec) -> (r: Result<RenderPipelineSetup, GpuError>)
    ensures
        spec.color_attachments@.len() == 0 ==> (r matches Err(GpuError::PipelineCreationFailed(m))
            && m@ == "at least one color attachment required"@),
        spec.color_attachments@.len() > 0 ==> (r matches Ok(s) && {
            &&& s.attachments@.len() == spec.color_attachments@.len()
            &&& forall|i: int|
                0 <= i < s.attachments@.len() ==> #[trigger] s.attachments@[i]
                    == attachment_settings_spec(spec.color_attachments@[i])
            &&& forall|i: int|
                0 <= i < s.attachments@.len() ==> {
                    let a = spec.color_attachments@[i];
                    let t = #[trigger] s.attachments@[i];
                    &&& t.pixel_format == a.format
                    &&& t.write_mask == a.write_mask as NSUInteger
                    &&& (a.blend is None <==> t.blend is None)
                    &&& a.blend matches Some(b) ==> (t.blend matches Some(c) && {
                        &&& c.rgb_op == blend_op_code(b.rgb_op)
                        &&& c.alpha_op == blend_op_code(b.alpha_op)
                        &&& c.src_rgb == blend_factor_code(b.src_rgb)
                        &&& c.dst_rgb == blend_factor_code(b.dst_rgb)
                        &&& c.src_alpha == blend_factor_code(b.src_alpha)
                        &&& c.dst_alpha == blend_factor_code(b.dst_alpha)
                    })
                }
            &&& s.depth_format == spec.depth_format
            &&& s.stencil_format == spec.stencil_format
            &&& s.raster_sample_count == if spec.sample_count > 1 {
                Some(spec.sample_count as NSUInteger)
            } else {
                None
            }
            &&& s.sets_vertex_descriptor == spec.vertex_descriptor is Some
        }),
{
    match crate::gpu::checks::check_pipeline_spec(spec) {
        Err(e) => return Err(e),
        Ok(()) => {},
    }
    let n = spec.color_attachments.len();
    let mut attachments: Vec<AttachmentSettings> = Vec::new();
    let mut i: usize = 0;
    while i < n
        invariant
            n == spec.color_attachments@.len(),
            i <= n,
            attachments@.len() == i,
            forall|k: int|
                0 <= k < i ==> #[trigger] attachments@[k] == attachment_settings_spec(
                    spec.color_attachments@[k],
                ),
        decreases n - i,
    {
        attachments.push(attachment_settings(&spec.color_attachments[i]));
        i += 1;
    }
    let raster_sample_count = if spec.sample_count > 1 {
        Some(spec.sample_count as NSUInteger)
    } else {
        None
    };
    Ok(
        RenderPipelineSetup {
            attachments,
            depth_format: spec.depth_format,
            stencil_format: spec.stencil_format,
            raster_sample_count,
            sets_vertex_descriptor: spec.vertex_descriptor.is_some(),
        },
    )
}

/// The error of a pipeline that Metal refused to build: its diagnostic
/// text, or `"unknown error"` when Metal gave none.
pub fn pipeline_failure(message: Option<String>) -> (e: GpuError)
    ensures
        e matches GpuError::PipelineCreationFailed(m) && m@ == match message {
            Some(t) => t@,
            None => "unknown error"@,
        },
{
    match message {
        Some(t) => GpuError::PipelineCreationFailed(t),
        None => GpuError::PipelineCreationFailed(String::from_str("unknown error")),
    }
}

/// What is kept of a built render pipeline: its number of color
/// attachments and its sample count.
pub struct RenderPipeline {
    color_attachments: usize,
    sample_count: u32,
}

impl RenderPipeline {
    /// The record of a pipeline built from `spec`.
    pub fn for_spec(spec: &RenderPipelineSpec) -> (p: Self)
        ensures
            p.color_attachments() == spec.color_attachments@.len(),
            p.sample_count() == spec.sample_count,
    {
        RenderPipeline { color_attachments: spec.color_attachments.len(), sample_count: spec.sample_count }
    }

    /// Number of color attachments, as a specification value.
    pub closed spec fn color_attachments_spec(&self) -> usize {
        self.color_attachments
    }

    /// Sample count, as a specification value.
    pub closed spec fn sample_count_spec(&self) -> u32 {
        self.sample_count
    }

    /// Number of color attachments the pipeline was built with.
    #[verifier::when_used_as_spec(color_attachments_spec)]
    pub fn color_attachments(&self) -> (n: usize)
        ensures
            n == self.color_attachments_spec(),
    {
        self.color_attachments
    }

    /// MSAA sample count the pipeline was built with.
    #[verifier::when_used_as_spec(sample_count_spec)]
    pub fn sample_count(&self) -> (n: u32)
        ensures
            n == self.sample_count_spec(),
    {
        self.sample_count
    }
}

} // verus!
