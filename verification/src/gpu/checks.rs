//! Argument checks that the Metal factory methods make before they talk to
//! the device: a refused request is answered with these errors, and no
//! Metal object is created for it.

use crate::gpu::error::GpuError;
use crate::gpu::render::pipeline::RenderPipelineSpec;
use vstd::prelude::*;
use vstd::string::*;

verus! {

/// A buffer allocation of `size` bytes: refused when `size` is zero.
pub fn check_buffer_size(size: usize) -> (r: Result<(), GpuError>)
    ensures
        size > 0 ==> r is Ok,
        size == 0 ==> (r matches Err(GpuError::BufferCreationFailed(m)) && m@
            == "size must be > 0"@),
{
    if size == 0 {
        return Err(GpuError::BufferCreationFailed(String::from_str("size must be > 0")));
    }
    Ok(())
}

/// A render or depth target of `width` x `height` texels: refused when
/// either side is zero.
pub fn check_target_size(width: u32, height: u32) -> (r: Result<(), GpuError>)
    ensures
        (width > 0 && height > 0) ==> r is Ok,
        (width == 0 || height == 0) ==> (r matches Err(GpuError::TextureCreationFailed(m)) && m@
            == "width/height must be > 0"@),
{
    if width == 0 || height == 0 {
        return Err(GpuError::TextureCreationFailed(String::from_str("width/height must be > 0")));
    }
    Ok(())
}

/// A render pipeline spec: refused when it has no color attachment.
pub fn check_pipeline_spec(spec: &RenderPipelineSpec) -> (r: Result<(), GpuError>)
    ensures
        spec.color_attachments@.len() > 0 ==> r is Ok,
        spec.color_attachments@.len() == 0 ==> (r matches Err(
            GpuError::PipelineCreationFailed(m),
        ) && m@ == "at least one color attachment required"@),
{
    if spec.color_attachments.len() == 0 {
        return Err(
            GpuError::PipelineCreationFailed(
                String::from_str("at least one color attachment required"),
            ),
        );
    }
    Ok(())
}

} // verus!
