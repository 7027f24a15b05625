//! Errors raised while creating command buffers and encoders.

use crate::gpu::error::GpuError;
use vstd::prelude::*;
use vstd::string::*;

verus! {

/// The error for a command buffer that could not be created.
pub fn err_cmd_buffer() -> (e: GpuError)
    ensures
        e matches GpuError::CommandBufferError(m) && m@ == "creation failed"@,
{
    GpuError::CommandBufferError(String::from_str("creation failed"))
}

/// The error for a command encoder that could not be created.
pub fn err_encoder() -> (e: GpuError)
    ensures
        e is EncoderCreationFailed,
{
    GpuError::EncoderCreationFailed
}

} // verus!
