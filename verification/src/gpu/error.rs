//! Errors of the Metal layer.

use vstd::prelude::*;
use vstd::string::*;

verus! {

/// Declares `std::io::Error` to Verus as an opaque type: values are carried
/// through, nothing inside them is visible.
#[verifier::external_type_specification]
#[verifier::external_body]
pub struct ExIoError(std::io::Error);

/// Errors returned by the Metal layer.
#[derive(Debug)]
#[non_exhaustive]
pub enum GpuError {
    /// No Metal-capable GPU found on this system.
    DeviceNotFound,
    /// GPU buffer allocation failed.
    BufferCreationFailed(String),
    /// MSL shader compilation failed (includes compiler diagnostic).
    LibraryCompilationFailed(String),
    /// Named function not found in compiled shader library.
    FunctionNotFound(String),
    /// Compute pipeline creation failed.
    PipelineCreationFailed(String),
    /// Command buffer execution failed.
    CommandBufferError(String),
    /// Could not create a command encoder.
    EncoderCreationFailed,
    /// Could not create a command queue.
    QueueCreationFailed,
    /// Texture creation failed.
    TextureCreationFailed(String),
    /// Filesystem I/O error.
    Io(std::io::Error),
}

/// The text of an I/O error, from `<std::io::Error as Display>::fmt`
/// (through `format!`). Nothing is stated of the text: it comes from the
/// operating system's error description or the message the error was made
/// with.
#[verifier::external_body]
fn io_error_text(e: &std::io::Error) -> String {
    format!("{}", e)
}

fn prefixed(prefix: &str, msg: &String) -> (r: String)
    ensures
        r@ == prefix@ + msg@,
{
    let mut s = String::from_str(prefix);
    s.append(msg.as_str());
    s
}

impl GpuError {
    /// The human-readable message of the error.
    pub fn message(&self) -> (r: String)
        ensures
            match self {
                GpuError::DeviceNotFound => r@ == "No Metal device found"@,
                GpuError::BufferCreationFailed(m) => r@ == "Buffer creation failed: "@ + m@,
                GpuError::LibraryCompilationFailed(m) => r@ == "Shader compilation failed: "@ + m@,
                GpuError::FunctionNotFound(m) => r@ == "Function not found: "@ + m@,
                GpuError::PipelineCreationFailed(m) => r@ == "Pipeline creation failed: "@ + m@,
                GpuError::CommandBufferError(m) => r@ == "Command buffer error: "@ + m@,
                GpuError::EncoderCreationFailed => r@ == "Encoder creation failed"@,
                GpuError::QueueCreationFailed => r@ == "Command queue creation failed"@,
                GpuError::TextureCreationFailed(m) => r@ == "Texture creation failed: "@ + m@,
                GpuError::Io(_) => r@.subrange(0, 10) == "IO error: "@ && r@.len() >= 10,
            },
    {
        match self {
            GpuError::DeviceNotFound => String::from_str("No Metal device found"),
            GpuError::BufferCreationFailed(m) => prefixed("Buffer creation failed: ", m),
            GpuError::LibraryCompilationFailed(m) => prefixed("Shader compilation failed: ", m),
            GpuError::FunctionNotFound(m) => prefixed("Function not found: ", m),
            GpuError::PipelineCreationFailed(m) => prefixed("Pipeline creation failed: ", m),
            GpuError::CommandBufferError(m) => prefixed("Command buffer error: ", m),
            GpuError::EncoderCreationFailed => String::from_str("Encoder creation failed"),
            GpuError::QueueCreationFailed => String::from_str("Command queue creation failed"),
            GpuError::TextureCreationFailed(m) => prefixed("Texture creation failed: ", m),
            GpuError::Io(e) => {
                let t = io_error_text(e);
                let r = prefixed("IO error: ", &t);
                proof {
                    reveal_strlit("IO error: ");
                    assert(r@.subrange(0, 10) =~= "IO error: "@);
                }
                r
            },
        }
    }
}

impl From<std::io::Error> for GpuError {
    fn from(e: std::io::Error) -> (r: Self) {
        GpuError::Io(e)
    }
}

impl vstd::std_specs::convert::FromSpecImpl<std::io::Error> for GpuError {
    open spec fn obeys_from_spec() -> bool {
        true
    }

    open spec fn from_spec(v: std::io::Error) -> GpuError {
        GpuError::Io(v)
    }
}

} // verus!
