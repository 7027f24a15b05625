//! Streaming SVE / SME context: the streaming vector length it reports.
//!
//! Entering and leaving streaming mode (SMSTART / SMSTOP) and reading the
//! vector length (RDSVL) are machine instructions, issued by the caller;
//! a `Stream` records the vector length that RDSVL reported for the live
//! context and derives the lane counts from it.

use crate::error::{CpuError, Feature};
use vstd::prelude::*;

verus! {

/// A live streaming-mode context, with the streaming vector length in
/// bytes that the hardware reported for it.
pub struct Stream {
    svl_bytes: usize,
}

impl Stream {
    /// The answer of `require_sme`.
    pub open spec fn require_sme_spec(has_sme: bool) -> Result<(), CpuError> {
        if has_sme {
            Ok(())
        } else {
            Err(CpuError::FeatureNotAvailable(Feature::Sme))
        }
    }

    /// Whether streaming mode may be entered on a host that does
    /// (`has_sme`) or does not support FEAT_SME: without it the answer is
    /// `FeatureNotAvailable(Sme)`, and the caller must not issue SMSTART.
    pub fn require_sme(has_sme: bool) -> (r: Result<(), CpuError>)
        ensures
            r == Self::require_sme_spec(has_sme),
    {
        if !has_sme {
            return Err(CpuError::FeatureNotAvailable(Feature::Sme));
        }
        Ok(())
    }

    /// The context of a streaming mode whose vector length is `svl_bytes`
    /// bytes.
    pub fn with_vector_length(svl_bytes: usize) -> (s: Self)
        ensures
            s.svl_bytes() == svl_bytes,
    {
        Stream { svl_bytes }
    }

    /// The streaming vector length in bytes, as a specification value.
    pub closed spec fn svl_bytes_spec(&self) -> usize {
        self.svl_bytes
    }

    /// Streaming vector length in bytes (SVL / 8).
    #[verifier::when_used_as_spec(svl_bytes_spec)]
    pub fn svl_bytes(&self) -> (n: usize)
        ensures
            n == self.svl_bytes_spec(),
    {
        self.svl_bytes
    }

    /// Streaming vector length in 32-bit lanes.
    pub fn svl_lanes_f32(&self) -> (n: usize)
        ensures
            n == self.svl_bytes() / 4,
    {
        self.svl_bytes() / 4
    }

    /// Streaming vector length in 64-bit lanes.
    pub fn svl_lanes_f64(&self) -> (n: usize)
        ensures
            n == self.svl_bytes() / 8,
    {
        self.svl_bytes() / 8
    }
}

} // verus!
