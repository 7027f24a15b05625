//! Why a kernel that needs an optional CPU feature could not run.

use vstd::prelude::*;

verus! {

/// A hardware feature that a kernel needs.
#[derive(Debug, Clone, Copy, PartialEq, Eq, Structural)]
pub enum Feature {
    /// The Scalable Matrix Extension (FEAT_SME).
    Sme,
    /// The second version of the Scalable Matrix Extension (FEAT_SME2).
    Sme2,
}

/// Errors of the CPU kernels.
#[derive(Debug, Clone, Copy, PartialEq, Eq, Structural)]
pub enum CpuError {
    /// The host lacks the named feature.
    FeatureNotAvailable(Feature),
}

} // verus!
