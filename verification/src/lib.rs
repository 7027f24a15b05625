//! Verified Goldilocks-field kernels (NTT and its algebraic laws,
//! multilinear evaluation, the Tip5 permutation and sponges, batched
//! Montgomery lanes), table-indexed byte permutes, the streaming-mode
//! context and feature gate, work partitioning, and the plain data model of
//! the Metal compute and render layer.

pub mod bench;
pub mod error;
pub mod field;
pub mod gpu;
pub mod lut;
pub mod sme;
pub mod streaming;

pub use error::{CpuError, Feature};
