//! Arithmetic over the Goldilocks prime field `p = 2^64 - 2^32 + 1`.

pub mod dft;
pub mod goldilocks;
pub mod ntt;
pub mod poly;
pub mod prime;
pub mod roots;
pub mod sums;
pub mod tip5;
pub mod tip5_canonical;
