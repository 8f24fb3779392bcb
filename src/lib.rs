//! Integer core of a two dimensional value-noise generator.
//!
//! The lattice hash maps every integer grid point to a 31-bit value `t`, read as
//! the lattice value `1 - t / 2^30`, which lies in `[-1, 1]`. The smoothing kernel
//! then blends the 3x3 neighbourhood of a grid point with weights 1 (diagonal),
//! 2 (edge-adjacent) and 4 (centre) out of 16, which gives the corner value
//! `1 - s / 2^34` for an integer weighted sum `s` of hashes. Both are exact
//! integers, so the floating-point layer above them loses nothing.
pub mod lattice;
