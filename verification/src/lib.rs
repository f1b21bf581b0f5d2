//! Host-side logic of a 3D Gaussian splatting renderer: the stored point-cloud
//! format, the GPU record layout, the bitonic sort plan with its uniform table,
//! the sorting network itself, and the per-frame schedule of GPU passes.
//!
//! Every 32-bit float that crosses this library is carried as its IEEE-754 bit
//! pattern in a `u32`; no arithmetic on floats happens here.

pub mod bytes;
pub mod gaussian;
pub mod ply;
pub mod resources;
pub mod sort_network;
pub mod sort_plan;
pub mod sort_proof;
pub mod sort_table;
pub mod splat_pass;
