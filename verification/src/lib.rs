//! Verified building blocks for two small calculators: a scalar multiplier
//! and a matrix multiplier. Cell values are 64-bit integers; every public
//! function carries a contract that pins down its result.

pub mod matrix;
pub mod parse;
pub mod render;
pub mod scalar;
