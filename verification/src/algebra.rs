//! Arithmetic on lanes and the capability traits built on it.

pub mod grid;
pub mod laws;
pub mod scalar;
pub mod simd;

pub mod vector;
