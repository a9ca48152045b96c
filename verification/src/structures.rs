//! The lane-group vector, the matrices built from it, and backend choice.

pub mod argument;
pub mod lane_group;
pub mod matrix;
pub mod matrix_simd;
pub mod vector_simd;
