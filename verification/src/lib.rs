//! Dense linear algebra over lane groups.
//!
//! A vector of any length is held as a run of fixed-width lane groups: as many
//! 64-wide groups as fit, then at most one group each of 32, 16, 8, 4, 2 and 1
//! lanes. Matrices are rows of such vectors. The algorithms on top (dot
//! product, magnitude, matrix sum and product) are written once, against two
//! small capability traits.
//!
//! The lane type is a parameter. Single-precision floating point is what the
//! library is meant for; every type with the four arithmetic operators and a
//! default value will do, and the contracts say of each operation what holds
//! of every such type and what holds of those with exact arithmetic.

pub mod algebra;
pub mod structures;
