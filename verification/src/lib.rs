//! A small collection of two independent, fully verified utilities:
//! a dense rectangular matrix value type with elementary operations,
//! and three comparison-based in-place sorting algorithms.

pub mod linear_algebra;
pub mod sort;
