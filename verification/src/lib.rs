//! Procedurally generated icosphere meshes together with the vector,
//! matrix and camera mathematics needed to render them.
//!
//! All scalar quantities are signed 16.16 fixed-point values stored in
//! `i64` (see [`fixed`]), so every operation in this crate is exact
//! integer arithmetic with a stated rounding rule, and every function is
//! verified against its contract.

pub mod fixed;
pub mod trig;
pub mod math;
pub mod traits;
pub mod objects;

pub use fixed::ONE;
