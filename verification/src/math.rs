//! Numbers and transforms of the plane.
pub mod affine;
pub mod arith;
pub mod utils;
