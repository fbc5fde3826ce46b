//! Pictures in memory and what is done to them: pixels of a few kinds over
//! a number type, images of such pixels, recolouring, taking apart into
//! channels and putting together, convolution, scaling, warping, turning
//! and flipping, and the fitting of a transform of the plane to pairs of
//! points.
//!
//! Whole numbers are computed exactly, and what a function returns is
//! stated exactly. Where a function takes a number type `F` for weights and
//! sums, what it returns is stated as what the operators of `F` give, step
//! by step in the order in which they are applied, so that the statement
//! holds of every number type, whether or not its arithmetic is exact.
//! What only a caller can do in `F` (rounding, the exponential function,
//! solving equations) the caller hands in as a function.
pub mod conv;
pub mod convert;
pub mod geo;
pub mod image;
pub mod math;
pub mod traits;
pub mod transform;
