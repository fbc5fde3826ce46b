//! Scaling, warping, turning and flipping of images, and the range of
//! their values.
use vstd::prelude::*;

pub mod extrema;
pub mod normalize;
pub mod resample;
pub mod resize;
pub mod rotate;

pub use self::extrema::{max, min};
pub use self::normalize::normalize;
pub use self::resample::{resize, resize_bilinear, warp_perspective, Coord};
pub use self::resize::resize_nearest;
pub use self::rotate::{
    flip_horizontal, flip_vertical, rotate, rotate_cw180, rotate_cw270, rotate_cw90,
};

verus! {

/// How a value between pixels is made up.
pub enum InterplateType {
    /// The value of the nearest pixel.
    Nearest,
    /// The four pixels around, each by its closeness.
    Bilinear,
}

/// A turn by a multiple of a quarter, clockwise.
#[derive(Debug, Clone)]
pub enum RotateType {
    Cw0,
    Cw90,
    Cw180,
    Cw270,
}

} // verus!
