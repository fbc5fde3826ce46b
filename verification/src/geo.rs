//! Points and rectangles of the plane.
use vstd::prelude::*;

pub mod point;
pub mod rect;
pub mod types;

pub use self::point::Point;
pub use self::rect::Rect;

verus! {

pub type Pointi = Point<i32>;

pub type Recti = Rect<i32>;

} // verus!
