//! Pixels, images, and what can go wrong with them.
use vstd::prelude::*;
use vstd::std_specs::cmp::PartialEqSpec;
use crate::traits::{Primitive, lemma_named_values, spec_max_value};

pub mod blend;
pub mod buffer;
pub mod iter;
pub mod pixel;

pub use self::blend::{blend, blend4};
pub use self::buffer::{GenericImage, Image, ImageView};
pub use self::iter::{ImageIterator, ImageMutIterator};
pub use self::pixel::{Bgr, Bgra, Gray, Pixel, Rgba, MAX_CHANNEL_COUNT};

verus! {

/// Why an operation on an image failed.
#[derive(Debug, PartialEq, Eq, Clone, Copy)]
pub enum ImageError {
    /// The data handed in is no image.
    InvalidImage,
    /// A region lies outside the image.
    OutOfRegion,
    /// A buffer of the size asked for cannot be had, or a row is said to
    /// take fewer pixels than it is wide.
    OutOfMemoryError,
    /// The pixel kind or file format is not known.
    UnknownImageFormat,
    /// Images that must have the same size have not.
    DimensionMismatch,
    /// A transform cannot be inverted.
    SingularTransform,
    UnknownError,
}

/// A colour with opacity, channel by channel.
#[derive(PartialEq, Eq, Clone, Debug, Copy, Hash)]
pub struct Color<T: Primitive> {
    pub b: T,
    pub g: T,
    pub r: T,
    pub a: T,
}

impl<T: Primitive> Color<T> {
    pub fn new(b: T, g: T, r: T, a: T) -> (c: Color<T>)
        ensures
            c == (Color { b, g, r, a }),
    {
        Color { b, g, r, a }
    }

    /// The fully opaque gray of the given brightness.
    pub fn from_gray(gray: T) -> (c: Color<T>)
        ensures
            c == (Color { b: gray, g: gray, r: gray, a: spec_max_value::<T>() }),
    {
        let a = T::max_value();
        proof {
            lemma_named_values(a);
        }
        Color { b: gray, g: gray, r: gray, a }
    }

    /// Whether the three colour channels hold the same value.
    pub fn is_gray(&self) -> (r: bool)
        ensures
            r == (self.b == self.g && self.r == self.g),
    {
        proof {
            self.b.lemma_order(self.g);
            self.r.lemma_order(self.g);
            if self.b.to_int() == self.g.to_int() {
                self.b.lemma_to_int_injective(self.g);
            }
            if self.r.to_int() == self.g.to_int() {
                self.r.lemma_to_int_injective(self.g);
            }
        }
        (self.b == self.g) && (self.r == self.g)
    }
}

pub type ImageGray = Image<Gray<u8>>;

pub type ImageBgr = Image<Bgr<u8>>;

pub type ImageBgra = Image<Bgra<u8>>;

} // verus!
