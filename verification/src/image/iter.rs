//! Walks over the pixels of an image.
use vstd::prelude::*;
use vstd::arithmetic::div_mod::lemma_fundamental_div_mod_converse;
use crate::image::buffer::{Image, lemma_row_in_bounds};
use crate::image::pixel::Pixel;

verus! {

/// A walk over the pixels of an image, row after row and from left to right
/// within a row. What lies in a row beyond the width is passed over.
pub struct ImageIterator<'a, P: Pixel> {
    image: &'a Image<P>,
    y: u32,
    x: u32,
}

impl<'a, P: Pixel> ImageIterator<'a, P> {
    /// The image that is walked over.
    pub closed spec fn image(&self) -> &'a Image<P> {
        self.image
    }

    /// The number of pixels that the walk has handed out.
    pub closed spec fn position(&self) -> nat {
        (self.y * self.image@.width + self.x) as nat
    }

    /// The walk stands at a pixel of the image, or at its end.
    pub closed spec fn wf(&self) -> bool {
        &&& self.image.wf()
        &&& (self.y < self.image@.height && self.x < self.image@.width) || (self.y
            == self.image@.height && self.x == 0)
    }

    /// The next pixel with its column and its row, or `None` at the end.
    pub fn next(&mut self) -> (r: Option<(u32, u32, &'a P)>)
        requires
            old(self).wf(),
        ensures
            final(self).wf(),
            final(self).image() == old(self).image(),
            r is Some <==> old(self).position() < old(self).image()@.width * old(self).image()@.height,
            r is None ==> final(self).position() == old(self).position(),
            r is Some ==> {
                let (x, y, p) = r->Some_0;
                &&& x == old(self).position() % old(self).image()@.width
                &&& y == old(self).position() / old(self).image()@.width
                &&& *p == old(self).image()@.pixel(x as int, y as int)
                &&& final(self).position() == old(self).position() + 1
            },
    {
        let w = self.image.width();
        let h = self.image.height();
        proof {
            let (wi, hi) = (w as int, h as int);
            if self.y < h {
                lemma_row_in_bounds(self.y as int, wi, hi);
                lemma_fundamental_div_mod_converse(self.y * wi + self.x, wi, self.y as int, self.x as int);
                assert((self.y + 1) * wi == self.y * wi + wi) by (nonlinear_arith);
                assert(wi * hi == hi * wi) by (nonlinear_arith);
            } else {
                assert(hi * wi == wi * hi) by (nonlinear_arith);
            }
        }
        if self.y >= h {
            return None;
        }
        let (x, y) = (self.x, self.y);
        let p = &self.image[(x, y)];
        self.x += 1;
        if self.x >= w {
            self.x = 0;
            self.y += 1;
        }
        Some((x, y, p))
    }
}

/// A walk over the pixels of an image, row after row and from left to right
/// within a row, that hands out each pixel to be written in place.
pub struct ImageMutIterator<'a, P: Pixel> {
    pub image: &'a mut Image<P>,
    pub y: u32,
    pub x: u32,
}

impl<'a, P: Pixel> ImageMutIterator<'a, P> {
    /// The number of pixels that the walk has handed out.
    pub open spec fn position(&self) -> nat {
        (self.y * self.image@.width + self.x) as nat
    }

    /// The walk stands at a pixel of the image, or at its end.
    pub open spec fn wf(&self) -> bool {
        &&& self.image.wf()
        &&& (self.y < self.image@.height && self.x < self.image@.width) || (self.y
            == self.image@.height && self.x == 0)
    }

    /// The next pixel with its column and its row, or `None` at the end.
    pub fn next(&mut self) -> (r: Option<(u32, u32, &mut P)>)
        requires
            old(self).wf(),
        ensures
            *final(final(self).image) == *final(old(self).image),
            r is Some <==> old(self).position() < old(self).image@.width * old(self).image@.height,
            r is None ==> final(self).position() == old(self).position() && *final(self).image
                == *old(self).image && final(self).wf(),
            r is Some ==> {
                let (x, y, p) = r->Some_0;
                &&& x == old(self).position() % old(self).image@.width
                &&& y == old(self).position() / old(self).image@.width
                &&& *p == old(self).image@.pixel(x as int, y as int)
                &&& final(self).image@ == old(self).image@.with_pixel(x as int, y as int, *final(p))
                &&& final(self).position() == old(self).position() + 1
                &&& final(self).wf()
            },
    {
        let w = self.image.width();
        let h = self.image.height();
        proof {
            let (wi, hi) = (w as int, h as int);
            if self.y < h {
                lemma_row_in_bounds(self.y as int, wi, hi);
                lemma_fundamental_div_mod_converse(self.y * wi + self.x, wi, self.y as int, self.x as int);
                assert((self.y + 1) * wi == self.y * wi + wi) by (nonlinear_arith);
                assert(wi * hi == hi * wi) by (nonlinear_arith);
            } else {
                assert(hi * wi == wi * hi) by (nonlinear_arith);
            }
        }
        if self.y >= h {
            return None;
        }
        let (x, y) = (self.x, self.y);
        self.x += 1;
        if self.x >= w {
            self.x = 0;
            self.y += 1;
        }
        let p = std::ops::IndexMut::index_mut(&mut *self.image, (x, y));
        Some((x, y, p))
    }
}

impl<T: Pixel> Image<T> {
    /// A walk over the pixels of the image, from its first.
    pub fn iter(&self) -> (it: ImageIterator<'_, T>)
        requires
            self.wf(),
        ensures
            it.wf(),
            it.image() == self,
            it.position() == 0,
    {
        if self.width() == 0 {
            ImageIterator { image: self, y: self.height(), x: 0 }
        } else {
            ImageIterator { image: self, y: 0, x: 0 }
        }
    }
}

impl<T: Pixel> Image<T> {
    /// A walk over the pixels of the image, from its first, that hands out
    /// each pixel to be written in place.
    pub fn iter_mut(&mut self) -> (it: ImageMutIterator<'_, T>)
        requires
            old(self).wf(),
        ensures
            it.wf(),
            *it.image == *old(self),
            *final(it.image) == *final(self),
            it.position() == 0,
    {
        if self.width() == 0 {
            let h = self.height();
            ImageMutIterator { image: self, y: h, x: 0 }
        } else {
            ImageMutIterator { image: self, y: 0, x: 0 }
        }
    }
}

} // verus!
