//! Axis-parallel rectangles.
use vstd::prelude::*;
use crate::geo::point::Point;
use crate::geo::types::{GeoScalar, NumMinMax};
use crate::math::arith::{
    can_add, can_multiply, can_subtract, is_at_most, is_difference, is_greater, is_less,
    is_product, is_sum, is_zero,
};

verus! {

/// An axis-parallel rectangle: its top-left corner, its width and its height.
/// It holds the points from the corner up to, not including, the corner
/// plus the sizes.
#[derive(PartialEq, Eq, Clone, Debug, Copy, Hash)]
pub struct Rect<T: GeoScalar> {
    pub x: T,
    pub y: T,
    pub width: T,
    pub height: T,
}

/// Whether `r` says that `v` lies in the stretch of the length `size` that
/// begins at `lo`: that `lo <= v` holds and `v < lo + size` holds. The sum
/// is made only where the first holds.
pub open spec fn is_within<T: GeoScalar>(lo: T, size: T, v: T, r: bool) -> bool {
    exists|after: bool|
        #[trigger] is_at_most(lo, v, after) && if !after {
            !r
        } else {
            exists|end: T| #[trigger] is_sum(lo, size, end) && is_less(v, end, r)
        }
}

/// Whether `v` lies in the stretch of the length `size` that begins at `lo`.
fn within<T: GeoScalar>(lo: T, size: T, v: T) -> (r: bool)
    requires
        can_add(lo, size),
    ensures
        is_within(lo, size, v, r),
{
    let after = lo <= v;
    proof {
        assert(is_at_most(lo, v, after));
    }
    if !after {
        return false;
    }
    let end = lo + size;
    proof {
        assert(is_sum(lo, size, end));
    }
    v < end
}

impl<T: GeoScalar> Rect<T> {
    /// Whether the two sums that give the bottom-right corner can be computed.
    pub open spec fn br_ok(self) -> bool {
        can_add(self.x, self.width) && can_add(self.y, self.height)
    }

    /// The top-left corner.
    pub open spec fn spec_tl(self) -> Point<T> {
        Point { x: self.x, y: self.y }
    }

    /// Whether `p` is the bottom-right corner, which the rectangle does not
    /// hold: the top-left corner plus the sizes.
    pub open spec fn is_br(self, p: Point<T>) -> bool {
        is_sum(self.x, self.width, p.x) && is_sum(self.y, self.height, p.y)
    }

    /// Whether `b` says that `p` lies in the rectangle: at or after the
    /// top-left corner and before the bottom-right one, in both
    /// coordinates. The row is looked at only where the column is right.
    pub open spec fn is_contains(self, p: Point<T>, b: bool) -> bool {
        exists|in_x: bool|
            #[trigger] is_within(self.x, self.width, p.x, in_x) && if !in_x {
                !b
            } else {
                is_within(self.y, self.height, p.y, b)
            }
    }

    /// Whether `tl` and `br` are the corners of what `self` and `r` have in
    /// common: the larger of the two top-left corners and the smaller of the
    /// two bottom-right corners, in each coordinate.
    pub open spec fn is_common_corners(self, r: Rect<T>, tl: Point<T>, br: Point<T>) -> bool {
        exists|a: Point<T>, b: Point<T>|
            #![trigger self.is_br(a), r.is_br(b)]
            {
                &&& self.is_br(a)
                &&& r.is_br(b)
                &&& self.x.is_max(r.x, tl.x)
                &&& self.y.is_max(r.y, tl.y)
                &&& a.x.is_min(b.x, br.x)
                &&& a.y.is_min(b.y, br.y)
            }
    }

    /// Whether `miss` says that the corners are out of order in some
    /// coordinate, so that nothing lies between them: that `tl.x > br.x`
    /// holds, or else that `tl.y > br.y` holds.
    pub open spec fn is_out_of_order(tl: Point<T>, br: Point<T>, miss: bool) -> bool {
        exists|in_x: bool|
            #[trigger] is_greater(tl.x, br.x, in_x) && if in_x {
                miss
            } else {
                is_greater(tl.y, br.y, miss)
            }
    }

    /// Whether `out` is the rectangle between the corners `tl` and `br`, or
    /// the empty rectangle at `tl` where the corners are out of order.
    pub open spec fn is_between(tl: Point<T>, br: Point<T>, out: Rect<T>) -> bool {
        exists|miss: bool|
            {
                &&& #[trigger] Self::is_out_of_order(tl, br, miss)
                &&& out.spec_tl() == tl
                &&& if miss {
                    is_zero(out.width) && is_zero(out.height)
                } else {
                    is_difference(br.x, tl.x, out.width) && is_difference(br.y, tl.y, out.height)
                }
            }
    }

    /// Whether `out` is what `self` and `r` have in common: the rectangle
    /// between the corners of the intersection or, where the two miss each
    /// other, the empty rectangle at its top-left corner.
    pub open spec fn is_intersection(self, r: Rect<T>, out: Rect<T>) -> bool {
        exists|tl: Point<T>, br: Point<T>|
            #[trigger] self.is_common_corners(r, tl, br) && Self::is_between(tl, br, out)
    }

    /// Whether the corners and the sizes of the intersection with `r` can be
    /// computed.
    pub open spec fn intersect_ok(self, r: Rect<T>) -> bool {
        &&& self.br_ok()
        &&& r.br_ok()
        &&& forall|tl: Point<T>, br: Point<T>|
            #![trigger self.is_common_corners(r, tl, br), Self::is_out_of_order(tl, br, false)]
            self.is_common_corners(r, tl, br) && Self::is_out_of_order(tl, br, false)
                ==> can_subtract(br.x, tl.x) && can_subtract(br.y, tl.y)
    }

    pub fn new(x: T, y: T, w: T, h: T) -> (r: Rect<T>)
        ensures
            r == (Rect { x, y, width: w, height: h }),
    {
        Rect { x, y, width: w, height: h }
    }

    pub fn area(&self) -> (a: T)
        requires
            can_multiply(self.width, self.height),
        ensures
            is_product(self.width, self.height, a),
    {
        self.width * self.height
    }

    pub fn tl(&self) -> (p: Point<T>)
        ensures
            p == self.spec_tl(),
    {
        Point::new(self.x, self.y)
    }

    pub fn br(&self) -> (p: Point<T>)
        requires
            self.br_ok(),
        ensures
            self.is_br(p),
    {
        Point::new(self.x + self.width, self.y + self.height)
    }

    pub fn contains(&self, p: &Point<T>) -> (b: bool)
        requires
            self.br_ok(),
        ensures
            self.is_contains(*p, b),
    {
        let in_x = within(self.x, self.width, p.x);
        if !in_x {
            return false;
        }
        within(self.y, self.height, p.y)
    }

    /// The rectangle that the two have in common. Where they miss each other
    /// it is an empty rectangle, of width and height zero, at the corner that
    /// the intersection would have.
    pub fn intersect(&self, r: &Rect<T>) -> (out: Rect<T>)
        requires
            self.intersect_ok(*r),
        ensures
            self.is_intersection(*r, out),
    {
        let x0 = self.x.max(r.x);
        let y0 = self.y.max(r.y);
        let a = self.br();
        let b = r.br();
        let x1 = a.x.min(b.x);
        let y1 = a.y.min(b.y);
        let ghost tl = Point { x: x0, y: y0 };
        let ghost br = Point { x: x1, y: y1 };
        proof {
            assert(self.is_br(a) && r.is_br(b));
            assert(self.is_common_corners(*r, tl, br));
        }
        let in_x = x0 > x1;
        proof {
            assert(is_greater(tl.x, br.x, in_x));
        }
        let miss = if in_x {
            true
        } else {
            y0 > y1
        };
        proof {
            assert(Self::is_out_of_order(tl, br, miss));
        }
        let out = if miss {
            Rect::new(x0, y0, T::default(), T::default())
        } else {
            Rect::new(x0, y0, x1 - x0, y1 - y0)
        };
        proof {
            assert(Self::is_between(tl, br, out));
        }
        out
    }
}

/// Whether a number fits in 32 bits.
pub open spec fn fits(v: int) -> bool {
    i32::MIN <= v <= i32::MAX
}

/// Whether the point `p` lies in the rectangle `r` of whole numbers, in
/// numbers without bounds.
pub open spec fn holds(r: Rect<i32>, p: Point<i32>) -> bool {
    r.x <= p.x < r.x + r.width && r.y <= p.y < r.y + r.height
}

/// In whole numbers that fit, `contains` says whether the rectangle holds
/// the point.
pub proof fn lemma_contains_whole(r: Rect<i32>, p: Point<i32>, b: bool)
    requires
        fits(r.x + r.width),
        fits(r.y + r.height),
        r.is_contains(p, b),
    ensures
        b == holds(r, p),
{
}

/// What two rectangles of whole numbers have in common holds the points
/// that both hold, and no others.
pub proof fn lemma_intersect_whole(a: Rect<i32>, b: Rect<i32>, out: Rect<i32>, p: Point<i32>)
    requires
        fits(a.x + a.width),
        fits(a.y + a.height),
        fits(b.x + b.width),
        fits(b.y + b.height),
        a.width >= 0,
        a.height >= 0,
        b.width >= 0,
        b.height >= 0,
        a.is_intersection(b, out),
    ensures
        holds(out, p) <==> holds(a, p) && holds(b, p),
{
}

} // verus!
