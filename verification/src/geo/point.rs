//! Points of the plane and their arithmetic.
use vstd::prelude::*;
use vstd::std_specs::ops::{AddSpec, SubSpec, MulSpec, DivSpec, NegSpec};
use vstd::std_specs::ops::{AddSpecImpl, SubSpecImpl, MulSpecImpl, DivSpecImpl, NegSpecImpl};
use std::ops::{Add, Sub, Mul, Div, Neg};
use crate::geo::types::GeoScalar;
use crate::math::arith::{
    can_add, can_divide, can_multiply, can_negate, can_subtract, is_difference, is_negative,
    is_product, is_quotient, is_sum,
};

verus! {

/// A point of the plane, or a displacement in it.
#[derive(PartialEq, Eq, Clone, Debug, Copy, Hash)]
pub struct Point<T: GeoScalar> {
    pub x: T,
    pub y: T,
}

impl<T: GeoScalar> Point<T> {
    pub fn new(x: T, y: T) -> (p: Point<T>)
        ensures
            p == (Point { x, y }),
    {
        Point { x, y }
    }
}

impl<T: GeoScalar> AddSpecImpl for Point<T> {
    open spec fn obeys_add_spec() -> bool {
        T::obeys_add_spec()
    }

    open spec fn add_req(self, other: Point<T>) -> bool {
        can_add(self.x, other.x) && can_add(self.y, other.y)
    }

    open spec fn add_spec(self, other: Point<T>) -> Point<T> {
        Point { x: self.x.add_spec(other.x), y: self.y.add_spec(other.y) }
    }
}

/// The sum, coordinate by coordinate.
impl<T: GeoScalar> Add for Point<T> {
    type Output = Point<T>;

    fn add(self, other: Point<T>) -> (r: Point<T>)
        ensures
            is_sum(self.x, other.x, r.x),
            is_sum(self.y, other.y, r.y),
    {
        Point { x: self.x + other.x, y: self.y + other.y }
    }
}

impl<T: GeoScalar> SubSpecImpl for Point<T> {
    open spec fn obeys_sub_spec() -> bool {
        T::obeys_sub_spec()
    }

    open spec fn sub_req(self, other: Point<T>) -> bool {
        can_subtract(self.x, other.x) && can_subtract(self.y, other.y)
    }

    open spec fn sub_spec(self, other: Point<T>) -> Point<T> {
        Point { x: self.x.sub_spec(other.x), y: self.y.sub_spec(other.y) }
    }
}

/// The difference, coordinate by coordinate.
impl<T: GeoScalar> Sub for Point<T> {
    type Output = Point<T>;

    fn sub(self, other: Point<T>) -> (r: Point<T>)
        ensures
            is_difference(self.x, other.x, r.x),
            is_difference(self.y, other.y, r.y),
    {
        Point { x: self.x - other.x, y: self.y - other.y }
    }
}

impl<T: GeoScalar> NegSpecImpl for Point<T> {
    open spec fn obeys_neg_spec() -> bool {
        T::obeys_neg_spec()
    }

    open spec fn neg_req(self) -> bool {
        can_negate(self.x) && can_negate(self.y)
    }

    open spec fn neg_spec(self) -> Point<T> {
        Point { x: self.x.neg_spec(), y: self.y.neg_spec() }
    }
}

/// The point mirrored at the origin.
impl<T: GeoScalar> Neg for Point<T> {
    type Output = Point<T>;

    fn neg(self) -> (r: Point<T>)
        ensures
            is_negative(self.x, r.x),
            is_negative(self.y, r.y),
    {
        Point { x: self.x.neg(), y: self.y.neg() }
    }
}

impl<T: GeoScalar> MulSpecImpl<T> for Point<T> {
    open spec fn obeys_mul_spec() -> bool {
        T::obeys_mul_spec()
    }

    open spec fn mul_req(self, rhs: T) -> bool {
        can_multiply(self.x, rhs) && can_multiply(self.y, rhs)
    }

    open spec fn mul_spec(self, rhs: T) -> Point<T> {
        Point { x: self.x.mul_spec(rhs), y: self.y.mul_spec(rhs) }
    }
}

/// Both coordinates scaled by `rhs`.
impl<T: GeoScalar> Mul<T> for Point<T> {
    type Output = Point<T>;

    fn mul(self, rhs: T) -> (r: Point<T>)
        ensures
            is_product(self.x, rhs, r.x),
            is_product(self.y, rhs, r.y),
    {
        Point { x: self.x * rhs, y: self.y * rhs }
    }
}

impl<T: GeoScalar> DivSpecImpl<T> for Point<T> {
    open spec fn obeys_div_spec() -> bool {
        T::obeys_div_spec()
    }

    open spec fn div_req(self, rhs: T) -> bool {
        can_divide(self.x, rhs) && can_divide(self.y, rhs)
    }

    open spec fn div_spec(self, rhs: T) -> Point<T> {
        Point { x: self.x.div_spec(rhs), y: self.y.div_spec(rhs) }
    }
}

/// Both coordinates divided by `rhs`.
impl<T: GeoScalar> Div<T> for Point<T> {
    type Output = Point<T>;

    fn div(self, rhs: T) -> (r: Point<T>)
        ensures
            is_quotient(self.x, rhs, r.x),
            is_quotient(self.y, rhs, r.y),
    {
        Point { x: self.x / rhs, y: self.y / rhs }
    }
}

} // verus!
