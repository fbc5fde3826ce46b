//! What the coordinates of points and rectangles are made of.
use vstd::prelude::*;
use std::ops::{Add, Sub, Mul, Div, Neg};
use crate::math::arith::{is_greater, is_less};
use crate::traits::Primitive;

verus! {

/// The smaller and the larger of two values of a partially ordered type.
///
/// Of two values that the order does not tell apart, or cannot compare, the
/// receiver is the result.
pub trait NumMinMax: Sized {
    /// Whether `r` is the smaller of `self` and `other`.
    spec fn is_min(self, other: Self, r: Self) -> bool;

    /// Whether `r` is the larger of `self` and `other`.
    spec fn is_max(self, other: Self, r: Self) -> bool;

    fn min(self, other: Self) -> (r: Self)
        ensures
            self.is_min(other, r),
    ;

    fn max(self, other: Self) -> (r: Self)
        ensures
            self.is_max(other, r),
    ;
}

impl<T: Copy + PartialOrd> NumMinMax for T {
    /// `other` where `other < self` holds, else `self`.
    open spec fn is_min(self, other: Self, r: Self) -> bool {
        exists|less: bool|
            #[trigger] is_less(other, self, less) && r == if less {
                other
            } else {
                self
            }
    }

    /// `other` where `other > self` holds, else `self`.
    open spec fn is_max(self, other: Self, r: Self) -> bool {
        exists|greater: bool|
            #[trigger] is_greater(other, self, greater) && r == if greater {
                other
            } else {
                self
            }
    }

    fn min(self, other: Self) -> (r: Self) {
        let less = other < self;
        proof {
            assert(is_less(other, self, less));
        }
        if less {
            other
        } else {
            self
        }
    }

    fn max(self, other: Self) -> (r: Self) {
        let greater = other > self;
        proof {
            assert(is_greater(other, self, greater));
        }
        if greater {
            other
        } else {
            self
        }
    }
}

/// Of the primitive integers, the smaller of two values is the smaller of
/// the two numbers, and the larger the larger.
pub proof fn lemma_min_max_whole<T: Primitive>(a: T, b: T, r: T)
    ensures
        a.is_min(b, r) ==> r.to_int() == if b.to_int() < a.to_int() {
            b.to_int()
        } else {
            a.to_int()
        },
        a.is_max(b, r) ==> r.to_int() == if b.to_int() > a.to_int() {
            b.to_int()
        } else {
            a.to_int()
        },
{
    b.lemma_order(a);
}

/// A coordinate type: a signed number with the four arithmetic operators, an
/// order, and `Default::default()` as its zero.
pub trait GeoScalar: Copy + PartialOrd + Default + Add<Output = Self> + Sub<Output = Self> + Mul<
    Output = Self,
> + Div<Output = Self> + Neg<Output = Self> + NumMinMax {

}

impl<T> GeoScalar for T where
    T: Copy + PartialOrd + Default + Add<Output = T> + Sub<Output = T> + Mul<Output = T> + Div<
        Output = T,
    > + Neg<Output = T>,
 {
}

} // verus!
