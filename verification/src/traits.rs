//! The primitive integer types as channels of pixels.
use vstd::prelude::*;
use vstd::std_specs::cmp::PartialEqSpec;
use vstd::std_specs::cmp::PartialOrdSpec;
use vstd::std_specs::cmp::PartialOrdIs;

verus! {

/// The value of `x` limited to the closed interval from `lo` to `hi`; `lo`
/// where the interval is empty and `x` lies below it.
pub open spec fn clamp_int(x: int, lo: int, hi: int) -> int {
    if x < lo {
        lo
    } else if x > hi {
        hi
    } else {
        x
    }
}

/// A primitive integer type, as the channels of a pixel hold it: a bounded
/// range of whole numbers with its zero, its bounds, its order and the
/// arithmetic that stops at the bounds.
///
/// `to_int` is the number that a value stands for. Two values that stand for
/// the same number are the same value, and the order `<` of the type is the
/// order of the numbers.
pub trait Primitive: Copy + PartialOrd {
    /// The number that the value stands for.
    spec fn to_int(self) -> int;

    /// The least number of the type.
    spec fn min_int() -> int;

    /// The greatest number of the type.
    spec fn max_int() -> int;

    /// Every value lies within the bounds, and the bounds hold zero.
    proof fn lemma_bounds(self)
        ensures
            Self::min_int() <= self.to_int() <= Self::max_int(),
            Self::min_int() <= 0 <= Self::max_int(),
    ;

    /// A value is determined by its number.
    proof fn lemma_to_int_injective(self, other: Self)
        requires
            self.to_int() == other.to_int(),
        ensures
            self == other,
    ;

    /// The comparison operators of the type compare the numbers.
    proof fn lemma_order(self, other: Self)
        ensures
            Self::obeys_eq_spec(),
            Self::obeys_partial_cmp_spec(),
            self.eq_spec(&other) <==> self.to_int() == other.to_int(),
            self.is_lt(&other) <==> self.to_int() < other.to_int(),
            self.is_gt(&other) <==> self.to_int() > other.to_int(),
            self.is_le(&other) <==> self.to_int() <= other.to_int(),
            self.is_ge(&other) <==> self.to_int() >= other.to_int(),
    ;

    fn zero() -> (r: Self)
        ensures
            r.to_int() == 0,
    ;

    fn min_value() -> (r: Self)
        ensures
            r.to_int() == Self::min_int(),
    ;

    fn max_value() -> (r: Self)
        ensures
            r.to_int() == Self::max_int(),
    ;

    /// The sum, or the bound that the sum went past.
    fn saturating_add(self, rhs: Self) -> (r: Self)
        ensures
            r.to_int() == clamp_int(self.to_int() + rhs.to_int(), Self::min_int(), Self::max_int()),
    ;

    /// The difference, or the bound that the difference went past.
    fn saturating_sub(self, rhs: Self) -> (r: Self)
        ensures
            r.to_int() == clamp_int(self.to_int() - rhs.to_int(), Self::min_int(), Self::max_int()),
    ;
}

impl Primitive for u8 {
    open spec fn to_int(self) -> int {
        self as int
    }

    open spec fn min_int() -> int {
        u8::MIN as int
    }

    open spec fn max_int() -> int {
        u8::MAX as int
    }

    proof fn lemma_bounds(self) {
    }

    proof fn lemma_to_int_injective(self, other: Self) {
    }

    proof fn lemma_order(self, other: Self) {
    }

    fn zero() -> (r: Self) {
        0
    }

    fn min_value() -> (r: Self) {
        u8::MIN
    }

    fn max_value() -> (r: Self) {
        u8::MAX
    }

    fn saturating_add(self, rhs: Self) -> (r: Self) {
        u8::saturating_add(self, rhs)
    }

    fn saturating_sub(self, rhs: Self) -> (r: Self) {
        u8::saturating_sub(self, rhs)
    }
}

impl Primitive for u16 {
    open spec fn to_int(self) -> int {
        self as int
    }

    open spec fn min_int() -> int {
        u16::MIN as int
    }

    open spec fn max_int() -> int {
        u16::MAX as int
    }

    proof fn lemma_bounds(self) {
    }

    proof fn lemma_to_int_injective(self, other: Self) {
    }

    proof fn lemma_order(self, other: Self) {
    }

    fn zero() -> (r: Self) {
        0
    }

    fn min_value() -> (r: Self) {
        u16::MIN
    }

    fn max_value() -> (r: Self) {
        u16::MAX
    }

    fn saturating_add(self, rhs: Self) -> (r: Self) {
        u16::saturating_add(self, rhs)
    }

    fn saturating_sub(self, rhs: Self) -> (r: Self) {
        u16::saturating_sub(self, rhs)
    }
}

impl Primitive for u32 {
    open spec fn to_int(self) -> int {
        self as int
    }

    open spec fn min_int() -> int {
        u32::MIN as int
    }

    open spec fn max_int() -> int {
        u32::MAX as int
    }

    proof fn lemma_bounds(self) {
    }

    proof fn lemma_to_int_injective(self, other: Self) {
    }

    proof fn lemma_order(self, other: Self) {
    }

    fn zero() -> (r: Self) {
        0
    }

    fn min_value() -> (r: Self) {
        u32::MIN
    }

    fn max_value() -> (r: Self) {
        u32::MAX
    }

    fn saturating_add(self, rhs: Self) -> (r: Self) {
        u32::saturating_add(self, rhs)
    }

    fn saturating_sub(self, rhs: Self) -> (r: Self) {
        u32::saturating_sub(self, rhs)
    }
}

impl Primitive for u64 {
    open spec fn to_int(self) -> int {
        self as int
    }

    open spec fn min_int() -> int {
        u64::MIN as int
    }

    open spec fn max_int() -> int {
        u64::MAX as int
    }

    proof fn lemma_bounds(self) {
    }

    proof fn lemma_to_int_injective(self, other: Self) {
    }

    proof fn lemma_order(self, other: Self) {
    }

    fn zero() -> (r: Self) {
        0
    }

    fn min_value() -> (r: Self) {
        u64::MIN
    }

    fn max_value() -> (r: Self) {
        u64::MAX
    }

    fn saturating_add(self, rhs: Self) -> (r: Self) {
        u64::saturating_add(self, rhs)
    }

    fn saturating_sub(self, rhs: Self) -> (r: Self) {
        u64::saturating_sub(self, rhs)
    }
}

impl Primitive for usize {
    open spec fn to_int(self) -> int {
        self as int
    }

    open spec fn min_int() -> int {
        usize::MIN as int
    }

    open spec fn max_int() -> int {
        usize::MAX as int
    }

    proof fn lemma_bounds(self) {
    }

    proof fn lemma_to_int_injective(self, other: Self) {
    }

    proof fn lemma_order(self, other: Self) {
    }

    fn zero() -> (r: Self) {
        0
    }

    fn min_value() -> (r: Self) {
        usize::MIN
    }

    fn max_value() -> (r: Self) {
        usize::MAX
    }

    fn saturating_add(self, rhs: Self) -> (r: Self) {
        usize::saturating_add(self, rhs)
    }

    fn saturating_sub(self, rhs: Self) -> (r: Self) {
        usize::saturating_sub(self, rhs)
    }
}

impl Primitive for i8 {
    open spec fn to_int(self) -> int {
        self as int
    }

    open spec fn min_int() -> int {
        i8::MIN as int
    }

    open spec fn max_int() -> int {
        i8::MAX as int
    }

    proof fn lemma_bounds(self) {
    }

    proof fn lemma_to_int_injective(self, other: Self) {
    }

    proof fn lemma_order(self, other: Self) {
    }

    fn zero() -> (r: Self) {
        0
    }

    fn min_value() -> (r: Self) {
        i8::MIN
    }

    fn max_value() -> (r: Self) {
        i8::MAX
    }

    fn saturating_add(self, rhs: Self) -> (r: Self) {
        if rhs > 0 && self > i8::MAX - rhs {
            i8::MAX
        } else if rhs < 0 && self < i8::MIN - rhs {
            i8::MIN
        } else {
            self + rhs
        }
    }

    fn saturating_sub(self, rhs: Self) -> (r: Self) {
        if rhs < 0 && self > i8::MAX + rhs {
            i8::MAX
        } else if rhs > 0 && self < i8::MIN + rhs {
            i8::MIN
        } else {
            self - rhs
        }
    }
}

impl Primitive for i16 {
    open spec fn to_int(self) -> int {
        self as int
    }

    open spec fn min_int() -> int {
        i16::MIN as int
    }

    open spec fn max_int() -> int {
        i16::MAX as int
    }

    proof fn lemma_bounds(self) {
    }

    proof fn lemma_to_int_injective(self, other: Self) {
    }

    proof fn lemma_order(self, other: Self) {
    }

    fn zero() -> (r: Self) {
        0
    }

    fn min_value() -> (r: Self) {
        i16::MIN
    }

    fn max_value() -> (r: Self) {
        i16::MAX
    }

    fn saturating_add(self, rhs: Self) -> (r: Self) {
        if rhs > 0 && self > i16::MAX - rhs {
            i16::MAX
        } else if rhs < 0 && self < i16::MIN - rhs {
            i16::MIN
        } else {
            self + rhs
        }
    }

    fn saturating_sub(self, rhs: Self) -> (r: Self) {
        if rhs < 0 && self > i16::MAX + rhs {
            i16::MAX
        } else if rhs > 0 && self < i16::MIN + rhs {
            i16::MIN
        } else {
            self - rhs
        }
    }
}

impl Primitive for i32 {
    open spec fn to_int(self) -> int {
        self as int
    }

    open spec fn min_int() -> int {
        i32::MIN as int
    }

    open spec fn max_int() -> int {
        i32::MAX as int
    }

    proof fn lemma_bounds(self) {
    }

    proof fn lemma_to_int_injective(self, other: Self) {
    }

    proof fn lemma_order(self, other: Self) {
    }

    fn zero() -> (r: Self) {
        0
    }

    fn min_value() -> (r: Self) {
        i32::MIN
    }

    fn max_value() -> (r: Self) {
        i32::MAX
    }

    fn saturating_add(self, rhs: Self) -> (r: Self) {
        if rhs > 0 && self > i32::MAX - rhs {
            i32::MAX
        } else if rhs < 0 && self < i32::MIN - rhs {
            i32::MIN
        } else {
            self + rhs
        }
    }

    fn saturating_sub(self, rhs: Self) -> (r: Self) {
        if rhs < 0 && self > i32::MAX + rhs {
            i32::MAX
        } else if rhs > 0 && self < i32::MIN + rhs {
            i32::MIN
        } else {
            self - rhs
        }
    }
}

impl Primitive for i64 {
    open spec fn to_int(self) -> int {
        self as int
    }

    open spec fn min_int() -> int {
        i64::MIN as int
    }

    open spec fn max_int() -> int {
        i64::MAX as int
    }

    proof fn lemma_bounds(self) {
    }

    proof fn lemma_to_int_injective(self, other: Self) {
    }

    proof fn lemma_order(self, other: Self) {
    }

    fn zero() -> (r: Self) {
        0
    }

    fn min_value() -> (r: Self) {
        i64::MIN
    }

    fn max_value() -> (r: Self) {
        i64::MAX
    }

    fn saturating_add(self, rhs: Self) -> (r: Self) {
        if rhs > 0 && self > i64::MAX - rhs {
            i64::MAX
        } else if rhs < 0 && self < i64::MIN - rhs {
            i64::MIN
        } else {
            self + rhs
        }
    }

    fn saturating_sub(self, rhs: Self) -> (r: Self) {
        if rhs < 0 && self > i64::MAX + rhs {
            i64::MAX
        } else if rhs > 0 && self < i64::MIN + rhs {
            i64::MIN
        } else {
            self - rhs
        }
    }
}

impl Primitive for isize {
    open spec fn to_int(self) -> int {
        self as int
    }

    open spec fn min_int() -> int {
        isize::MIN as int
    }

    open spec fn max_int() -> int {
        isize::MAX as int
    }

    proof fn lemma_bounds(self) {
    }

    proof fn lemma_to_int_injective(self, other: Self) {
    }

    proof fn lemma_order(self, other: Self) {
    }

    fn zero() -> (r: Self) {
        0
    }

    fn min_value() -> (r: Self) {
        isize::MIN
    }

    fn max_value() -> (r: Self) {
        isize::MAX
    }

    fn saturating_add(self, rhs: Self) -> (r: Self) {
        if rhs > 0 && self > isize::MAX - rhs {
            isize::MAX
        } else if rhs < 0 && self < isize::MIN - rhs {
            isize::MIN
        } else {
            self + rhs
        }
    }

    fn saturating_sub(self, rhs: Self) -> (r: Self) {
        if rhs < 0 && self > isize::MAX + rhs {
            isize::MAX
        } else if rhs > 0 && self < isize::MIN + rhs {
            isize::MIN
        } else {
            self - rhs
        }
    }
}

/// The greatest value of `T`.
pub open spec fn spec_max_value<T: Primitive>() -> T {
    choose|m: T| m.to_int() == T::max_int()
}

/// The least value of `T`.
pub open spec fn spec_min_value<T: Primitive>() -> T {
    choose|m: T| m.to_int() == T::min_int()
}

/// The zero of `T`.
pub open spec fn spec_zero<T: Primitive>() -> T {
    choose|m: T| m.to_int() == 0
}

/// The value that stands for the greatest number is `spec_max_value()`, and
/// likewise for the least number and for zero.
pub proof fn lemma_named_values<T: Primitive>(v: T)
    ensures
        v.to_int() == T::max_int() ==> v == spec_max_value::<T>(),
        v.to_int() == T::min_int() ==> v == spec_min_value::<T>(),
        v.to_int() == 0 ==> v == spec_zero::<T>(),
{
    if v.to_int() == T::max_int() {
        v.lemma_to_int_injective(spec_max_value::<T>());
    }
    if v.to_int() == T::min_int() {
        v.lemma_to_int_injective(spec_min_value::<T>());
    }
    if v.to_int() == 0 {
        v.lemma_to_int_injective(spec_zero::<T>());
    }
}

} // verus!
