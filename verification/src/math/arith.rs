//! What the operators of a number type give, said without saying how: the
//! results of sums, differences, products and quotients as the operators
//! of the type make them, whatever the type.
use vstd::prelude::*;
use std::ops::{Add, Div, Mul, Neg, Sub};

verus! {

/// Whether `r` is what `a + b` gives.
pub open spec fn is_sum<F: Add<Output = F>>(a: F, b: F, r: F) -> bool {
    call_ensures(<F as Add>::add, (a, b), r)
}

/// Whether `a + b` can be computed.
pub open spec fn can_add<F: Add<Output = F>>(a: F, b: F) -> bool {
    call_requires(<F as Add>::add, (a, b))
}

/// Whether `r` is what `a - b` gives.
pub open spec fn is_difference<F: Sub<Output = F>>(a: F, b: F, r: F) -> bool {
    call_ensures(<F as Sub>::sub, (a, b), r)
}

/// Whether `a - b` can be computed.
pub open spec fn can_subtract<F: Sub<Output = F>>(a: F, b: F) -> bool {
    call_requires(<F as Sub>::sub, (a, b))
}

/// Whether `r` is what `a * b` gives.
pub open spec fn is_product<F: Mul<Output = F>>(a: F, b: F, r: F) -> bool {
    call_ensures(<F as Mul>::mul, (a, b), r)
}

/// Whether `a * b` can be computed.
pub open spec fn can_multiply<F: Mul<Output = F>>(a: F, b: F) -> bool {
    call_requires(<F as Mul>::mul, (a, b))
}

/// Whether `r` is what `a / b` gives.
pub open spec fn is_quotient<F: Div<Output = F>>(a: F, b: F, r: F) -> bool {
    call_ensures(<F as Div>::div, (a, b), r)
}

/// Whether `a / b` can be computed.
pub open spec fn can_divide<F: Div<Output = F>>(a: F, b: F) -> bool {
    call_requires(<F as Div>::div, (a, b))
}

/// Whether `r` is what `-a` gives.
pub open spec fn is_negative<F: Neg<Output = F>>(a: F, r: F) -> bool {
    call_ensures(<F as Neg>::neg, (a,), r)
}

/// Whether `-a` can be computed.
pub open spec fn can_negate<F: Neg<Output = F>>(a: F) -> bool {
    call_requires(<F as Neg>::neg, (a,))
}

/// Whether `v` is the value `t` as a value of `F`: what `F::from(t)` gives.
pub open spec fn is_lifted<T, F: From<T>>(t: T, v: F) -> bool {
    call_ensures(<F as From<T>>::from, (t,), v)
}

/// Whether `r` is what `t`, as a value of `F`, plus `b` gives.
pub open spec fn is_lifted_sum<T, F: From<T> + Add<Output = F>>(t: T, b: F, r: F) -> bool {
    exists|v: F| is_lifted(t, v) && #[trigger] is_sum(v, b, r)
}

/// Whether `r` is what `t`, as a value of `F`, minus `b` gives.
pub open spec fn is_lifted_difference<T, F: From<T> + Sub<Output = F>>(t: T, b: F, r: F) -> bool {
    exists|v: F| is_lifted(t, v) && #[trigger] is_difference(v, b, r)
}

/// Whether `r` is what `t`, as a value of `F`, times `b` gives.
pub open spec fn is_lifted_product<T, F: From<T> + Mul<Output = F>>(t: T, b: F, r: F) -> bool {
    exists|v: F| is_lifted(t, v) && #[trigger] is_product(v, b, r)
}

/// Whether `v` is the number one as a value of `F`: what `F::from(1)`
/// gives.
pub open spec fn is_one<F: From<u8>>(v: F) -> bool {
    call_ensures(<F as From<u8>>::from, (1u8,), v)
}

/// Whether `z` is the zero of `F`: what `F::default()` gives.
pub open spec fn is_zero<F: Default>(z: F) -> bool {
    call_ensures(F::default, (), z)
}

/// Whether `r` is what `a < b` gives.
pub open spec fn is_less<T: PartialOrd>(a: T, b: T, r: bool) -> bool {
    call_ensures(<T as PartialOrd>::lt, (&a, &b), r)
}

/// Whether `r` is what `a > b` gives.
pub open spec fn is_greater<T: PartialOrd>(a: T, b: T, r: bool) -> bool {
    call_ensures(<T as PartialOrd>::gt, (&a, &b), r)
}

/// Whether `r` is what `a <= b` gives.
pub open spec fn is_at_most<T: PartialOrd>(a: T, b: T, r: bool) -> bool {
    call_ensures(<T as PartialOrd>::le, (&a, &b), r)
}

} // verus!
