//! The kinds of pixels: gray, colour, and colour with opacity.
use vstd::prelude::*;
use vstd::std_specs::convert::FromSpec;
use vstd::std_specs::ops::{AddSpec, MulSpec, SubSpec};
use std::ops::{Add, Index, IndexMut, Mul, Sub};
use crate::math::arith::{
    can_add, can_multiply, can_subtract, is_difference, is_lifted, is_lifted_difference,
    is_lifted_product, is_lifted_sum, is_product, is_sum, is_zero,
};
use crate::traits::{Primitive, clamp_int};

verus! {

/// The most channels that a pixel kind has.
pub const MAX_CHANNEL_COUNT: usize = 4;

/// A pixel kind: a fixed number of channels of one subpixel type, in a fixed
/// order in memory. The number of channels and the place of the alpha
/// channel belong to the type, not to a value.
pub trait Pixel: Copy {
    /// The type of one channel.
    type Subpixel: Copy + Default;

    /// The number of channels.
    spec fn spec_channels() -> nat;

    /// The index of the alpha channel, or -1 where the kind has none.
    spec fn spec_alpha() -> int;

    /// The channels of the pixel, in memory order.
    spec fn spec_raw(self) -> Seq<Self::Subpixel>;

    /// The pixel that holds the first channels of `raw`.
    spec fn spec_from_raw(raw: Seq<Self::Subpixel>) -> Self;

    /// A kind has between one and `MAX_CHANNEL_COUNT` channels, and its
    /// alpha channel, if it has one, is one of them.
    proof fn lemma_kind()
        ensures
            1 <= Self::spec_channels() <= MAX_CHANNEL_COUNT,
            -1 <= Self::spec_alpha() < Self::spec_channels(),
    ;

    /// A pixel has as many channels as its kind says.
    proof fn lemma_raw_len(self)
        ensures
            self.spec_raw().len() == Self::spec_channels(),
    ;

    /// The pixel made of some channels holds these channels.
    proof fn lemma_from_raw(raw: Seq<Self::Subpixel>)
        requires
            raw.len() >= Self::spec_channels(),
        ensures
            Self::spec_from_raw(raw).spec_raw() == raw.subrange(0, Self::spec_channels() as int),
    ;

    /// Two pixels with the same channels are the same pixel.
    proof fn lemma_raw_injective(self, other: Self)
        requires
            self.spec_raw() == other.spec_raw(),
        ensures
            self == other,
    ;

    /// The pixel whose channels are all zero.
    fn zero() -> (p: Self)
        ensures
            forall|c: int|
                0 <= c < Self::spec_channels() ==> is_zero(#[trigger] p.spec_raw()[c]),
    ;

    /// The index of the alpha channel, or -1 where the kind has none.
    fn alpha() -> (a: isize)
        ensures
            a == Self::spec_alpha(),
    ;

    /// The number of channels.
    fn channels() -> (n: u8)
        ensures
            n == Self::spec_channels(),
    ;

    /// Eight bits for each channel.
    fn bits_per_pixel() -> (n: u8)
        ensures
            n == 8 * Self::spec_channels(),
    ;

    /// The channels, in memory order.
    fn raw(&self) -> (s: &[Self::Subpixel])
        ensures
            s@ == self.spec_raw(),
    ;

    /// The channels, to be written in place.
    fn raw_mut(&mut self) -> (s: &mut [Self::Subpixel])
        ensures
            s@ == old(self).spec_raw(),
            final(self).spec_raw() == final(s)@,
    ;

    /// The pixel made of the first channels of `raw`.
    fn from_raw(raw: &[Self::Subpixel]) -> (p: Self)
        requires
            raw@.len() >= Self::spec_channels(),
        ensures
            p == Self::spec_from_raw(raw@),
    ;
}
/// Whether every channel of the pixel is zero.
pub open spec fn is_zero_pixel<P: Pixel>(p: P) -> bool {
    forall|c: int| 0 <= c < P::spec_channels() ==> is_zero(#[trigger] p.spec_raw()[c])
}

/// A colour pixel: blue, green and red, in this order.
#[derive(PartialEq, Eq, Clone, Debug, Copy, Hash)]
pub struct Bgr<T> {
    pub data: [T; 3],
}

/// The pixel with the channels `data`.
#[allow(non_snake_case)]
pub fn Bgr<T>(data: [T; 3]) -> (p: Bgr<T>)
    ensures
        p.data == data,
{
    Bgr { data }
}

impl<T: Copy + Default> Pixel for Bgr<T> {
    type Subpixel = T;

    open spec fn spec_channels() -> nat {
        3
    }

    open spec fn spec_alpha() -> int {
        -1
    }

    open spec fn spec_raw(self) -> Seq<T> {
        self.data@
    }

    open spec fn spec_from_raw(raw: Seq<T>) -> Self {
        Bgr { data: [raw[0], raw[1], raw[2]] }
    }

    proof fn lemma_kind() {
    }

    proof fn lemma_raw_len(self) {
    }

    proof fn lemma_from_raw(raw: Seq<T>) {
        assert(Self::spec_from_raw(raw).spec_raw() =~= raw.subrange(0, 3));
    }

    proof fn lemma_raw_injective(self, other: Self) {
        assert(self.data =~= other.data);
    }

    fn zero() -> (p: Self) {
        let z = T::default();
        Bgr { data: [z; 3] }
    }

    fn alpha() -> (a: isize) {
        -1
    }

    fn channels() -> (n: u8) {
        3
    }

    fn bits_per_pixel() -> (n: u8) {
        24
    }

    fn raw(&self) -> (s: &[T]) {
        &self.data
    }

    fn raw_mut(&mut self) -> (s: &mut [T]) {
        &mut self.data
    }

    fn from_raw(raw: &[T]) -> (p: Self) {
        let p = Bgr { data: [raw[0], raw[1], raw[2]] };
        assert(p.data =~= Self::spec_from_raw(raw@).data);
        p
    }
}

impl<T> vstd::std_specs::core::IndexSpecImpl<usize> for Bgr<T> {
    open spec fn index_req(&self, index: &usize) -> bool {
        *index < 3
    }
}

/// Channel `index`.
impl<T> Index<usize> for Bgr<T> {
    type Output = T;

    fn index(&self, index: usize) -> (output: &T)
        ensures
            *output == self.data@[index as int],
    {
        &self.data[index]
    }
}

/// Channel `index`, to be written in place.
impl<T> IndexMut<usize> for Bgr<T> {
    fn index_mut(&mut self, index: usize) -> (output: &mut T)
        requires
            index < 3,
        ensures
            *output == old(self).data@[index as int],
            final(self).data@ == old(self).data@.update(index as int, *final(output)),
    {
        &mut self.data[index]
    }
}

impl<T: Copy + Add<Output = T>> vstd::std_specs::ops::AddSpecImpl for Bgr<T> {
    open spec fn obeys_add_spec() -> bool {
        T::obeys_add_spec()
    }

    open spec fn add_req(self, other: Bgr<T>) -> bool {
        &&& can_add(self.data@[0], other.data@[0])
        &&& can_add(self.data@[1], other.data@[1])
        &&& can_add(self.data@[2], other.data@[2])
    }

    open spec fn add_spec(self, other: Bgr<T>) -> Bgr<T> {
        Bgr {
            data: [
                self.data@[0].add_spec(other.data@[0]),
                self.data@[1].add_spec(other.data@[1]),
                self.data@[2].add_spec(other.data@[2]),
            ],
        }
    }
}

/// The sum, channel by channel.
impl<T: Copy + Add<Output = T>> Add for Bgr<T> {
    type Output = Bgr<T>;

    fn add(self, other: Bgr<T>) -> (r: Bgr<T>)
        ensures
            is_sum(self.data@[0], other.data@[0], r.data@[0]),
            is_sum(self.data@[1], other.data@[1], r.data@[1]),
            is_sum(self.data@[2], other.data@[2], r.data@[2]),
    {
        let m = [
            self.data[0] + other.data[0],
            self.data[1] + other.data[1],
            self.data[2] + other.data[2],
        ];
        proof {
            let spec = [
                self.data@[0].add_spec(other.data@[0]),
                self.data@[1].add_spec(other.data@[1]),
                self.data@[2].add_spec(other.data@[2]),
            ];
            if T::obeys_add_spec() {
                assert(m =~= spec);
            }
        }
        Bgr { data: m }
    }
}

impl<T: Copy + Sub<Output = T>> vstd::std_specs::ops::SubSpecImpl for Bgr<T> {
    open spec fn obeys_sub_spec() -> bool {
        T::obeys_sub_spec()
    }

    open spec fn sub_req(self, other: Bgr<T>) -> bool {
        &&& can_subtract(self.data@[0], other.data@[0])
        &&& can_subtract(self.data@[1], other.data@[1])
        &&& can_subtract(self.data@[2], other.data@[2])
    }

    open spec fn sub_spec(self, other: Bgr<T>) -> Bgr<T> {
        Bgr {
            data: [
                self.data@[0].sub_spec(other.data@[0]),
                self.data@[1].sub_spec(other.data@[1]),
                self.data@[2].sub_spec(other.data@[2]),
            ],
        }
    }
}

/// The difference, channel by channel.
impl<T: Copy + Sub<Output = T>> Sub for Bgr<T> {
    type Output = Bgr<T>;

    fn sub(self, other: Bgr<T>) -> (r: Bgr<T>)
        ensures
            is_difference(self.data@[0], other.data@[0], r.data@[0]),
            is_difference(self.data@[1], other.data@[1], r.data@[1]),
            is_difference(self.data@[2], other.data@[2], r.data@[2]),
    {
        let m = [
            self.data[0] - other.data[0],
            self.data[1] - other.data[1],
            self.data[2] - other.data[2],
        ];
        proof {
            let spec = [
                self.data@[0].sub_spec(other.data@[0]),
                self.data@[1].sub_spec(other.data@[1]),
                self.data@[2].sub_spec(other.data@[2]),
            ];
            if T::obeys_sub_spec() {
                assert(m =~= spec);
            }
        }
        Bgr { data: m }
    }
}

impl<T: Copy + Mul<Output = T>> vstd::std_specs::ops::MulSpecImpl for Bgr<T> {
    open spec fn obeys_mul_spec() -> bool {
        T::obeys_mul_spec()
    }

    open spec fn mul_req(self, other: Bgr<T>) -> bool {
        &&& can_multiply(self.data@[0], other.data@[0])
        &&& can_multiply(self.data@[1], other.data@[1])
        &&& can_multiply(self.data@[2], other.data@[2])
    }

    open spec fn mul_spec(self, other: Bgr<T>) -> Bgr<T> {
        Bgr {
            data: [
                self.data@[0].mul_spec(other.data@[0]),
                self.data@[1].mul_spec(other.data@[1]),
                self.data@[2].mul_spec(other.data@[2]),
            ],
        }
    }
}

/// The product, channel by channel.
impl<T: Copy + Mul<Output = T>> Mul for Bgr<T> {
    type Output = Bgr<T>;

    fn mul(self, other: Bgr<T>) -> (r: Bgr<T>)
        ensures
            is_product(self.data@[0], other.data@[0], r.data@[0]),
            is_product(self.data@[1], other.data@[1], r.data@[1]),
            is_product(self.data@[2], other.data@[2], r.data@[2]),
    {
        let m = [
            self.data[0] * other.data[0],
            self.data[1] * other.data[1],
            self.data[2] * other.data[2],
        ];
        proof {
            let spec = [
                self.data@[0].mul_spec(other.data@[0]),
                self.data@[1].mul_spec(other.data@[1]),
                self.data@[2].mul_spec(other.data@[2]),
            ];
            if T::obeys_mul_spec() {
                assert(m =~= spec);
            }
        }
        Bgr { data: m }
    }
}

impl<T: Copy, U: Primitive + From<T> + Add<Output = U>> vstd::std_specs::ops::AddSpecImpl<U> for Bgr<T> {
    open spec fn obeys_add_spec() -> bool {
        U::obeys_from_spec() && <U as AddSpec>::obeys_add_spec()
    }

    open spec fn add_req(self, other: U) -> bool {
        &&& forall|v: U| #[trigger] is_lifted(self.data@[0], v) ==> can_add(v, other)
        &&& forall|v: U| #[trigger] is_lifted(self.data@[1], v) ==> can_add(v, other)
        &&& forall|v: U| #[trigger] is_lifted(self.data@[2], v) ==> can_add(v, other)
    }

    open spec fn add_spec(self, other: U) -> Bgr<U> {
        Bgr {
            data: [
                U::from_spec(self.data@[0]).add_spec(other),
                U::from_spec(self.data@[1]).add_spec(other),
                U::from_spec(self.data@[2]).add_spec(other),
            ],
        }
    }
}

/// Each channel plus `other`, after each channel is converted to the type of `other`.
impl<T: Copy, U: Primitive + From<T> + Add<Output = U>> Add<U> for Bgr<T> {
    type Output = Bgr<U>;

    fn add(self, other: U) -> (r: Bgr<U>)
        ensures
            is_lifted_sum(self.data@[0], other, r.data@[0]),
            is_lifted_sum(self.data@[1], other, r.data@[1]),
            is_lifted_sum(self.data@[2], other, r.data@[2]),
    {
        let v0 = U::from(self.data[0]);
        let v1 = U::from(self.data[1]);
        let v2 = U::from(self.data[2]);
        proof {
            assert(is_lifted(self.data@[0], v0));
            assert(is_lifted(self.data@[1], v1));
            assert(is_lifted(self.data@[2], v2));
        }
        let m0 = v0 + other;
        let m1 = v1 + other;
        let m2 = v2 + other;
        let m = [
            m0,
            m1,
            m2,
        ];
        proof {
            let spec = [
                U::from_spec(self.data@[0]).add_spec(other),
                U::from_spec(self.data@[1]).add_spec(other),
                U::from_spec(self.data@[2]).add_spec(other),
            ];
            if U::obeys_from_spec() && <U as AddSpec>::obeys_add_spec() {
                assert(m =~= spec);
            }
            assert(is_sum(v0, other, m0));
            assert(is_lifted_sum(self.data@[0], other, m@[0]));
            assert(is_sum(v1, other, m1));
            assert(is_lifted_sum(self.data@[1], other, m@[1]));
            assert(is_sum(v2, other, m2));
            assert(is_lifted_sum(self.data@[2], other, m@[2]));
        }
        Bgr { data: m }
    }
}

impl<T: Copy, U: Primitive + From<T> + Sub<Output = U>> vstd::std_specs::ops::SubSpecImpl<U> for Bgr<T> {
    open spec fn obeys_sub_spec() -> bool {
        U::obeys_from_spec() && <U as SubSpec>::obeys_sub_spec()
    }

    open spec fn sub_req(self, other: U) -> bool {
        &&& forall|v: U| #[trigger] is_lifted(self.data@[0], v) ==> can_subtract(v, other)
        &&& forall|v: U| #[trigger] is_lifted(self.data@[1], v) ==> can_subtract(v, other)
        &&& forall|v: U| #[trigger] is_lifted(self.data@[2], v) ==> can_subtract(v, other)
    }

    open spec fn sub_spec(self, other: U) -> Bgr<U> {
        Bgr {
            data: [
                U::from_spec(self.data@[0]).sub_spec(other),
                U::from_spec(self.data@[1]).sub_spec(other),
                U::from_spec(self.data@[2]).sub_spec(other),
            ],
        }
    }
}

/// Each channel minus `other`, after each channel is converted to the type of `other`.
impl<T: Copy, U: Primitive + From<T> + Sub<Output = U>> Sub<U> for Bgr<T> {
    type Output = Bgr<U>;

    fn sub(self, other: U) -> (r: Bgr<U>)
        ensures
            is_lifted_difference(self.data@[0], other, r.data@[0]),
            is_lifted_difference(self.data@[1], other, r.data@[1]),
            is_lifted_difference(self.data@[2], other, r.data@[2]),
    {
        let v0 = U::from(self.data[0]);
        let v1 = U::from(self.data[1]);
        let v2 = U::from(self.data[2]);
        proof {
            assert(is_lifted(self.data@[0], v0));
            assert(is_lifted(self.data@[1], v1));
            assert(is_lifted(self.data@[2], v2));
        }
        let m0 = v0 - other;
        let m1 = v1 - other;
        let m2 = v2 - other;
        let m = [
            m0,
            m1,
            m2,
        ];
        proof {
            let spec = [
                U::from_spec(self.data@[0]).sub_spec(other),
                U::from_spec(self.data@[1]).sub_spec(other),
                U::from_spec(self.data@[2]).sub_spec(other),
            ];
            if U::obeys_from_spec() && <U as SubSpec>::obeys_sub_spec() {
                assert(m =~= spec);
            }
            assert(is_difference(v0, other, m0));
            assert(is_lifted_difference(self.data@[0], other, m@[0]));
            assert(is_difference(v1, other, m1));
            assert(is_lifted_difference(self.data@[1], other, m@[1]));
            assert(is_difference(v2, other, m2));
            assert(is_lifted_difference(self.data@[2], other, m@[2]));
        }
        Bgr { data: m }
    }
}

impl<T: Copy, U: Primitive + From<T> + Mul<Output = U>> vstd::std_specs::ops::MulSpecImpl<U> for Bgr<T> {
    open spec fn obeys_mul_spec() -> bool {
        U::obeys_from_spec() && <U as MulSpec>::obeys_mul_spec()
    }

    open spec fn mul_req(self, other: U) -> bool {
        &&& forall|v: U| #[trigger] is_lifted(self.data@[0], v) ==> can_multiply(v, other)
        &&& forall|v: U| #[trigger] is_lifted(self.data@[1], v) ==> can_multiply(v, other)
        &&& forall|v: U| #[trigger] is_lifted(self.data@[2], v) ==> can_multiply(v, other)
    }

    open spec fn mul_spec(self, other: U) -> Bgr<U> {
        Bgr {
            data: [
                U::from_spec(self.data@[0]).mul_spec(other),
                U::from_spec(self.data@[1]).mul_spec(other),
                U::from_spec(self.data@[2]).mul_spec(other),
            ],
        }
    }
}

/// Each channel times `other`, after each channel is converted to the type of `other`.
impl<T: Copy, U: Primitive + From<T> + Mul<Output = U>> Mul<U> for Bgr<T> {
    type Output = Bgr<U>;

    fn mul(self, other: U) -> (r: Bgr<U>)
        ensures
            is_lifted_product(self.data@[0], other, r.data@[0]),
            is_lifted_product(self.data@[1], other, r.data@[1]),
            is_lifted_product(self.data@[2], other, r.data@[2]),
    {
        let v0 = U::from(self.data[0]);
        let v1 = U::from(self.data[1]);
        let v2 = U::from(self.data[2]);
        proof {
            assert(is_lifted(self.data@[0], v0));
            assert(is_lifted(self.data@[1], v1));
            assert(is_lifted(self.data@[2], v2));
        }
        let m0 = v0 * other;
        let m1 = v1 * other;
        let m2 = v2 * other;
        let m = [
            m0,
            m1,
            m2,
        ];
        proof {
            let spec = [
                U::from_spec(self.data@[0]).mul_spec(other),
                U::from_spec(self.data@[1]).mul_spec(other),
                U::from_spec(self.data@[2]).mul_spec(other),
            ];
            if U::obeys_from_spec() && <U as MulSpec>::obeys_mul_spec() {
                assert(m =~= spec);
            }
            assert(is_product(v0, other, m0));
            assert(is_lifted_product(self.data@[0], other, m@[0]));
            assert(is_product(v1, other, m1));
            assert(is_lifted_product(self.data@[1], other, m@[1]));
            assert(is_product(v2, other, m2));
            assert(is_lifted_product(self.data@[2], other, m@[2]));
        }
        Bgr { data: m }
    }
}

impl<T: Primitive> Bgr<T> {
    /// The sum, channel by channel, where a channel that would leave the
    /// range of `T` stops at the bound.
    pub fn saturating_add(self, other: Bgr<T>) -> (r: Bgr<T>)
        ensures
            forall|c: int|
                0 <= c < 3 ==> (#[trigger] r.data@[c]).to_int() == clamp_int(
                    self.data@[c].to_int() + other.data@[c].to_int(),
                    T::min_int(),
                    T::max_int(),
                ),
    {
        Bgr {
            data: [
                self.data[0].saturating_add(other.data[0]),
                self.data[1].saturating_add(other.data[1]),
                self.data[2].saturating_add(other.data[2]),
            ],
        }
    }

    /// The difference, channel by channel, where a channel that would leave
    /// the range of `T` stops at the bound.
    pub fn saturating_sub(self, other: Bgr<T>) -> (r: Bgr<T>)
        ensures
            forall|c: int|
                0 <= c < 3 ==> (#[trigger] r.data@[c]).to_int() == clamp_int(
                    self.data@[c].to_int() - other.data@[c].to_int(),
                    T::min_int(),
                    T::max_int(),
                ),
    {
        Bgr {
            data: [
                self.data[0].saturating_sub(other.data[0]),
                self.data[1].saturating_sub(other.data[1]),
                self.data[2].saturating_sub(other.data[2]),
            ],
        }
    }
}

/// A grayscale pixel: one channel.
#[derive(PartialEq, Eq, Clone, Debug, Copy, Hash)]
pub struct Gray<T> {
    pub data: [T; 1],
}

/// The pixel with the channels `data`.
#[allow(non_snake_case)]
pub fn Gray<T>(data: [T; 1]) -> (p: Gray<T>)
    ensures
        p.data == data,
{
    Gray { data }
}

impl<T: Copy + Default> Pixel for Gray<T> {
    type Subpixel = T;

    open spec fn spec_channels() -> nat {
        1
    }

    open spec fn spec_alpha() -> int {
        -1
    }

    open spec fn spec_raw(self) -> Seq<T> {
        self.data@
    }

    open spec fn spec_from_raw(raw: Seq<T>) -> Self {
        Gray { data: [raw[0]] }
    }

    proof fn lemma_kind() {
    }

    proof fn lemma_raw_len(self) {
    }

    proof fn lemma_from_raw(raw: Seq<T>) {
        assert(Self::spec_from_raw(raw).spec_raw() =~= raw.subrange(0, 1));
    }

    proof fn lemma_raw_injective(self, other: Self) {
        assert(self.data =~= other.data);
    }

    fn zero() -> (p: Self) {
        let z = T::default();
        Gray { data: [z; 1] }
    }

    fn alpha() -> (a: isize) {
        -1
    }

    fn channels() -> (n: u8) {
        1
    }

    fn bits_per_pixel() -> (n: u8) {
        8
    }

    fn raw(&self) -> (s: &[T]) {
        &self.data
    }

    fn raw_mut(&mut self) -> (s: &mut [T]) {
        &mut self.data
    }

    fn from_raw(raw: &[T]) -> (p: Self) {
        let p = Gray { data: [raw[0]] };
        assert(p.data =~= Self::spec_from_raw(raw@).data);
        p
    }
}

impl<T> vstd::std_specs::core::IndexSpecImpl<usize> for Gray<T> {
    open spec fn index_req(&self, index: &usize) -> bool {
        *index < 1
    }
}

/// Channel `index`.
impl<T> Index<usize> for Gray<T> {
    type Output = T;

    fn index(&self, index: usize) -> (output: &T)
        ensures
            *output == self.data@[index as int],
    {
        &self.data[index]
    }
}

/// Channel `index`, to be written in place.
impl<T> IndexMut<usize> for Gray<T> {
    fn index_mut(&mut self, index: usize) -> (output: &mut T)
        requires
            index < 1,
        ensures
            *output == old(self).data@[index as int],
            final(self).data@ == old(self).data@.update(index as int, *final(output)),
    {
        &mut self.data[index]
    }
}

impl<T: Copy + Add<Output = T>> vstd::std_specs::ops::AddSpecImpl for Gray<T> {
    open spec fn obeys_add_spec() -> bool {
        T::obeys_add_spec()
    }

    open spec fn add_req(self, other: Gray<T>) -> bool {
        &&& can_add(self.data@[0], other.data@[0])
    }

    open spec fn add_spec(self, other: Gray<T>) -> Gray<T> {
        Gray {
            data: [self.data@[0].add_spec(other.data@[0])],
        }
    }
}

/// The sum, channel by channel.
impl<T: Copy + Add<Output = T>> Add for Gray<T> {
    type Output = Gray<T>;

    fn add(self, other: Gray<T>) -> (r: Gray<T>)
        ensures
            is_sum(self.data@[0], other.data@[0], r.data@[0]),
    {
        let m = [self.data[0] + other.data[0]];
        proof {
            let spec = [self.data@[0].add_spec(other.data@[0])];
            if T::obeys_add_spec() {
                assert(m =~= spec);
            }
        }
        Gray { data: m }
    }
}

impl<T: Copy + Sub<Output = T>> vstd::std_specs::ops::SubSpecImpl for Gray<T> {
    open spec fn obeys_sub_spec() -> bool {
        T::obeys_sub_spec()
    }

    open spec fn sub_req(self, other: Gray<T>) -> bool {
        &&& can_subtract(self.data@[0], other.data@[0])
    }

    open spec fn sub_spec(self, other: Gray<T>) -> Gray<T> {
        Gray {
            data: [self.data@[0].sub_spec(other.data@[0])],
        }
    }
}

/// The difference, channel by channel.
impl<T: Copy + Sub<Output = T>> Sub for Gray<T> {
    type Output = Gray<T>;

    fn sub(self, other: Gray<T>) -> (r: Gray<T>)
        ensures
            is_difference(self.data@[0], other.data@[0], r.data@[0]),
    {
        let m = [self.data[0] - other.data[0]];
        proof {
            let spec = [self.data@[0].sub_spec(other.data@[0])];
            if T::obeys_sub_spec() {
                assert(m =~= spec);
            }
        }
        Gray { data: m }
    }
}

impl<T: Copy + Mul<Output = T>> vstd::std_specs::ops::MulSpecImpl for Gray<T> {
    open spec fn obeys_mul_spec() -> bool {
        T::obeys_mul_spec()
    }

    open spec fn mul_req(self, other: Gray<T>) -> bool {
        &&& can_multiply(self.data@[0], other.data@[0])
    }

    open spec fn mul_spec(self, other: Gray<T>) -> Gray<T> {
        Gray {
            data: [self.data@[0].mul_spec(other.data@[0])],
        }
    }
}

/// The product, channel by channel.
impl<T: Copy + Mul<Output = T>> Mul for Gray<T> {
    type Output = Gray<T>;

    fn mul(self, other: Gray<T>) -> (r: Gray<T>)
        ensures
            is_product(self.data@[0], other.data@[0], r.data@[0]),
    {
        let m = [self.data[0] * other.data[0]];
        proof {
            let spec = [self.data@[0].mul_spec(other.data@[0])];
            if T::obeys_mul_spec() {
                assert(m =~= spec);
            }
        }
        Gray { data: m }
    }
}

impl<T: Copy, U: Primitive + From<T> + Add<Output = U>> vstd::std_specs::ops::AddSpecImpl<U> for Gray<T> {
    open spec fn obeys_add_spec() -> bool {
        U::obeys_from_spec() && <U as AddSpec>::obeys_add_spec()
    }

    open spec fn add_req(self, other: U) -> bool {
        &&& forall|v: U| #[trigger] is_lifted(self.data@[0], v) ==> can_add(v, other)
    }

    open spec fn add_spec(self, other: U) -> Gray<U> {
        Gray {
            data: [U::from_spec(self.data@[0]).add_spec(other)],
        }
    }
}

/// Each channel plus `other`, after each channel is converted to the type of `other`.
impl<T: Copy, U: Primitive + From<T> + Add<Output = U>> Add<U> for Gray<T> {
    type Output = Gray<U>;

    fn add(self, other: U) -> (r: Gray<U>)
        ensures
            is_lifted_sum(self.data@[0], other, r.data@[0]),
    {
        let v0 = U::from(self.data[0]);
        proof {
            assert(is_lifted(self.data@[0], v0));
        }
        let m0 = v0 + other;
        let m = [m0];
        proof {
            let spec = [U::from_spec(self.data@[0]).add_spec(other)];
            if U::obeys_from_spec() && <U as AddSpec>::obeys_add_spec() {
                assert(m =~= spec);
            }
            assert(is_sum(v0, other, m0));
            assert(is_lifted_sum(self.data@[0], other, m@[0]));
        }
        Gray { data: m }
    }
}

impl<T: Copy, U: Primitive + From<T> + Sub<Output = U>> vstd::std_specs::ops::SubSpecImpl<U> for Gray<T> {
    open spec fn obeys_sub_spec() -> bool {
        U::obeys_from_spec() && <U as SubSpec>::obeys_sub_spec()
    }

    open spec fn sub_req(self, other: U) -> bool {
        &&& forall|v: U| #[trigger] is_lifted(self.data@[0], v) ==> can_subtract(v, other)
    }

    open spec fn sub_spec(self, other: U) -> Gray<U> {
        Gray {
            data: [U::from_spec(self.data@[0]).sub_spec(other)],
        }
    }
}

/// Each channel minus `other`, after each channel is converted to the type of `other`.
impl<T: Copy, U: Primitive + From<T> + Sub<Output = U>> Sub<U> for Gray<T> {
    type Output = Gray<U>;

    fn sub(self, other: U) -> (r: Gray<U>)
        ensures
            is_lifted_difference(self.data@[0], other, r.data@[0]),
    {
        let v0 = U::from(self.data[0]);
        proof {
            assert(is_lifted(self.data@[0], v0));
        }
        let m0 = v0 - other;
        let m = [m0];
        proof {
            let spec = [U::from_spec(self.data@[0]).sub_spec(other)];
            if U::obeys_from_spec() && <U as SubSpec>::obeys_sub_spec() {
                assert(m =~= spec);
            }
            assert(is_difference(v0, other, m0));
            assert(is_lifted_difference(self.data@[0], other, m@[0]));
        }
        Gray { data: m }
    }
}

impl<T: Copy, U: Primitive + From<T> + Mul<Output = U>> vstd::std_specs::ops::MulSpecImpl<U> for Gray<T> {
    open spec fn obeys_mul_spec() -> bool {
        U::obeys_from_spec() && <U as MulSpec>::obeys_mul_spec()
    }

    open spec fn mul_req(self, other: U) -> bool {
        &&& forall|v: U| #[trigger] is_lifted(self.data@[0], v) ==> can_multiply(v, other)
    }

    open spec fn mul_spec(self, other: U) -> Gray<U> {
        Gray {
            data: [U::from_spec(self.data@[0]).mul_spec(other)],
        }
    }
}

/// Each channel times `other`, after each channel is converted to the type of `other`.
impl<T: Copy, U: Primitive + From<T> + Mul<Output = U>> Mul<U> for Gray<T> {
    type Output = Gray<U>;

    fn mul(self, other: U) -> (r: Gray<U>)
        ensures
            is_lifted_product(self.data@[0], other, r.data@[0]),
    {
        let v0 = U::from(self.data[0]);
        proof {
            assert(is_lifted(self.data@[0], v0));
        }
        let m0 = v0 * other;
        let m = [m0];
        proof {
            let spec = [U::from_spec(self.data@[0]).mul_spec(other)];
            if U::obeys_from_spec() && <U as MulSpec>::obeys_mul_spec() {
                assert(m =~= spec);
            }
            assert(is_product(v0, other, m0));
            assert(is_lifted_product(self.data@[0], other, m@[0]));
        }
        Gray { data: m }
    }
}

impl<T: Primitive> Gray<T> {
    /// The sum, channel by channel, where a channel that would leave the
    /// range of `T` stops at the bound.
    pub fn saturating_add(self, other: Gray<T>) -> (r: Gray<T>)
        ensures
            forall|c: int|
                0 <= c < 1 ==> (#[trigger] r.data@[c]).to_int() == clamp_int(
                    self.data@[c].to_int() + other.data@[c].to_int(),
                    T::min_int(),
                    T::max_int(),
                ),
    {
        Gray {
            data: [self.data[0].saturating_add(other.data[0])],
        }
    }

    /// The difference, channel by channel, where a channel that would leave
    /// the range of `T` stops at the bound.
    pub fn saturating_sub(self, other: Gray<T>) -> (r: Gray<T>)
        ensures
            forall|c: int|
                0 <= c < 1 ==> (#[trigger] r.data@[c]).to_int() == clamp_int(
                    self.data@[c].to_int() - other.data@[c].to_int(),
                    T::min_int(),
                    T::max_int(),
                ),
    {
        Gray {
            data: [self.data[0].saturating_sub(other.data[0])],
        }
    }
}

/// A colour pixel with opacity: blue, green, red and alpha, in this order.
#[derive(PartialEq, Eq, Clone, Debug, Copy, Hash)]
pub struct Bgra<T> {
    pub data: [T; 4],
}

/// The pixel with the channels `data`.
#[allow(non_snake_case)]
pub fn Bgra<T>(data: [T; 4]) -> (p: Bgra<T>)
    ensures
        p.data == data,
{
    Bgra { data }
}

impl<T: Copy + Default> Pixel for Bgra<T> {
    type Subpixel = T;

    open spec fn spec_channels() -> nat {
        4
    }

    open spec fn spec_alpha() -> int {
        3
    }

    open spec fn spec_raw(self) -> Seq<T> {
        self.data@
    }

    open spec fn spec_from_raw(raw: Seq<T>) -> Self {
        Bgra { data: [raw[0], raw[1], raw[2], raw[3]] }
    }

    proof fn lemma_kind() {
    }

    proof fn lemma_raw_len(self) {
    }

    proof fn lemma_from_raw(raw: Seq<T>) {
        assert(Self::spec_from_raw(raw).spec_raw() =~= raw.subrange(0, 4));
    }

    proof fn lemma_raw_injective(self, other: Self) {
        assert(self.data =~= other.data);
    }

    fn zero() -> (p: Self) {
        let z = T::default();
        Bgra { data: [z; 4] }
    }

    fn alpha() -> (a: isize) {
        3
    }

    fn channels() -> (n: u8) {
        4
    }

    fn bits_per_pixel() -> (n: u8) {
        32
    }

    fn raw(&self) -> (s: &[T]) {
        &self.data
    }

    fn raw_mut(&mut self) -> (s: &mut [T]) {
        &mut self.data
    }

    fn from_raw(raw: &[T]) -> (p: Self) {
        let p = Bgra { data: [raw[0], raw[1], raw[2], raw[3]] };
        assert(p.data =~= Self::spec_from_raw(raw@).data);
        p
    }
}

impl<T> vstd::std_specs::core::IndexSpecImpl<usize> for Bgra<T> {
    open spec fn index_req(&self, index: &usize) -> bool {
        *index < 4
    }
}

/// Channel `index`.
impl<T> Index<usize> for Bgra<T> {
    type Output = T;

    fn index(&self, index: usize) -> (output: &T)
        ensures
            *output == self.data@[index as int],
    {
        &self.data[index]
    }
}

/// Channel `index`, to be written in place.
impl<T> IndexMut<usize> for Bgra<T> {
    fn index_mut(&mut self, index: usize) -> (output: &mut T)
        requires
            index < 4,
        ensures
            *output == old(self).data@[index as int],
            final(self).data@ == old(self).data@.update(index as int, *final(output)),
    {
        &mut self.data[index]
    }
}

impl<T: Copy + Add<Output = T>> vstd::std_specs::ops::AddSpecImpl for Bgra<T> {
    open spec fn obeys_add_spec() -> bool {
        T::obeys_add_spec()
    }

    open spec fn add_req(self, other: Bgra<T>) -> bool {
        &&& can_add(self.data@[0], other.data@[0])
        &&& can_add(self.data@[1], other.data@[1])
        &&& can_add(self.data@[2], other.data@[2])
        &&& can_add(self.data@[3], other.data@[3])
    }

    open spec fn add_spec(self, other: Bgra<T>) -> Bgra<T> {
        Bgra {
            data: [
                self.data@[0].add_spec(other.data@[0]),
                self.data@[1].add_spec(other.data@[1]),
                self.data@[2].add_spec(other.data@[2]),
                self.data@[3].add_spec(other.data@[3]),
            ],
        }
    }
}

/// The sum, channel by channel.
impl<T: Copy + Add<Output = T>> Add for Bgra<T> {
    type Output = Bgra<T>;

    fn add(self, other: Bgra<T>) -> (r: Bgra<T>)
        ensures
            is_sum(self.data@[0], other.data@[0], r.data@[0]),
            is_sum(self.data@[1], other.data@[1], r.data@[1]),
            is_sum(self.data@[2], other.data@[2], r.data@[2]),
            is_sum(self.data@[3], other.data@[3], r.data@[3]),
    {
        let m = [
            self.data[0] + other.data[0],
            self.data[1] + other.data[1],
            self.data[2] + other.data[2],
            self.data[3] + other.data[3],
        ];
        proof {
            let spec = [
                self.data@[0].add_spec(other.data@[0]),
                self.data@[1].add_spec(other.data@[1]),
                self.data@[2].add_spec(other.data@[2]),
                self.data@[3].add_spec(other.data@[3]),
            ];
            if T::obeys_add_spec() {
                assert(m =~= spec);
            }
        }
        Bgra { data: m }
    }
}

impl<T: Copy + Sub<Output = T>> vstd::std_specs::ops::SubSpecImpl for Bgra<T> {
    open spec fn obeys_sub_spec() -> bool {
        T::obeys_sub_spec()
    }

    open spec fn sub_req(self, other: Bgra<T>) -> bool {
        &&& can_subtract(self.data@[0], other.data@[0])
        &&& can_subtract(self.data@[1], other.data@[1])
        &&& can_subtract(self.data@[2], other.data@[2])
        &&& can_subtract(self.data@[3], other.data@[3])
    }

    open spec fn sub_spec(self, other: Bgra<T>) -> Bgra<T> {
        Bgra {
            data: [
                self.data@[0].sub_spec(other.data@[0]),
                self.data@[1].sub_spec(other.data@[1]),
                self.data@[2].sub_spec(other.data@[2]),
                self.data@[3].sub_spec(other.data@[3]),
            ],
        }
    }
}

/// The difference, channel by channel.
impl<T: Copy + Sub<Output = T>> Sub for Bgra<T> {
    type Output = Bgra<T>;

    fn sub(self, other: Bgra<T>) -> (r: Bgra<T>)
        ensures
            is_difference(self.data@[0], other.data@[0], r.data@[0]),
            is_difference(self.data@[1], other.data@[1], r.data@[1]),
            is_difference(self.data@[2], other.data@[2], r.data@[2]),
            is_difference(self.data@[3], other.data@[3], r.data@[3]),
    {
        let m = [
            self.data[0] - other.data[0],
            self.data[1] - other.data[1],
            self.data[2] - other.data[2],
            self.data[3] - other.data[3],
        ];
        proof {
            let spec = [
                self.data@[0].sub_spec(other.data@[0]),
                self.data@[1].sub_spec(other.data@[1]),
                self.data@[2].sub_spec(other.data@[2]),
                self.data@[3].sub_spec(other.data@[3]),
            ];
            if T::obeys_sub_spec() {
                assert(m =~= spec);
            }
        }
        Bgra { data: m }
    }
}

impl<T: Copy + Mul<Output = T>> vstd::std_specs::ops::MulSpecImpl for Bgra<T> {
    open spec fn obeys_mul_spec() -> bool {
        T::obeys_mul_spec()
    }

    open spec fn mul_req(self, other: Bgra<T>) -> bool {
        &&& can_multiply(self.data@[0], other.data@[0])
        &&& can_multiply(self.data@[1], other.data@[1])
        &&& can_multiply(self.data@[2], other.data@[2])
        &&& can_multiply(self.data@[3], other.data@[3])
    }

    open spec fn mul_spec(self, other: Bgra<T>) -> Bgra<T> {
        Bgra {
            data: [
                self.data@[0].mul_spec(other.data@[0]),
                self.data@[1].mul_spec(other.data@[1]),
                self.data@[2].mul_spec(other.data@[2]),
                self.data@[3].mul_spec(other.data@[3]),
            ],
        }
    }
}

/// The product, channel by channel.
impl<T: Copy + Mul<Output = T>> Mul for Bgra<T> {
    type Output = Bgra<T>;

    fn mul(self, other: Bgra<T>) -> (r: Bgra<T>)
        ensures
            is_product(self.data@[0], other.data@[0], r.data@[0]),
            is_product(self.data@[1], other.data@[1], r.data@[1]),
            is_product(self.data@[2], other.data@[2], r.data@[2]),
            is_product(self.data@[3], other.data@[3], r.data@[3]),
    {
        let m = [
            self.data[0] * other.data[0],
            self.data[1] * other.data[1],
            self.data[2] * other.data[2],
            self.data[3] * other.data[3],
        ];
        proof {
            let spec = [
                self.data@[0].mul_spec(other.data@[0]),
                self.data@[1].mul_spec(other.data@[1]),
                self.data@[2].mul_spec(other.data@[2]),
                self.data@[3].mul_spec(other.data@[3]),
            ];
            if T::obeys_mul_spec() {
                assert(m =~= spec);
            }
        }
        Bgra { data: m }
    }
}

impl<T: Copy, U: Primitive + From<T> + Add<Output = U>> vstd::std_specs::ops::AddSpecImpl<U> for Bgra<T> {
    open spec fn obeys_add_spec() -> bool {
        U::obeys_from_spec() && <U as AddSpec>::obeys_add_spec()
    }

    open spec fn add_req(self, other: U) -> bool {
        &&& forall|v: U| #[trigger] is_lifted(self.data@[0], v) ==> can_add(v, other)
        &&& forall|v: U| #[trigger] is_lifted(self.data@[1], v) ==> can_add(v, other)
        &&& forall|v: U| #[trigger] is_lifted(self.data@[2], v) ==> can_add(v, other)
        &&& forall|v: U| #[trigger] is_lifted(self.data@[3], v) ==> can_add(v, other)
    }

    open spec fn add_spec(self, other: U) -> Bgra<U> {
        Bgra {
            data: [
                U::from_spec(self.data@[0]).add_spec(other),
                U::from_spec(self.data@[1]).add_spec(other),
                U::from_spec(self.data@[2]).add_spec(other),
                U::from_spec(self.data@[3]).add_spec(other),
            ],
        }
    }
}

/// Each channel plus `other`, after each channel is converted to the type of `other`.
impl<T: Copy, U: Primitive + From<T> + Add<Output = U>> Add<U> for Bgra<T> {
    type Output = Bgra<U>;

    fn add(self, other: U) -> (r: Bgra<U>)
        ensures
            is_lifted_sum(self.data@[0], other, r.data@[0]),
            is_lifted_sum(self.data@[1], other, r.data@[1]),
            is_lifted_sum(self.data@[2], other, r.data@[2]),
            is_lifted_sum(self.data@[3], other, r.data@[3]),
    {
        let v0 = U::from(self.data[0]);
        let v1 = U::from(self.data[1]);
        let v2 = U::from(self.data[2]);
        let v3 = U::from(self.data[3]);
        proof {
            assert(is_lifted(self.data@[0], v0));
            assert(is_lifted(self.data@[1], v1));
            assert(is_lifted(self.data@[2], v2));
            assert(is_lifted(self.data@[3], v3));
        }
        let m0 = v0 + other;
        let m1 = v1 + other;
        let m2 = v2 + other;
        let m3 = v3 + other;
        let m = [
            m0,
            m1,
            m2,
            m3,
        ];
        proof {
            let spec = [
                U::from_spec(self.data@[0]).add_spec(other),
                U::from_spec(self.data@[1]).add_spec(other),
                U::from_spec(self.data@[2]).add_spec(other),
                U::from_spec(self.data@[3]).add_spec(other),
            ];
            if U::obeys_from_spec() && <U as AddSpec>::obeys_add_spec() {
                assert(m =~= spec);
            }
            assert(is_sum(v0, other, m0));
            assert(is_lifted_sum(self.data@[0], other, m@[0]));
            assert(is_sum(v1, other, m1));
            assert(is_lifted_sum(self.data@[1], other, m@[1]));
            assert(is_sum(v2, other, m2));
            assert(is_lifted_sum(self.data@[2], other, m@[2]));
            assert(is_sum(v3, other, m3));
            assert(is_lifted_sum(self.data@[3], other, m@[3]));
        }
        Bgra { data: m }
    }
}

impl<T: Copy, U: Primitive + From<T> + Sub<Output = U>> vstd::std_specs::ops::SubSpecImpl<U> for Bgra<T> {
    open spec fn obeys_sub_spec() -> bool {
        U::obeys_from_spec() && <U as SubSpec>::obeys_sub_spec()
    }

    open spec fn sub_req(self, other: U) -> bool {
        &&& forall|v: U| #[trigger] is_lifted(self.data@[0], v) ==> can_subtract(v, other)
        &&& forall|v: U| #[trigger] is_lifted(self.data@[1], v) ==> can_subtract(v, other)
        &&& forall|v: U| #[trigger] is_lifted(self.data@[2], v) ==> can_subtract(v, other)
        &&& forall|v: U| #[trigger] is_lifted(self.data@[3], v) ==> can_subtract(v, other)
    }

    open spec fn sub_spec(self, other: U) -> Bgra<U> {
        Bgra {
            data: [
                U::from_spec(self.data@[0]).sub_spec(other),
                U::from_spec(self.data@[1]).sub_spec(other),
                U::from_spec(self.data@[2]).sub_spec(other),
                U::from_spec(self.data@[3]).sub_spec(other),
            ],
        }
    }
}

/// Each channel minus `other`, after each channel is converted to the type of `other`.
impl<T: Copy, U: Primitive + From<T> + Sub<Output = U>> Sub<U> for Bgra<T> {
    type Output = Bgra<U>;

    fn sub(self, other: U) -> (r: Bgra<U>)
        ensures
            is_lifted_difference(self.data@[0], other, r.data@[0]),
            is_lifted_difference(self.data@[1], other, r.data@[1]),
            is_lifted_difference(self.data@[2], other, r.data@[2]),
            is_lifted_difference(self.data@[3], other, r.data@[3]),
    {
        let v0 = U::from(self.data[0]);
        let v1 = U::from(self.data[1]);
        let v2 = U::from(self.data[2]);
        let v3 = U::from(self.data[3]);
        proof {
            assert(is_lifted(self.data@[0], v0));
            assert(is_lifted(self.data@[1], v1));
            assert(is_lifted(self.data@[2], v2));
            assert(is_lifted(self.data@[3], v3));
        }
        let m0 = v0 - other;
        let m1 = v1 - other;
        let m2 = v2 - other;
        let m3 = v3 - other;
        let m = [
            m0,
            m1,
            m2,
            m3,
        ];
        proof {
            let spec = [
                U::from_spec(self.data@[0]).sub_spec(other),
                U::from_spec(self.data@[1]).sub_spec(other),
                U::from_spec(self.data@[2]).sub_spec(other),
                U::from_spec(self.data@[3]).sub_spec(other),
            ];
            if U::obeys_from_spec() && <U as SubSpec>::obeys_sub_spec() {
                assert(m =~= spec);
            }
            assert(is_difference(v0, other, m0));
            assert(is_lifted_difference(self.data@[0], other, m@[0]));
            assert(is_difference(v1, other, m1));
            assert(is_lifted_difference(self.data@[1], other, m@[1]));
            assert(is_difference(v2, other, m2));
            assert(is_lifted_difference(self.data@[2], other, m@[2]));
            assert(is_difference(v3, other, m3));
            assert(is_lifted_difference(self.data@[3], other, m@[3]));
        }
        Bgra { data: m }
    }
}

impl<T: Copy, U: Primitive + From<T> + Mul<Output = U>> vstd::std_specs::ops::MulSpecImpl<U> for Bgra<T> {
    open spec fn obeys_mul_spec() -> bool {
        U::obeys_from_spec() && <U as MulSpec>::obeys_mul_spec()
    }

    open spec fn mul_req(self, other: U) -> bool {
        &&& forall|v: U| #[trigger] is_lifted(self.data@[0], v) ==> can_multiply(v, other)
        &&& forall|v: U| #[trigger] is_lifted(self.data@[1], v) ==> can_multiply(v, other)
        &&& forall|v: U| #[trigger] is_lifted(self.data@[2], v) ==> can_multiply(v, other)
        &&& forall|v: U| #[trigger] is_lifted(self.data@[3], v) ==> can_multiply(v, other)
    }

    open spec fn mul_spec(self, other: U) -> Bgra<U> {
        Bgra {
            data: [
                U::from_spec(self.data@[0]).mul_spec(other),
                U::from_spec(self.data@[1]).mul_spec(other),
                U::from_spec(self.data@[2]).mul_spec(other),
                U::from_spec(self.data@[3]).mul_spec(other),
            ],
        }
    }
}

/// Each channel times `other`, after each channel is converted to the type of `other`.
impl<T: Copy, U: Primitive + From<T> + Mul<Output = U>> Mul<U> for Bgra<T> {
    type Output = Bgra<U>;

    fn mul(self, other: U) -> (r: Bgra<U>)
        ensures
            is_lifted_product(self.data@[0], other, r.data@[0]),
            is_lifted_product(self.data@[1], other, r.data@[1]),
            is_lifted_product(self.data@[2], other, r.data@[2]),
            is_lifted_product(self.data@[3], other, r.data@[3]),
    {
        let v0 = U::from(self.data[0]);
        let v1 = U::from(self.data[1]);
        let v2 = U::from(self.data[2]);
        let v3 = U::from(self.data[3]);
        proof {
            assert(is_lifted(self.data@[0], v0));
            assert(is_lifted(self.data@[1], v1));
            assert(is_lifted(self.data@[2], v2));
            assert(is_lifted(self.data@[3], v3));
        }
        let m0 = v0 * other;
        let m1 = v1 * other;
        let m2 = v2 * other;
        let m3 = v3 * other;
        let m = [
            m0,
            m1,
            m2,
            m3,
        ];
        proof {
            let spec = [
                U::from_spec(self.data@[0]).mul_spec(other),
                U::from_spec(self.data@[1]).mul_spec(other),
                U::from_spec(self.data@[2]).mul_spec(other),
                U::from_spec(self.data@[3]).mul_spec(other),
            ];
            if U::obeys_from_spec() && <U as MulSpec>::obeys_mul_spec() {
                assert(m =~= spec);
            }
            assert(is_product(v0, other, m0));
            assert(is_lifted_product(self.data@[0], other, m@[0]));
            assert(is_product(v1, other, m1));
            assert(is_lifted_product(self.data@[1], other, m@[1]));
            assert(is_product(v2, other, m2));
            assert(is_lifted_product(self.data@[2], other, m@[2]));
            assert(is_product(v3, other, m3));
            assert(is_lifted_product(self.data@[3], other, m@[3]));
        }
        Bgra { data: m }
    }
}

impl<T: Primitive> Bgra<T> {
    /// The sum, channel by channel, where a channel that would leave the
    /// range of `T` stops at the bound.
    pub fn saturating_add(self, other: Bgra<T>) -> (r: Bgra<T>)
        ensures
            forall|c: int|
                0 <= c < 4 ==> (#[trigger] r.data@[c]).to_int() == clamp_int(
                    self.data@[c].to_int() + other.data@[c].to_int(),
                    T::min_int(),
                    T::max_int(),
                ),
    {
        Bgra {
            data: [
                self.data[0].saturating_add(other.data[0]),
                self.data[1].saturating_add(other.data[1]),
                self.data[2].saturating_add(other.data[2]),
                self.data[3].saturating_add(other.data[3]),
            ],
        }
    }

    /// The difference, channel by channel, where a channel that would leave
    /// the range of `T` stops at the bound.
    pub fn saturating_sub(self, other: Bgra<T>) -> (r: Bgra<T>)
        ensures
            forall|c: int|
                0 <= c < 4 ==> (#[trigger] r.data@[c]).to_int() == clamp_int(
                    self.data@[c].to_int() - other.data@[c].to_int(),
                    T::min_int(),
                    T::max_int(),
                ),
    {
        Bgra {
            data: [
                self.data[0].saturating_sub(other.data[0]),
                self.data[1].saturating_sub(other.data[1]),
                self.data[2].saturating_sub(other.data[2]),
                self.data[3].saturating_sub(other.data[3]),
            ],
        }
    }
}

/// A colour pixel with opacity: red, green, blue and alpha, in this order.
#[derive(PartialEq, Eq, Clone, Debug, Copy, Hash)]
pub struct Rgba<T> {
    pub data: [T; 4],
}

/// The pixel with the channels `data`.
#[allow(non_snake_case)]
pub fn Rgba<T>(data: [T; 4]) -> (p: Rgba<T>)
    ensures
        p.data == data,
{
    Rgba { data }
}

impl<T: Copy + Default> Pixel for Rgba<T> {
    type Subpixel = T;

    open spec fn spec_channels() -> nat {
        4
    }

    open spec fn spec_alpha() -> int {
        3
    }

    open spec fn spec_raw(self) -> Seq<T> {
        self.data@
    }

    open spec fn spec_from_raw(raw: Seq<T>) -> Self {
        Rgba { data: [raw[0], raw[1], raw[2], raw[3]] }
    }

    proof fn lemma_kind() {
    }

    proof fn lemma_raw_len(self) {
    }

    proof fn lemma_from_raw(raw: Seq<T>) {
        assert(Self::spec_from_raw(raw).spec_raw() =~= raw.subrange(0, 4));
    }

    proof fn lemma_raw_injective(self, other: Self) {
        assert(self.data =~= other.data);
    }

    fn zero() -> (p: Self) {
        let z = T::default();
        Rgba { data: [z; 4] }
    }

    fn alpha() -> (a: isize) {
        3
    }

    fn channels() -> (n: u8) {
        4
    }

    fn bits_per_pixel() -> (n: u8) {
        32
    }

    fn raw(&self) -> (s: &[T]) {
        &self.data
    }

    fn raw_mut(&mut self) -> (s: &mut [T]) {
        &mut self.data
    }

    fn from_raw(raw: &[T]) -> (p: Self) {
        let p = Rgba { data: [raw[0], raw[1], raw[2], raw[3]] };
        assert(p.data =~= Self::spec_from_raw(raw@).data);
        p
    }
}

impl<T> vstd::std_specs::core::IndexSpecImpl<usize> for Rgba<T> {
    open spec fn index_req(&self, index: &usize) -> bool {
        *index < 4
    }
}

/// Channel `index`.
impl<T> Index<usize> for Rgba<T> {
    type Output = T;

    fn index(&self, index: usize) -> (output: &T)
        ensures
            *output == self.data@[index as int],
    {
        &self.data[index]
    }
}

/// Channel `index`, to be written in place.
impl<T> IndexMut<usize> for Rgba<T> {
    fn index_mut(&mut self, index: usize) -> (output: &mut T)
        requires
            index < 4,
        ensures
            *output == old(self).data@[index as int],
            final(self).data@ == old(self).data@.update(index as int, *final(output)),
    {
        &mut self.data[index]
    }
}

impl<T: Copy + Add<Output = T>> vstd::std_specs::ops::AddSpecImpl for Rgba<T> {
    open spec fn obeys_add_spec() -> bool {
        T::obeys_add_spec()
    }

    open spec fn add_req(self, other: Rgba<T>) -> bool {
        &&& can_add(self.data@[0], other.data@[0])
        &&& can_add(self.data@[1], other.data@[1])
        &&& can_add(self.data@[2], other.data@[2])
        &&& can_add(self.data@[3], other.data@[3])
    }

    open spec fn add_spec(self, other: Rgba<T>) -> Rgba<T> {
        Rgba {
            data: [
                self.data@[0].add_spec(other.data@[0]),
                self.data@[1].add_spec(other.data@[1]),
                self.data@[2].add_spec(other.data@[2]),
                self.data@[3].add_spec(other.data@[3]),
            ],
        }
    }
}

/// The sum, channel by channel.
impl<T: Copy + Add<Output = T>> Add for Rgba<T> {
    type Output = Rgba<T>;

    fn add(self, other: Rgba<T>) -> (r: Rgba<T>)
        ensures
            is_sum(self.data@[0], other.data@[0], r.data@[0]),
            is_sum(self.data@[1], other.data@[1], r.data@[1]),
            is_sum(self.data@[2], other.data@[2], r.data@[2]),
            is_sum(self.data@[3], other.data@[3], r.data@[3]),
    {
        let m = [
            self.data[0] + other.data[0],
            self.data[1] + other.data[1],
            self.data[2] + other.data[2],
            self.data[3] + other.data[3],
        ];
        proof {
            let spec = [
                self.data@[0].add_spec(other.data@[0]),
                self.data@[1].add_spec(other.data@[1]),
                self.data@[2].add_spec(other.data@[2]),
                self.data@[3].add_spec(other.data@[3]),
            ];
            if T::obeys_add_spec() {
                assert(m =~= spec);
            }
        }
        Rgba { data: m }
    }
}

impl<T: Copy + Sub<Output = T>> vstd::std_specs::ops::SubSpecImpl for Rgba<T> {
    open spec fn obeys_sub_spec() -> bool {
        T::obeys_sub_spec()
    }

    open spec fn sub_req(self, other: Rgba<T>) -> bool {
        &&& can_subtract(self.data@[0], other.data@[0])
        &&& can_subtract(self.data@[1], other.data@[1])
        &&& can_subtract(self.data@[2], other.data@[2])
        &&& can_subtract(self.data@[3], other.data@[3])
    }

    open spec fn sub_spec(self, other: Rgba<T>) -> Rgba<T> {
        Rgba {
            data: [
                self.data@[0].sub_spec(other.data@[0]),
                self.data@[1].sub_spec(other.data@[1]),
                self.data@[2].sub_spec(other.data@[2]),
                self.data@[3].sub_spec(other.data@[3]),
            ],
        }
    }
}

/// The difference, channel by channel.
impl<T: Copy + Sub<Output = T>> Sub for Rgba<T> {
    type Output = Rgba<T>;

    fn sub(self, other: Rgba<T>) -> (r: Rgba<T>)
        ensures
            is_difference(self.data@[0], other.data@[0], r.data@[0]),
            is_difference(self.data@[1], other.data@[1], r.data@[1]),
            is_difference(self.data@[2], other.data@[2], r.data@[2]),
            is_difference(self.data@[3], other.data@[3], r.data@[3]),
    {
        let m = [
            self.data[0] - other.data[0],
            self.data[1] - other.data[1],
            self.data[2] - other.data[2],
            self.data[3] - other.data[3],
        ];
        proof {
            let spec = [
                self.data@[0].sub_spec(other.data@[0]),
                self.data@[1].sub_spec(other.data@[1]),
                self.data@[2].sub_spec(other.data@[2]),
                self.data@[3].sub_spec(other.data@[3]),
            ];
            if T::obeys_sub_spec() {
                assert(m =~= spec);
            }
        }
        Rgba { data: m }
    }
}

impl<T: Copy + Mul<Output = T>> vstd::std_specs::ops::MulSpecImpl for Rgba<T> {
    open spec fn obeys_mul_spec() -> bool {
        T::obeys_mul_spec()
    }

    open spec fn mul_req(self, other: Rgba<T>) -> bool {
        &&& can_multiply(self.data@[0], other.data@[0])
        &&& can_multiply(self.data@[1], other.data@[1])
        &&& can_multiply(self.data@[2], other.data@[2])
        &&& can_multiply(self.data@[3], other.data@[3])
    }

    open spec fn mul_spec(self, other: Rgba<T>) -> Rgba<T> {
        Rgba {
            data: [
                self.data@[0].mul_spec(other.data@[0]),
                self.data@[1].mul_spec(other.data@[1]),
                self.data@[2].mul_spec(other.data@[2]),
                self.data@[3].mul_spec(other.data@[3]),
            ],
        }
    }
}

/// The product, channel by channel.
impl<T: Copy + Mul<Output = T>> Mul for Rgba<T> {
    type Output = Rgba<T>;

    fn mul(self, other: Rgba<T>) -> (r: Rgba<T>)
        ensures
            is_product(self.data@[0], other.data@[0], r.data@[0]),
            is_product(self.data@[1], other.data@[1], r.data@[1]),
            is_product(self.data@[2], other.data@[2], r.data@[2]),
            is_product(self.data@[3], other.data@[3], r.data@[3]),
    {
        let m = [
            self.data[0] * other.data[0],
            self.data[1] * other.data[1],
            self.data[2] * other.data[2],
            self.data[3] * other.data[3],
        ];
        proof {
            let spec = [
                self.data@[0].mul_spec(other.data@[0]),
                self.data@[1].mul_spec(other.data@[1]),
                self.data@[2].mul_spec(other.data@[2]),
                self.data@[3].mul_spec(other.data@[3]),
            ];
            if T::obeys_mul_spec() {
                assert(m =~= spec);
            }
        }
        Rgba { data: m }
    }
}

impl<T: Copy, U: Primitive + From<T> + Add<Output = U>> vstd::std_specs::ops::AddSpecImpl<U> for Rgba<T> {
    open spec fn obeys_add_spec() -> bool {
        U::obeys_from_spec() && <U as AddSpec>::obeys_add_spec()
    }

    open spec fn add_req(self, other: U) -> bool {
        &&& forall|v: U| #[trigger] is_lifted(self.data@[0], v) ==> can_add(v, other)
        &&& forall|v: U| #[trigger] is_lifted(self.data@[1], v) ==> can_add(v, other)
        &&& forall|v: U| #[trigger] is_lifted(self.data@[2], v) ==> can_add(v, other)
        &&& forall|v: U| #[trigger] is_lifted(self.data@[3], v) ==> can_add(v, other)
    }

    open spec fn add_spec(self, other: U) -> Rgba<U> {
        Rgba {
            data: [
                U::from_spec(self.data@[0]).add_spec(other),
                U::from_spec(self.data@[1]).add_spec(other),
                U::from_spec(self.data@[2]).add_spec(other),
                U::from_spec(self.data@[3]).add_spec(other),
            ],
        }
    }
}

/// Each channel plus `other`, after each channel is converted to the type of `other`.
impl<T: Copy, U: Primitive + From<T> + Add<Output = U>> Add<U> for Rgba<T> {
    type Output = Rgba<U>;

    fn add(self, other: U) -> (r: Rgba<U>)
        ensures
            is_lifted_sum(self.data@[0], other, r.data@[0]),
            is_lifted_sum(self.data@[1], other, r.data@[1]),
            is_lifted_sum(self.data@[2], other, r.data@[2]),
            is_lifted_sum(self.data@[3], other, r.data@[3]),
    {
        let v0 = U::from(self.data[0]);
        let v1 = U::from(self.data[1]);
        let v2 = U::from(self.data[2]);
        let v3 = U::from(self.data[3]);
        proof {
            assert(is_lifted(self.data@[0], v0));
            assert(is_lifted(self.data@[1], v1));
            assert(is_lifted(self.data@[2], v2));
            assert(is_lifted(self.data@[3], v3));
        }
        let m0 = v0 + other;
        let m1 = v1 + other;
        let m2 = v2 + other;
        let m3 = v3 + other;
        let m = [
            m0,
            m1,
            m2,
            m3,
        ];
        proof {
            let spec = [
                U::from_spec(self.data@[0]).add_spec(other),
                U::from_spec(self.data@[1]).add_spec(other),
                U::from_spec(self.data@[2]).add_spec(other),
                U::from_spec(self.data@[3]).add_spec(other),
            ];
            if U::obeys_from_spec() && <U as AddSpec>::obeys_add_spec() {
                assert(m =~= spec);
            }
            assert(is_sum(v0, other, m0));
            assert(is_lifted_sum(self.data@[0], other, m@[0]));
            assert(is_sum(v1, other, m1));
            assert(is_lifted_sum(self.data@[1], other, m@[1]));
            assert(is_sum(v2, other, m2));
            assert(is_lifted_sum(self.data@[2], other, m@[2]));
            assert(is_sum(v3, other, m3));
            assert(is_lifted_sum(self.data@[3], other, m@[3]));
        }
        Rgba { data: m }
    }
}

impl<T: Copy, U: Primitive + From<T> + Sub<Output = U>> vstd::std_specs::ops::SubSpecImpl<U> for Rgba<T> {
    open spec fn obeys_sub_spec() -> bool {
        U::obeys_from_spec() && <U as SubSpec>::obeys_sub_spec()
    }

    open spec fn sub_req(self, other: U) -> bool {
        &&& forall|v: U| #[trigger] is_lifted(self.data@[0], v) ==> can_subtract(v, other)
        &&& forall|v: U| #[trigger] is_lifted(self.data@[1], v) ==> can_subtract(v, other)
        &&& forall|v: U| #[trigger] is_lifted(self.data@[2], v) ==> can_subtract(v, other)
        &&& forall|v: U| #[trigger] is_lifted(self.data@[3], v) ==> can_subtract(v, other)
    }

    open spec fn sub_spec(self, other: U) -> Rgba<U> {
        Rgba {
            data: [
                U::from_spec(self.data@[0]).sub_spec(other),
                U::from_spec(self.data@[1]).sub_spec(other),
                U::from_spec(self.data@[2]).sub_spec(other),
                U::from_spec(self.data@[3]).sub_spec(other),
            ],
        }
    }
}

/// Each channel minus `other`, after each channel is converted to the type of `other`.
impl<T: Copy, U: Primitive + From<T> + Sub<Output = U>> Sub<U> for Rgba<T> {
    type Output = Rgba<U>;

    fn sub(self, other: U) -> (r: Rgba<U>)
        ensures
            is_lifted_difference(self.data@[0], other, r.data@[0]),
            is_lifted_difference(self.data@[1], other, r.data@[1]),
            is_lifted_difference(self.data@[2], other, r.data@[2]),
            is_lifted_difference(self.data@[3], other, r.data@[3]),
    {
        let v0 = U::from(self.data[0]);
        let v1 = U::from(self.data[1]);
        let v2 = U::from(self.data[2]);
        let v3 = U::from(self.data[3]);
        proof {
            assert(is_lifted(self.data@[0], v0));
            assert(is_lifted(self.data@[1], v1));
            assert(is_lifted(self.data@[2], v2));
            assert(is_lifted(self.data@[3], v3));
        }
        let m0 = v0 - other;
        let m1 = v1 - other;
        let m2 = v2 - other;
        let m3 = v3 - other;
        let m = [
            m0,
            m1,
            m2,
            m3,
        ];
        proof {
            let spec = [
                U::from_spec(self.data@[0]).sub_spec(other),
                U::from_spec(self.data@[1]).sub_spec(other),
                U::from_spec(self.data@[2]).sub_spec(other),
                U::from_spec(self.data@[3]).sub_spec(other),
            ];
            if U::obeys_from_spec() && <U as SubSpec>::obeys_sub_spec() {
                assert(m =~= spec);
            }
            assert(is_difference(v0, other, m0));
            assert(is_lifted_difference(self.data@[0], other, m@[0]));
            assert(is_difference(v1, other, m1));
            assert(is_lifted_difference(self.data@[1], other, m@[1]));
            assert(is_difference(v2, other, m2));
            assert(is_lifted_difference(self.data@[2], other, m@[2]));
            assert(is_difference(v3, other, m3));
            assert(is_lifted_difference(self.data@[3], other, m@[3]));
        }
        Rgba { data: m }
    }
}

impl<T: Copy, U: Primitive + From<T> + Mul<Output = U>> vstd::std_specs::ops::MulSpecImpl<U> for Rgba<T> {
    open spec fn obeys_mul_spec() -> bool {
        U::obeys_from_spec() && <U as MulSpec>::obeys_mul_spec()
    }

    open spec fn mul_req(self, other: U) -> bool {
        &&& forall|v: U| #[trigger] is_lifted(self.data@[0], v) ==> can_multiply(v, other)
        &&& forall|v: U| #[trigger] is_lifted(self.data@[1], v) ==> can_multiply(v, other)
        &&& forall|v: U| #[trigger] is_lifted(self.data@[2], v) ==> can_multiply(v, other)
        &&& forall|v: U| #[trigger] is_lifted(self.data@[3], v) ==> can_multiply(v, other)
    }

    open spec fn mul_spec(self, other: U) -> Rgba<U> {
        Rgba {
            data: [
                U::from_spec(self.data@[0]).mul_spec(other),
                U::from_spec(self.data@[1]).mul_spec(other),
                U::from_spec(self.data@[2]).mul_spec(other),
                U::from_spec(self.data@[3]).mul_spec(other),
            ],
        }
    }
}

/// Each channel times `other`, after each channel is converted to the type of `other`.
impl<T: Copy, U: Primitive + From<T> + Mul<Output = U>> Mul<U> for Rgba<T> {
    type Output = Rgba<U>;

    fn mul(self, other: U) -> (r: Rgba<U>)
        ensures
            is_lifted_product(self.data@[0], other, r.data@[0]),
            is_lifted_product(self.data@[1], other, r.data@[1]),
            is_lifted_product(self.data@[2], other, r.data@[2]),
            is_lifted_product(self.data@[3], other, r.data@[3]),
    {
        let v0 = U::from(self.data[0]);
        let v1 = U::from(self.data[1]);
        let v2 = U::from(self.data[2]);
        let v3 = U::from(self.data[3]);
        proof {
            assert(is_lifted(self.data@[0], v0));
            assert(is_lifted(self.data@[1], v1));
            assert(is_lifted(self.data@[2], v2));
            assert(is_lifted(self.data@[3], v3));
        }
        let m0 = v0 * other;
        let m1 = v1 * other;
        let m2 = v2 * other;
        let m3 = v3 * other;
        let m = [
            m0,
            m1,
            m2,
            m3,
        ];
        proof {
            let spec = [
                U::from_spec(self.data@[0]).mul_spec(other),
                U::from_spec(self.data@[1]).mul_spec(other),
                U::from_spec(self.data@[2]).mul_spec(other),
                U::from_spec(self.data@[3]).mul_spec(other),
            ];
            if U::obeys_from_spec() && <U as MulSpec>::obeys_mul_spec() {
                assert(m =~= spec);
            }
            assert(is_product(v0, other, m0));
            assert(is_lifted_product(self.data@[0], other, m@[0]));
            assert(is_product(v1, other, m1));
            assert(is_lifted_product(self.data@[1], other, m@[1]));
            assert(is_product(v2, other, m2));
            assert(is_lifted_product(self.data@[2], other, m@[2]));
            assert(is_product(v3, other, m3));
            assert(is_lifted_product(self.data@[3], other, m@[3]));
        }
        Rgba { data: m }
    }
}

impl<T: Primitive> Rgba<T> {
    /// The sum, channel by channel, where a channel that would leave the
    /// range of `T` stops at the bound.
    pub fn saturating_add(self, other: Rgba<T>) -> (r: Rgba<T>)
        ensures
            forall|c: int|
                0 <= c < 4 ==> (#[trigger] r.data@[c]).to_int() == clamp_int(
                    self.data@[c].to_int() + other.data@[c].to_int(),
                    T::min_int(),
                    T::max_int(),
                ),
    {
        Rgba {
            data: [
                self.data[0].saturating_add(other.data[0]),
                self.data[1].saturating_add(other.data[1]),
                self.data[2].saturating_add(other.data[2]),
                self.data[3].saturating_add(other.data[3]),
            ],
        }
    }

    /// The difference, channel by channel, where a channel that would leave
    /// the range of `T` stops at the bound.
    pub fn saturating_sub(self, other: Rgba<T>) -> (r: Rgba<T>)
        ensures
            forall|c: int|
                0 <= c < 4 ==> (#[trigger] r.data@[c]).to_int() == clamp_int(
                    self.data@[c].to_int() - other.data@[c].to_int(),
                    T::min_int(),
                    T::max_int(),
                ),
    {
        Rgba {
            data: [
                self.data[0].saturating_sub(other.data[0]),
                self.data[1].saturating_sub(other.data[1]),
                self.data[2].saturating_sub(other.data[2]),
                self.data[3].saturating_sub(other.data[3]),
            ],
        }
    }
}

} // verus!
