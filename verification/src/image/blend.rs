//! Pixels between pixels: weighted means of two and of four pixels.
//!
//! The means are made in a number type `F` with the operators of `F`, and
//! stated as what these operators give step by step.
use vstd::prelude::*;
use std::ops::{Add, Mul, Sub};
use crate::image::pixel::Pixel;
use crate::math::arith::{
    can_add, can_multiply, can_subtract, is_difference, is_lifted, is_one, is_product, is_sum,
};

verus! {

/// Whether `s` is `x` and `y` mixed: the sum of `x` times the share `alpha`
/// and `y` times the rest, which is one minus `alpha`.
pub open spec fn is_mix<F>(x: F, y: F, alpha: F, s: F) -> bool where
    F: From<u8> + Add<Output = F> + Sub<Output = F> + Mul<Output = F>,
 {
    exists|one: F, rest: F, p: F, q: F|
        #![trigger is_difference(one, alpha, rest), is_sum(p, q, s)]
        {
            &&& is_one(one)
            &&& is_difference(one, alpha, rest)
            &&& is_product(x, alpha, p)
            &&& is_product(y, rest, q)
            &&& is_sum(p, q, s)
        }
}

/// Whether the difference, the products and the sum of a mix can be
/// computed, whatever the steps before have given.
pub open spec fn mix_ok<F>(x: F, y: F, alpha: F) -> bool where
    F: From<u8> + Add<Output = F> + Sub<Output = F> + Mul<Output = F>,
 {
    &&& can_multiply(x, alpha)
    &&& forall|one: F| #[trigger] is_one(one) ==> can_subtract(one, alpha)
    &&& forall|one: F, rest: F|
        is_one(one) && #[trigger] is_difference(one, alpha, rest) ==> can_multiply(y, rest)
    &&& forall|one: F, rest: F, p: F, q: F|
        #![trigger is_difference(one, alpha, rest), is_product(x, alpha, p), is_product(y, rest, q)]
        is_one(one) && is_difference(one, alpha, rest) && is_product(x, alpha, p) && is_product(
            y,
            rest,
            q,
        ) ==> can_add(p, q)
}

/// `x` with the share `alpha` and `y` with the rest.
fn mix<F>(x: F, y: F, alpha: F, one: F) -> (s: F) where
    F: Copy + From<u8> + Add<Output = F> + Sub<Output = F> + Mul<Output = F>,

    requires
        is_one(one),
        mix_ok(x, y, alpha),
    ensures
        is_mix(x, y, alpha, s),
{
    let p = x * alpha;
    let rest = one - alpha;
    proof {
        assert(is_difference(one, alpha, rest));
    }
    let q = y * rest;
    proof {
        assert(is_product(x, alpha, p));
        assert(is_product(y, rest, q));
    }
    let s = p + q;
    proof {
        assert(is_sum(p, q, s));
    }
    s
}

/// Whether the subpixel `v` is channel `c` of the pixel between `a` and `b`:
/// what `lower` makes of the two channels mixed.
pub open spec fn is_blend_channel<P: Pixel, F, L: Fn(F) -> P::Subpixel>(
    v: P::Subpixel,
    a: P,
    b: P,
    alpha: F,
    lower: L,
    c: int,
) -> bool where
    F: From<u8> + From<P::Subpixel> + Add<Output = F> + Sub<Output = F> + Mul<Output = F>,
 {
    exists|x: F, y: F, s: F|
        #![trigger is_mix(x, y, alpha, s)]
        {
            &&& is_lifted(a.spec_raw()[c], x)
            &&& is_lifted(b.spec_raw()[c], y)
            &&& is_mix(x, y, alpha, s)
            &&& call_ensures(lower, (s,), v)
        }
}

/// Whether `r` is the pixel between `a` and `b`: each channel is what
/// `lower` makes of the channel of `a` with the share `alpha` and the
/// channel of `b` with the rest.
pub open spec fn is_blend<P: Pixel, F, L: Fn(F) -> P::Subpixel>(
    r: P,
    a: P,
    b: P,
    alpha: F,
    lower: L,
) -> bool where
    F: From<u8> + From<P::Subpixel> + Add<Output = F> + Sub<Output = F> + Mul<Output = F>,
 {
    forall|c: int|
        0 <= c < P::spec_channels() ==> is_blend_channel(
            #[trigger] r.spec_raw()[c],
            a,
            b,
            alpha,
            lower,
            c,
        )
}

/// Whether every channel of the pixel between `a` and `b` can be computed.
pub open spec fn blend_ok<P: Pixel, F>(a: P, b: P, alpha: F) -> bool where
    F: From<u8> + From<P::Subpixel> + Add<Output = F> + Sub<Output = F> + Mul<Output = F>,
 {
    forall|c: int, x: F, y: F|
        #![trigger is_lifted(a.spec_raw()[c], x), is_lifted(b.spec_raw()[c], y)]
        0 <= c < P::spec_channels() && is_lifted(a.spec_raw()[c], x) && is_lifted(
            b.spec_raw()[c],
            y,
        ) ==> mix_ok(x, y, alpha)
}

/// The pixel between two pixels: each channel is the channel of `a` with
/// the share `alpha` and the channel of `b` with the rest, made in `F` and
/// then turned into a subpixel by `lower`.
pub fn blend<P, F, L>(a: P, b: P, alpha: F, lower: &L) -> (r: P) where
    P: Pixel,
    F: Copy + From<u8> + From<P::Subpixel> + Add<Output = F> + Sub<Output = F> + Mul<Output = F>,
    L: Fn(F) -> P::Subpixel,

    requires
        forall|v: F| call_requires(*lower, (v,)),
        blend_ok(a, b, alpha),
    ensures
        is_blend(r, a, b, alpha, *lower),
{
    proof {
        P::lemma_kind();
        a.lemma_raw_len();
        b.lemma_raw_len();
    }
    let one = <F as From<u8>>::from(1u8);
    let channels = P::channels() as usize;
    let ra = a.raw();
    let rb = b.raw();
    let mut px: [P::Subpixel; 4] = [ra[0];4];
    for c in 0..channels
        invariant
            channels == P::spec_channels(),
            1 <= channels <= 4,
            ra@ == a.spec_raw(),
            rb@ == b.spec_raw(),
            ra@.len() == channels,
            rb@.len() == channels,
            is_one(one),
            forall|v: F| call_requires(*lower, (v,)),
            blend_ok(a, b, alpha),
            forall|d: int|
                0 <= d < c ==> is_blend_channel(#[trigger] px@[d], a, b, alpha, *lower, d),
    {
        let x = <F as From<P::Subpixel>>::from(ra[c]);
        let y = <F as From<P::Subpixel>>::from(rb[c]);
        proof {
            assert(is_lifted(a.spec_raw()[c as int], x));
            assert(is_lifted(b.spec_raw()[c as int], y));
        }
        let s = mix(x, y, alpha, one);
        let v = lower(s);
        px[c] = v;
        proof {
            assert(is_blend_channel(v, a, b, alpha, *lower, c as int));
        }
    }
    let r = P::from_raw(vstd::slice::slice_subrange(px.as_slice(), 0, channels));
    proof {
        P::lemma_from_raw(px@.subrange(0, channels as int));
        assert forall|d: int| 0 <= d < channels implies r.spec_raw()[d] == px@[d] by {}
    }
    r
}

/// Whether `shares` are the four shares of a mix over a square, for the
/// shares `u` and `v` of the first column and the first row: `u v`,
/// `(1 - u) v`, `u (1 - v)` and `(1 - u) (1 - v)`.
pub open spec fn is_shares<F>(u: F, v: F, shares: Seq<F>) -> bool where
    F: From<u8> + Sub<Output = F> + Mul<Output = F>,
 {
    exists|one: F, ru: F, rv: F, su: F, sv: F|
        #![trigger is_difference(one, u, ru), is_difference(one, v, rv), is_difference(one, u, su), is_difference(one, v, sv)]
        {
            &&& shares.len() == 4
            &&& is_one(one)
            &&& is_product(u, v, shares[0])
            &&& is_difference(one, u, ru)
            &&& is_product(ru, v, shares[1])
            &&& is_difference(one, v, rv)
            &&& is_product(u, rv, shares[2])
            &&& is_difference(one, u, su)
            &&& is_difference(one, v, sv)
            &&& is_product(su, sv, shares[3])
        }
}

/// Whether the differences and products of the four shares can be computed.
pub open spec fn shares_ok<F>(u: F, v: F) -> bool where
    F: From<u8> + Sub<Output = F> + Mul<Output = F>,
 {
    &&& can_multiply(u, v)
    &&& forall|one: F| #[trigger] is_one(one) ==> can_subtract(one, u) && can_subtract(one, v)
    &&& forall|one: F, ru: F|
        is_one(one) && #[trigger] is_difference(one, u, ru) ==> can_multiply(ru, v)
    &&& forall|one: F, rv: F|
        is_one(one) && #[trigger] is_difference(one, v, rv) ==> can_multiply(u, rv)
    &&& forall|one: F, ru: F, rv: F|
        #![trigger is_difference(one, u, ru), is_difference(one, v, rv)]
        is_one(one) && is_difference(one, u, ru) && is_difference(one, v, rv) ==> can_multiply(
            ru,
            rv,
        )
}

/// The four shares of a mix over a square.
fn shares_of<F>(u: F, v: F, one: F) -> (shares: [F; 4]) where
    F: Copy + From<u8> + Sub<Output = F> + Mul<Output = F>,

    requires
        is_one(one),
        shares_ok(u, v),
    ensures
        is_shares(u, v, shares@),
{
    let a0 = u * v;
    let ru = one - u;
    proof {
        assert(is_difference(one, u, ru));
    }
    let a1 = ru * v;
    let rv = one - v;
    proof {
        assert(is_difference(one, v, rv));
    }
    let a2 = u * rv;
    let su = one - u;
    let sv = one - v;
    proof {
        assert(is_difference(one, u, su));
        assert(is_difference(one, v, sv));
    }
    let a3 = su * sv;
    let shares = [a0, a1, a2, a3];
    proof {
        assert(is_product(u, v, shares@[0]));
        assert(is_product(ru, v, shares@[1]));
        assert(is_product(u, rv, shares@[2]));
        assert(is_product(su, sv, shares@[3]));
    }
    shares
}

/// Whether `s` is four values, each times its share, added up from the
/// left.
pub open spec fn is_mix4<F>(x: Seq<F>, shares: Seq<F>, s: F) -> bool where
    F: Add<Output = F> + Mul<Output = F>,
 {
    exists|p0: F, p1: F, p2: F, p3: F, s1: F, s2: F|
        #![trigger is_sum(p0, p1, s1), is_sum(s1, p2, s2), is_sum(s2, p3, s)]
        {
            &&& is_product(x[0], shares[0], p0)
            &&& is_product(x[1], shares[1], p1)
            &&& is_product(x[2], shares[2], p2)
            &&& is_product(x[3], shares[3], p3)
            &&& is_sum(p0, p1, s1)
            &&& is_sum(s1, p2, s2)
            &&& is_sum(s2, p3, s)
        }
}

/// Whether the products and sums of `is_mix4` can be computed, whatever the
/// steps before have given.
pub open spec fn mix4_ok<F>(x: Seq<F>, shares: Seq<F>) -> bool where
    F: Add<Output = F> + Mul<Output = F>,
 {
    &&& can_multiply(x[0], shares[0])
    &&& can_multiply(x[1], shares[1])
    &&& can_multiply(x[2], shares[2])
    &&& can_multiply(x[3], shares[3])
    &&& forall|p0: F, p1: F|
        #![trigger is_product(x[0], shares[0], p0), is_product(x[1], shares[1], p1)]
        is_product(x[0], shares[0], p0) && is_product(x[1], shares[1], p1) ==> can_add(p0, p1)
    &&& forall|p0: F, p1: F, p2: F, s1: F|
        #![trigger is_sum(p0, p1, s1), is_product(x[2], shares[2], p2)]
        is_product(x[0], shares[0], p0) && is_product(x[1], shares[1], p1) && is_product(
            x[2],
            shares[2],
            p2,
        ) && is_sum(p0, p1, s1) ==> can_add(s1, p2)
    &&& forall|p0: F, p1: F, p2: F, p3: F, s1: F, s2: F|
        #![trigger is_sum(p0, p1, s1), is_sum(s1, p2, s2), is_product(x[3], shares[3], p3)]
        is_product(x[0], shares[0], p0) && is_product(x[1], shares[1], p1) && is_product(
            x[2],
            shares[2],
            p2,
        ) && is_product(x[3], shares[3], p3) && is_sum(p0, p1, s1) && is_sum(s1, p2, s2)
            ==> can_add(s2, p3)
}

/// Four values, each times its share, added up from the left.
fn mix4<F>(x: [F; 4], shares: [F; 4]) -> (s: F) where
    F: Copy + Add<Output = F> + Mul<Output = F>,

    requires
        mix4_ok(x@, shares@),
    ensures
        is_mix4(x@, shares@, s),
{
    let p0 = x[0] * shares[0];
    let p1 = x[1] * shares[1];
    proof {
        assert(is_product(x@[0], shares@[0], p0));
        assert(is_product(x@[1], shares@[1], p1));
    }
    let s1 = p0 + p1;
    let p2 = x[2] * shares[2];
    proof {
        assert(is_sum(p0, p1, s1));
        assert(is_product(x@[2], shares@[2], p2));
    }
    let s2 = s1 + p2;
    let p3 = x[3] * shares[3];
    proof {
        assert(is_sum(s1, p2, s2));
        assert(is_product(x@[3], shares@[3], p3));
    }
    let s = s2 + p3;
    proof {
        assert(is_sum(s2, p3, s));
    }
    s
}

/// Whether `x` holds channel `ch` of the four pixels as values of `F`.
pub open spec fn is_corners<P: Pixel, F: From<P::Subpixel>>(
    x: Seq<F>,
    a: P,
    b: P,
    c: P,
    d: P,
    ch: int,
) -> bool {
    &&& x.len() == 4
    &&& is_lifted(a.spec_raw()[ch], x[0])
    &&& is_lifted(b.spec_raw()[ch], x[1])
    &&& is_lifted(c.spec_raw()[ch], x[2])
    &&& is_lifted(d.spec_raw()[ch], x[3])
}

/// Whether the subpixel `w` is channel `ch` of the pixel between four
/// pixels, for the given shares: what `lower` makes of the four channels,
/// each times its share.
pub open spec fn is_blend4_channel<P: Pixel, F, L: Fn(F) -> P::Subpixel>(
    w: P::Subpixel,
    a: P,
    b: P,
    c: P,
    d: P,
    shares: Seq<F>,
    lower: L,
    ch: int,
) -> bool where F: From<P::Subpixel> + Add<Output = F> + Mul<Output = F> {
    exists|x: Seq<F>, s: F|
        #![trigger is_mix4(x, shares, s)]
        is_corners(x, a, b, c, d, ch) && is_mix4(x, shares, s) && call_ensures(lower, (s,), w)
}

/// Whether `r` is the pixel between the four pixels `a`, `b`, `c` and `d`
/// at the corners of a square, with `u` the share of the left column and
/// `v` the share of the top row: each channel is what `lower` makes of the
/// four channels times their shares.
pub open spec fn is_blend4<P: Pixel, F, L: Fn(F) -> P::Subpixel>(
    r: P,
    a: P,
    b: P,
    c: P,
    d: P,
    u: F,
    v: F,
    lower: L,
) -> bool where
    F: From<u8> + From<P::Subpixel> + Add<Output = F> + Sub<Output = F> + Mul<Output = F>,
 {
    exists|shares: Seq<F>|
        {
            &&& #[trigger] is_shares(u, v, shares)
            &&& forall|ch: int|
                0 <= ch < P::spec_channels() ==> is_blend4_channel(
                    #[trigger] r.spec_raw()[ch],
                    a,
                    b,
                    c,
                    d,
                    shares,
                    lower,
                    ch,
                )
        }
}

/// Whether the shares and every channel of the pixel between four pixels
/// can be computed.
pub open spec fn blend4_ok<P: Pixel, F>(a: P, b: P, c: P, d: P, u: F, v: F) -> bool where
    F: From<u8> + From<P::Subpixel> + Add<Output = F> + Sub<Output = F> + Mul<Output = F>,
 {
    &&& shares_ok(u, v)
    &&& forall|shares: Seq<F>, x: Seq<F>, ch: int|
        #![trigger is_shares(u, v, shares), is_corners(x, a, b, c, d, ch)]
        0 <= ch < P::spec_channels() && is_shares(u, v, shares) && is_corners(x, a, b, c, d, ch)
            ==> mix4_ok(x, shares)
}

/// The pixel between four pixels at the corners of a square: `a` at the top
/// left, `b` at the top right, `c` at the bottom left and `d` at the bottom
/// right. With `u` the share of the left column and `v` the share of the
/// top row, each channel is the sum of the four channels times the shares
/// `u v`, `(1 - u) v`, `u (1 - v)` and `(1 - u) (1 - v)`, made in `F` and
/// then turned into a subpixel by `lower`.
pub fn blend4<P, F, L>(a: P, b: P, c: P, d: P, u: F, v: F, lower: &L) -> (r: P) where
    P: Pixel,
    F: Copy + From<u8> + From<P::Subpixel> + Add<Output = F> + Sub<Output = F> + Mul<Output = F>,
    L: Fn(F) -> P::Subpixel,

    requires
        forall|x: F| call_requires(*lower, (x,)),
        blend4_ok(a, b, c, d, u, v),
    ensures
        is_blend4(r, a, b, c, d, u, v, *lower),
{
    proof {
        P::lemma_kind();
        a.lemma_raw_len();
        b.lemma_raw_len();
        c.lemma_raw_len();
        d.lemma_raw_len();
    }
    let one = <F as From<u8>>::from(1u8);
    let shares = shares_of(u, v, one);
    let channels = P::channels() as usize;
    let ra = a.raw();
    let rb = b.raw();
    let rc = c.raw();
    let rd = d.raw();
    let mut px: [P::Subpixel; 4] = [ra[0];4];
    for ch in 0..channels
        invariant
            channels == P::spec_channels(),
            1 <= channels <= 4,
            ra@ == a.spec_raw(),
            rb@ == b.spec_raw(),
            rc@ == c.spec_raw(),
            rd@ == d.spec_raw(),
            ra@.len() == channels,
            rb@.len() == channels,
            rc@.len() == channels,
            rd@.len() == channels,
            is_shares(u, v, shares@),
            forall|x: F| call_requires(*lower, (x,)),
            blend4_ok(a, b, c, d, u, v),
            forall|k: int|
                0 <= k < ch ==> is_blend4_channel(
                    #[trigger] px@[k],
                    a,
                    b,
                    c,
                    d,
                    shares@,
                    *lower,
                    k,
                ),
    {
        let x = [
            <F as From<P::Subpixel>>::from(ra[ch]),
            <F as From<P::Subpixel>>::from(rb[ch]),
            <F as From<P::Subpixel>>::from(rc[ch]),
            <F as From<P::Subpixel>>::from(rd[ch]),
        ];
        proof {
            assert(is_corners(x@, a, b, c, d, ch as int));
        }
        let s = mix4(x, shares);
        let w = lower(s);
        px[ch] = w;
        proof {
            assert(is_blend4_channel(w, a, b, c, d, shares@, *lower, ch as int));
        }
    }
    let r = P::from_raw(vstd::slice::slice_subrange(px.as_slice(), 0, channels));
    proof {
        P::lemma_from_raw(px@.subrange(0, channels as int));
        assert forall|k: int| 0 <= k < channels implies r.spec_raw()[k] == px@[k] by {}
    }
    r
}

/// In whole numbers, a mix is `x alpha + y (1 - alpha)`, for a share that is
/// nothing or all and a sum that fits in 32 bits.
pub proof fn lemma_mix_whole(x: u32, y: u32, alpha: u32, s: u32)
    requires
        alpha <= 1,
        is_mix(x, y, alpha, s),
    ensures
        s == x * alpha + y * (1 - alpha),
{
    let (one, rest, p, q) = choose|one: u32, rest: u32, p: u32, q: u32|
        #![trigger is_difference(one, alpha, rest), is_sum(p, q, s)]
        {
            &&& is_one(one)
            &&& is_difference(one, alpha, rest)
            &&& is_product(x, alpha, p)
            &&& is_product(y, rest, q)
            &&& is_sum(p, q, s)
        };
    assert(one == 1 && rest == 1 - alpha);
    if alpha == 0 {
        assert(x * alpha == 0 && y * (1 - alpha) == y) by (nonlinear_arith)
            requires
                alpha == 0,
        ;
    } else {
        assert(x * alpha == x && y * (1 - alpha) == 0) by (nonlinear_arith)
            requires
                alpha == 1,
        ;
    }
}

/// In whole numbers, the four shares are `u v`, `(1 - u) v`, `u (1 - v)` and
/// `(1 - u) (1 - v)`, for shares of the column and the row that are nothing
/// or all.
pub proof fn lemma_shares_whole(u: u32, v: u32, shares: Seq<u32>)
    requires
        u <= 1,
        v <= 1,
        is_shares(u, v, shares),
    ensures
        shares =~= seq![
            (u * v) as u32,
            ((1 - u) * v) as u32,
            (u * (1 - v)) as u32,
            ((1 - u) * (1 - v)) as u32,
        ],
{
    let (one, ru, rv, su, sv) = choose|one: u32, ru: u32, rv: u32, su: u32, sv: u32|
        #![trigger is_difference(one, u, ru), is_difference(one, v, rv), is_difference(one, u, su), is_difference(one, v, sv)]
        {
            &&& shares.len() == 4
            &&& is_one(one)
            &&& is_product(u, v, shares[0])
            &&& is_difference(one, u, ru)
            &&& is_product(ru, v, shares[1])
            &&& is_difference(one, v, rv)
            &&& is_product(u, rv, shares[2])
            &&& is_difference(one, u, su)
            &&& is_difference(one, v, sv)
            &&& is_product(su, sv, shares[3])
        };
    assert(one == 1 && ru == 1 - u && rv == 1 - v && su == 1 - u && sv == 1 - v);
    assert(0 <= u * v <= 1 && 0 <= (1 - u) * v <= 1 && 0 <= u * (1 - v) <= 1 && 0 <= (1 - u) * (1
        - v) <= 1) by (nonlinear_arith)
        requires
            0 <= u <= 1,
            0 <= v <= 1,
    ;
}

/// In whole numbers that fit in 32 bits, four values with their shares are
/// the sum of the four products.
pub proof fn lemma_mix4_whole(x: Seq<u32>, shares: Seq<u32>, s: u32)
    requires
        x[0] * shares[0] + x[1] * shares[1] + x[2] * shares[2] + x[3] * shares[3] <= u32::MAX,
        is_mix4(x, shares, s),
    ensures
        s == x[0] * shares[0] + x[1] * shares[1] + x[2] * shares[2] + x[3] * shares[3],
{
    assert(0 <= x[0] * shares[0] && 0 <= x[1] * shares[1] && 0 <= x[2] * shares[2] && 0 <= x[3]
        * shares[3]) by (nonlinear_arith)
        requires
            0 <= x[0],
            0 <= x[1],
            0 <= x[2],
            0 <= x[3],
            0 <= shares[0],
            0 <= shares[1],
            0 <= shares[2],
            0 <= shares[3],
    ;
}

} // verus!
