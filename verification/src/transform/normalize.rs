//! Spreading the values of a picture over a range.
use vstd::prelude::*;
use std::ops::{Add, Div, Mul, Sub};
use crate::image::{Image, ImageView, Pixel};
use crate::math::arith::{
    can_add, can_divide, can_multiply, can_subtract, is_difference, is_lifted, is_product,
    is_quotient, is_sum, is_zero,
};
use crate::traits::Primitive;
use crate::transform::extrema::{is_channel_max, is_channel_min, max, min};

verus! {

/// The least value of channel `c` in the picture, as `is_channel_min`
/// defines it.
pub open spec fn spec_channel_min<T: Pixel>(src: ImageView<T>, c: int) -> T::Subpixel where
    T::Subpixel: Primitive,
 {
    choose|m: T::Subpixel| is_channel_min(src, c, m)
}

/// The greatest value of channel `c` in the picture, as `is_channel_max`
/// defines it.
pub open spec fn spec_channel_max<T: Pixel>(src: ImageView<T>, c: int) -> T::Subpixel where
    T::Subpixel: Primitive,
 {
    choose|m: T::Subpixel| is_channel_max(src, c, m)
}

/// A channel has one least value.
pub proof fn lemma_channel_min_unique<T: Pixel>(src: ImageView<T>, c: int, m: T::Subpixel) where
    T::Subpixel: Primitive,

    requires
        is_channel_min(src, c, m),
    ensures
        m == spec_channel_min(src, c),
{
    let n = spec_channel_min(src, c);
    assert(is_channel_min(src, c, n));
    if 0 <= c < T::spec_channels() && src.width > 0 && src.height > 0 {
        let (x1, y1) = choose|x: int, y: int|
            0 <= x < src.width && 0 <= y < src.height && m == (#[trigger] src.pixel(
                x,
                y,
            )).spec_raw()[c];
        let (x2, y2) = choose|x: int, y: int|
            0 <= x < src.width && 0 <= y < src.height && n == (#[trigger] src.pixel(
                x,
                y,
            )).spec_raw()[c];
        assert(n.to_int() <= src.pixel(x1, y1).spec_raw()[c].to_int());
        assert(m.to_int() <= src.pixel(x2, y2).spec_raw()[c].to_int());
        m.lemma_to_int_injective(n);
    }
}

/// A channel has one greatest value.
pub proof fn lemma_channel_max_unique<T: Pixel>(src: ImageView<T>, c: int, m: T::Subpixel) where
    T::Subpixel: Primitive,

    requires
        is_channel_max(src, c, m),
    ensures
        m == spec_channel_max(src, c),
{
    let n = spec_channel_max(src, c);
    assert(is_channel_max(src, c, n));
    if 0 <= c < T::spec_channels() && src.width > 0 && src.height > 0 {
        let (x1, y1) = choose|x: int, y: int|
            0 <= x < src.width && 0 <= y < src.height && m == (#[trigger] src.pixel(
                x,
                y,
            )).spec_raw()[c];
        let (x2, y2) = choose|x: int, y: int|
            0 <= x < src.width && 0 <= y < src.height && n == (#[trigger] src.pixel(
                x,
                y,
            )).spec_raw()[c];
        assert(n.to_int() >= src.pixel(x1, y1).spec_raw()[c].to_int());
        assert(m.to_int() >= src.pixel(x2, y2).spec_raw()[c].to_int());
        m.lemma_to_int_injective(n);
    }
}

/// Whether `t` is the value `q` of a range from `lo` to `hi` moved to the
/// range from `alpha` to `beta`: `(q - lo) / (hi - lo) * (beta - alpha) +
/// alpha`, step by step.
pub open spec fn is_stretched<F>(q: F, lo: F, hi: F, alpha: F, beta: F, t: F) -> bool where
    F: Add<Output = F> + Sub<Output = F> + Mul<Output = F> + Div<Output = F>,
 {
    exists|span: F, width: F, offset: F, share: F, scaled: F|
        #![trigger is_quotient(offset, width, share), is_product(share, span, scaled)]
        {
            &&& is_difference(beta, alpha, span)
            &&& is_difference(hi, lo, width)
            &&& is_difference(q, lo, offset)
            &&& is_quotient(offset, width, share)
            &&& is_product(share, span, scaled)
            &&& is_sum(scaled, alpha, t)
        }
}

/// Whether the steps of `is_stretched` can be computed, whatever the steps
/// before have given.
pub open spec fn stretch_ok<F>(q: F, lo: F, hi: F, alpha: F, beta: F) -> bool where
    F: Add<Output = F> + Sub<Output = F> + Mul<Output = F> + Div<Output = F>,
 {
    &&& can_subtract(beta, alpha)
    &&& can_subtract(hi, lo)
    &&& can_subtract(q, lo)
    &&& forall|width: F, offset: F|
        #![trigger is_difference(hi, lo, width), is_difference(q, lo, offset)]
        is_difference(hi, lo, width) && is_difference(q, lo, offset) ==> can_divide(offset, width)
    &&& forall|span: F, width: F, offset: F, share: F|
        #![trigger is_difference(beta, alpha, span), is_quotient(offset, width, share)]
        is_difference(beta, alpha, span) && is_difference(hi, lo, width) && is_difference(
            q,
            lo,
            offset,
        ) && is_quotient(offset, width, share) ==> can_multiply(share, span)
    &&& forall|span: F, width: F, offset: F, share: F, scaled: F|
        #![trigger is_quotient(offset, width, share), is_product(share, span, scaled)]
        is_difference(beta, alpha, span) && is_difference(hi, lo, width) && is_difference(
            q,
            lo,
            offset,
        ) && is_quotient(offset, width, share) && is_product(share, span, scaled) ==> can_add(
            scaled,
            alpha,
        )
}

/// Whether `q`, `lo` and `hi` are channel `c` of the pixel of column `x` and
/// row `y` of the picture, and the least and the greatest value of that
/// channel in the picture, as values of `F`.
pub open spec fn is_sample<U: Pixel, F>(
    src: ImageView<U>,
    x: int,
    y: int,
    c: int,
    q: F,
    lo: F,
    hi: F,
) -> bool where U::Subpixel: Primitive, F: From<U::Subpixel> {
    &&& is_lifted(src.pixel(x, y).spec_raw()[c], q)
    &&& is_lifted(spec_channel_min(src, c), lo)
    &&& is_lifted(spec_channel_max(src, c), hi)
}

/// Whether the subpixel `v` is channel `c` of the pixel of column `x` and
/// row `y` of the normalized picture: what `lower` makes of the channel of
/// `src` moved from the range of that channel in the picture to the range
/// from `alpha` to `beta`.
pub open spec fn is_normalized_channel<U: Pixel, S, F, L: Fn(F) -> S>(
    v: S,
    src: ImageView<U>,
    alpha: F,
    beta: F,
    lower: L,
    x: int,
    y: int,
    c: int,
) -> bool where
    U::Subpixel: Primitive,
    F: From<U::Subpixel> + Add<Output = F> + Sub<Output = F> + Mul<Output = F> + Div<Output = F>,
 {
    exists|q: F, lo: F, hi: F, t: F|
        #![trigger is_sample(src, x, y, c, q, lo, hi), is_stretched(q, lo, hi, alpha, beta, t)]
        {
            &&& is_sample(src, x, y, c, q, lo, hi)
            &&& is_stretched(q, lo, hi, alpha, beta, t)
            &&& call_ensures(lower, (t,), v)
        }
}

/// Whether every channel of every pixel of the normalized picture can be
/// computed.
pub open spec fn normalize_ok<U: Pixel, F>(src: ImageView<U>, alpha: F, beta: F) -> bool where
    U::Subpixel: Primitive,
    F: From<U::Subpixel> + Add<Output = F> + Sub<Output = F> + Mul<Output = F> + Div<Output = F>,
 {
    forall|x: int, y: int, c: int, q: F, lo: F, hi: F|
        0 <= x < src.width && 0 <= y < src.height && 0 <= c < U::spec_channels()
            && #[trigger] is_sample(src, x, y, c, q, lo, hi) ==> stretch_ok(q, lo, hi, alpha, beta)
}

/// Whether `dst` is `src` with every channel moved from the range of that
/// channel in the picture to the range from `alpha` to `beta`, and turned
/// into a subpixel by `lower`. A channel that the pixels of `src` have not
/// is zero.
pub open spec fn is_normalized<U: Pixel, V: Pixel, F, L: Fn(F) -> V::Subpixel>(
    dst: ImageView<V>,
    src: ImageView<U>,
    alpha: F,
    beta: F,
    lower: L,
) -> bool where
    U::Subpixel: Primitive,
    F: From<U::Subpixel> + Add<Output = F> + Sub<Output = F> + Mul<Output = F> + Div<Output = F>,
 {
    forall|x: int, y: int, c: int|
        0 <= x < src.width && 0 <= y < src.height && 0 <= c < V::spec_channels() ==> {
            let v = #[trigger] dst.pixel(x, y).spec_raw()[c];
            if c < U::spec_channels() {
                is_normalized_channel(v, src, alpha, beta, lower, x, y, c)
            } else {
                is_zero(v)
            }
        }
}

/// The value `q` of a range from `lo` to `hi` moved to the range from
/// `alpha` to `beta`.
fn stretch<F>(q: F, lo: F, hi: F, alpha: F, beta: F) -> (t: F) where
    F: Copy + Add<Output = F> + Sub<Output = F> + Mul<Output = F> + Div<Output = F>,

    requires
        stretch_ok(q, lo, hi, alpha, beta),
    ensures
        is_stretched(q, lo, hi, alpha, beta, t),
{
    let span = beta - alpha;
    let width = hi - lo;
    let offset = q - lo;
    proof {
        assert(is_difference(beta, alpha, span));
        assert(is_difference(hi, lo, width));
        assert(is_difference(q, lo, offset));
    }
    let share = offset / width;
    proof {
        assert(is_quotient(offset, width, share));
    }
    let scaled = share * span;
    proof {
        assert(is_product(share, span, scaled));
    }
    let t = scaled + alpha;
    proof {
        assert(is_sum(scaled, alpha, t));
    }
    t
}

/// A new image of the size of `src` in which the values of each channel are
/// spread over the range from `alpha` to `beta`: the least value of the
/// channel in `src` becomes `alpha`, the greatest `beta`, and a value
/// between them keeps its place between them. The arithmetic is made in `F`
/// and its result turned into a subpixel by `lower`.
pub fn normalize<U, V, F, L>(src: &Image<U>, alpha: F, beta: F, lower: L) -> (dst: Image<V>) where
    U: Pixel,
    V: Pixel,
    U::Subpixel: Primitive,
    F: Copy + From<U::Subpixel> + Add<Output = F> + Sub<Output = F> + Mul<Output = F> + Div<
        Output = F,
    >,
    L: Fn(F) -> V::Subpixel,

    requires
        src.wf(),
        U::spec_channels() <= V::spec_channels(),
        forall|v: F| call_requires(lower, (v,)),
        normalize_ok(src@, alpha, beta),
    ensures
        dst.wf(),
        dst@.width == src@.width,
        dst@.height == src@.height,
        dst@.stride == src@.width,
        is_normalized(dst@, src@, alpha, beta, lower),
{
    proof {
        U::lemma_kind();
        V::lemma_kind();
        src.lemma_area_fits();
    }
    let width = src.width();
    let height = src.height();
    let channels = U::channels() as usize;
    let out_channels = V::channels() as usize;
    let min_p: U = min(src);
    let max_p: U = max(src);
    proof {
        min_p.lemma_raw_len();
        max_p.lemma_raw_len();
    }
    let mut mins: [U::Subpixel; 4] = [min_p.raw()[0];4];
    let mut maxs: [U::Subpixel; 4] = [max_p.raw()[0];4];
    for c in 0..channels
        invariant
            channels == U::spec_channels(),
            1 <= channels <= 4,
            min_p.spec_raw().len() == channels,
            max_p.spec_raw().len() == channels,
            forall|d: int|
                0 <= d < channels ==> is_channel_min(src@, d, #[trigger] min_p.spec_raw()[d]),
            forall|d: int|
                0 <= d < channels ==> is_channel_max(src@, d, #[trigger] max_p.spec_raw()[d]),
            forall|d: int| 0 <= d < c ==> #[trigger] mins@[d] == spec_channel_min(src@, d),
            forall|d: int| 0 <= d < c ==> #[trigger] maxs@[d] == spec_channel_max(src@, d),
    {
        proof {
            lemma_channel_min_unique(src@, c as int, min_p.spec_raw()[c as int]);
            lemma_channel_max_unique(src@, c as int, max_p.spec_raw()[c as int]);
        }
        mins[c] = min_p.raw()[c];
        maxs[c] = max_p.raw()[c];
    }
    let mut dst = Image::<V>::new(width, height);
    let unset = V::zero();
    proof {
        unset.lemma_raw_len();
    }
    for y in 0..height
        invariant
            src.wf(),
            dst.wf(),
            width == src@.width,
            height == src@.height,
            channels == U::spec_channels(),
            out_channels == V::spec_channels(),
            1 <= channels <= out_channels <= 4,
            dst@.width == width,
            dst@.height == height,
            dst@.stride == width,
            unset.spec_raw().len() == out_channels,
            forall|d: int| 0 <= d < out_channels ==> is_zero(#[trigger] unset.spec_raw()[d]),
            forall|d: int| 0 <= d < channels ==> #[trigger] mins@[d] == spec_channel_min(src@, d),
            forall|d: int| 0 <= d < channels ==> #[trigger] maxs@[d] == spec_channel_max(src@, d),
            forall|v: F| call_requires(lower, (v,)),
            normalize_ok(src@, alpha, beta),
            forall|i: int, j: int, c: int|
                0 <= i < width && 0 <= j < y && 0 <= c < out_channels ==> {
                    let v = #[trigger] dst@.pixel(i, j).spec_raw()[c];
                    if c < channels {
                        is_normalized_channel(v, src@, alpha, beta, lower, i, j, c)
                    } else {
                        is_zero(v)
                    }
                },
    {
        for x in 0..width
            invariant
                src.wf(),
                dst.wf(),
                y < height,
                width == src@.width,
                height == src@.height,
                channels == U::spec_channels(),
                out_channels == V::spec_channels(),
                1 <= channels <= out_channels <= 4,
                dst@.width == width,
                dst@.height == height,
                dst@.stride == width,
                unset.spec_raw().len() == out_channels,
                forall|d: int| 0 <= d < out_channels ==> is_zero(#[trigger] unset.spec_raw()[d]),
                forall|d: int|
                    0 <= d < channels ==> #[trigger] mins@[d] == spec_channel_min(src@, d),
                forall|d: int|
                    0 <= d < channels ==> #[trigger] maxs@[d] == spec_channel_max(src@, d),
                forall|v: F| call_requires(lower, (v,)),
                normalize_ok(src@, alpha, beta),
                forall|i: int, j: int, c: int|
                    0 <= i < width && 0 <= j < y && 0 <= c < out_channels ==> {
                        let v = #[trigger] dst@.pixel(i, j).spec_raw()[c];
                        if c < channels {
                            is_normalized_channel(v, src@, alpha, beta, lower, i, j, c)
                        } else {
                            is_zero(v)
                        }
                    },
                forall|i: int, c: int|
                    0 <= i < x && 0 <= c < out_channels ==> {
                        let v = #[trigger] dst@.pixel(i, y as int).spec_raw()[c];
                        if c < channels {
                            is_normalized_channel(v, src@, alpha, beta, lower, i, y as int, c)
                        } else {
                            is_zero(v)
                        }
                    },
        {
            let pixel = src.get(x, y);
            let raw = pixel.raw();
            proof {
                pixel.lemma_raw_len();
            }
            let filler = unset.raw();
            let mut px: [V::Subpixel; 4] = [filler[0];4];
            for c in 0..out_channels
                invariant
                    x < width,
                    y < height,
                    width == src@.width,
                    height == src@.height,
                    channels == U::spec_channels(),
                    out_channels == V::spec_channels(),
                    1 <= channels <= out_channels <= 4,
                    pixel == src@.pixel(x as int, y as int),
                    raw@ == pixel.spec_raw(),
                    raw@.len() == channels,
                    filler@ == unset.spec_raw(),
                    filler@.len() == out_channels,
                    forall|d: int|
                        0 <= d < out_channels ==> is_zero(#[trigger] unset.spec_raw()[d]),
                    forall|d: int|
                        0 <= d < channels ==> #[trigger] mins@[d] == spec_channel_min(src@, d),
                    forall|d: int|
                        0 <= d < channels ==> #[trigger] maxs@[d] == spec_channel_max(src@, d),
                    forall|v: F| call_requires(lower, (v,)),
                    normalize_ok(src@, alpha, beta),
                    forall|d: int|
                        0 <= d < c ==> {
                            let v = #[trigger] px@[d];
                            if d < channels {
                                is_normalized_channel(
                                    v,
                                    src@,
                                    alpha,
                                    beta,
                                    lower,
                                    x as int,
                                    y as int,
                                    d,
                                )
                            } else {
                                is_zero(v)
                            }
                        },
            {
                if c < channels {
                    let q = <F as From<U::Subpixel>>::from(raw[c]);
                    let lo = <F as From<U::Subpixel>>::from(mins[c]);
                    let hi = <F as From<U::Subpixel>>::from(maxs[c]);
                    proof {
                        assert(is_sample(src@, x as int, y as int, c as int, q, lo, hi));
                    }
                    let t = stretch(q, lo, hi, alpha, beta);
                    let v = lower(t);
                    px[c] = v;
                    proof {
                        assert(is_normalized_channel(
                            v,
                            src@,
                            alpha,
                            beta,
                            lower,
                            x as int,
                            y as int,
                            c as int,
                        ));
                    }
                } else {
                    px[c] = filler[c];
                }
            }
            let p = V::from_raw(vstd::slice::slice_subrange(px.as_slice(), 0, out_channels));
            proof {
                V::lemma_from_raw(px@.subrange(0, out_channels as int));
                dst@.lemma_with_pixel(x as int, y as int, p);
                assert forall|d: int| 0 <= d < out_channels implies p.spec_raw()[d] == px@[d] by {}
            }
            dst.put(x, y, p);
        }
    }
    dst
}

} // verus!
