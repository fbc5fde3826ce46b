//! The least and the greatest value of each channel of a picture.
use vstd::prelude::*;
use vstd::arithmetic::div_mod::lemma_fundamental_div_mod_converse;
use vstd::std_specs::cmp::PartialOrdSpec;
use vstd::std_specs::cmp::PartialOrdIs;
use crate::image::{Image, ImageView, Pixel, MAX_CHANNEL_COUNT};
use crate::traits::{Primitive, lemma_named_values, spec_max_value, spec_min_value};

verus! {

/// Whether `m` is the least value of channel `c` in the picture: no pixel
/// has a smaller one, and some pixel has this one. Of a picture without
/// pixels, or of a channel that its pixel kind has not, it is the greatest
/// value of the subpixel type.
pub open spec fn is_channel_min<T: Pixel>(src: ImageView<T>, c: int, m: T::Subpixel) -> bool where
    T::Subpixel: Primitive,
 {
    if 0 <= c < T::spec_channels() && src.width > 0 && src.height > 0 {
        &&& forall|x: int, y: int|
            0 <= x < src.width && 0 <= y < src.height ==> m.to_int() <= (#[trigger] src.pixel(
                x,
                y,
            )).spec_raw()[c].to_int()
        &&& exists|x: int, y: int|
            0 <= x < src.width && 0 <= y < src.height && m == (#[trigger] src.pixel(
                x,
                y,
            )).spec_raw()[c]
    } else {
        m == spec_max_value::<T::Subpixel>()
    }
}

/// Whether `m` is the greatest value of channel `c` in the picture: no pixel
/// has a greater one, and some pixel has this one. Of a picture without
/// pixels, or of a channel that its pixel kind has not, it is the least
/// value of the subpixel type.
pub open spec fn is_channel_max<T: Pixel>(src: ImageView<T>, c: int, m: T::Subpixel) -> bool where
    T::Subpixel: Primitive,
 {
    if 0 <= c < T::spec_channels() && src.width > 0 && src.height > 0 {
        &&& forall|x: int, y: int|
            0 <= x < src.width && 0 <= y < src.height ==> m.to_int() >= (#[trigger] src.pixel(
                x,
                y,
            )).spec_raw()[c].to_int()
        &&& exists|x: int, y: int|
            0 <= x < src.width && 0 <= y < src.height && m == (#[trigger] src.pixel(
                x,
                y,
            )).spec_raw()[c]
    } else {
        m == spec_min_value::<T::Subpixel>()
    }
}

/// The pixel at place `k` of a walk over the picture, row after row.
pub open spec fn nth_pixel<T>(src: ImageView<T>, k: int) -> T {
    src.pixel(k % (src.width as int), k / (src.width as int))
}

/// Every pixel of the picture has a place in the walk over it.
proof fn lemma_pixel_is_nth<T>(src: ImageView<T>, x: int, y: int)
    requires
        0 <= x < src.width,
        0 <= y < src.height,
    ensures
        0 <= y * src.width + x < src.width * src.height,
        src.pixel(x, y) == nth_pixel(src, y * src.width + x),
{
    let w = src.width as int;
    let h = src.height as int;
    crate::image::buffer::lemma_row_in_bounds(y, w, h);
    lemma_fundamental_div_mod_converse(y * w + x, w, y, x);
}

/// Every place of the walk over the picture is a pixel of the picture.
proof fn lemma_nth_is_pixel<T>(src: ImageView<T>, k: int)
    requires
        0 <= k < src.width * src.height,
    ensures
        0 <= k % (src.width as int) < src.width,
        0 <= k / (src.width as int) < src.height,
{
    let w = src.width as int;
    let h = src.height as int;
    assert(w != 0) by (nonlinear_arith)
        requires
            0 <= k < w * h,
    ;
    vstd::arithmetic::div_mod::lemma_fundamental_div_mod(k, w);
    vstd::arithmetic::div_mod::lemma_div_pos_is_pos(k, w);
    vstd::arithmetic::div_mod::lemma_mod_bound(k, w);
    let (x, y) = (k % w, k / w);
    assert(y < h) by (nonlinear_arith)
        requires
            k < w * h,
            k == w * y + x,
            0 <= x < w,
    ;
}

/// The pixel whose every channel is the least value of that channel in the
/// picture. A channel that the pixels of `src` have not, or any channel
/// where the picture has no pixel, gets the greatest value of the subpixel
/// type.
pub fn min<T, U>(src: &Image<T>) -> (r: U) where
    T: Pixel,
    U: Pixel<Subpixel = T::Subpixel>,
    T::Subpixel: Primitive,

    requires
        src.wf(),
    ensures
        forall|c: int| 0 <= c < U::spec_channels() ==> is_channel_min(src@, c, #[trigger] r.spec_raw()[c]),
{
    proof {
        T::lemma_kind();
        U::lemma_kind();
    }
    let top = <T::Subpixel as Primitive>::max_value();
    proof {
        lemma_named_values(top);
    }
    let mut t = [top;MAX_CHANNEL_COUNT];
    let channels = T::channels() as usize;
    let ghost w = src@.width as int;
    let ghost h = src@.height as int;
    let ghost mut at: Seq<int> = Seq::new(MAX_CHANNEL_COUNT as nat, |c: int| -1);
    let mut it = src.iter();
    loop
        invariant
            it.wf(),
            it.image() == src,
            src.wf(),
            w == src@.width,
            h == src@.height,
            channels == T::spec_channels(),
            1 <= channels <= 4,
            at.len() == 4,
            it.position() <= w * h,
            top == spec_max_value::<T::Subpixel>(),
            top.to_int() == <T::Subpixel as Primitive>::max_int(),
            forall|c: int| channels <= c < 4 ==> t@[c] == top,
            forall|c: int|
                0 <= c < channels && it.position() == 0 ==> #[trigger] t@[c] == top,
            forall|c: int|
                0 <= c < channels && it.position() > 0 ==> 0 <= #[trigger] at[c] < it.position()
                    && t@[c] == nth_pixel(src@, at[c]).spec_raw()[c],
            forall|c: int, k: int|
                0 <= c < channels && 0 <= k < it.position() ==> t@[c].to_int() <= (
                #[trigger] nth_pixel(src@, k).spec_raw()[c]).to_int(),
        ensures
            it.position() == w * h,
        decreases w * h - it.position(),
    {
        let ghost pos = it.position() as int;
        match it.next() {
            None => {
                break ;
            },
            Some((x, y, p)) => {
                let raw = p.raw();
                proof {
                    p.lemma_raw_len();
                    assert(*p == nth_pixel(src@, pos));
                }
                for c in 0..channels
                    invariant
                        channels == T::spec_channels(),
                        1 <= channels <= 4,
                        raw@ == p.spec_raw(),
                        raw@.len() == channels,
                        at.len() == 4,
                        *p == nth_pixel(src@, pos),
                        pos >= 0,
                        top == spec_max_value::<T::Subpixel>(),
                        top.to_int() == <T::Subpixel as Primitive>::max_int(),
                        forall|d: int| channels <= d < 4 ==> t@[d] == top,
                        forall|d: int| c <= d < channels && pos == 0 ==> #[trigger] t@[d] == top,
                        forall|d: int|
                            c <= d < channels && pos > 0 ==> 0 <= #[trigger] at[d] < pos && t@[d]
                                == nth_pixel(src@, at[d]).spec_raw()[d],
                        forall|d: int|
                            0 <= d < c ==> 0 <= #[trigger] at[d] < pos + 1 && t@[d] == nth_pixel(
                                src@,
                                at[d],
                            ).spec_raw()[d],
                        forall|d: int, k: int|
                            0 <= d < channels && 0 <= k < pos ==> t@[d].to_int() <= (
                            #[trigger] nth_pixel(src@, k).spec_raw()[d]).to_int(),
                        forall|d: int|
                            0 <= d < c ==> (#[trigger] t@[d]).to_int() <= p.spec_raw()[d].to_int(),
                {
                    proof {
                        t@[c as int].lemma_order(raw@[c as int]);
                        top.lemma_bounds();
                        raw@[c as int].lemma_bounds();
                    }
                    if t[c] > raw[c] {
                        t[c] = raw[c];
                        proof {
                            at = at.update(c as int, pos);
                        }
                    } else {
                        proof {
                            if pos == 0 {
                                raw@[c as int].lemma_to_int_injective(top);
                                at = at.update(c as int, pos);
                            }
                        }
                    }
                }
            },
        }
    }
    let r = U::from_raw(t.as_slice());
    proof {
        U::lemma_from_raw(t@);
        assert forall|c: int| 0 <= c < U::spec_channels() implies is_channel_min(
            src@,
            c,
            #[trigger] r.spec_raw()[c],
        ) by {
            assert(r.spec_raw()[c] == t@[c]);
            if 0 <= c < T::spec_channels() && w > 0 && h > 0 {
                assert(0 < w * h) by (nonlinear_arith)
                    requires
                        w > 0,
                        h > 0,
                ;
                let k = at[c];
                lemma_nth_is_pixel(src@, k);
                assert(t@[c] == src@.pixel(k % w, k / w).spec_raw()[c]);
                assert forall|x: int, y: int| 0 <= x < w && 0 <= y < h implies t@[c].to_int() <= (
                #[trigger] src@.pixel(x, y)).spec_raw()[c].to_int() by {
                    lemma_pixel_is_nth(src@, x, y);
                    let j = y * w + x;
                    assert(t@[c].to_int() <= nth_pixel(src@, j).spec_raw()[c].to_int());
                }
            } else if 0 <= c < T::spec_channels() {
                assert(w * h == 0) by (nonlinear_arith)
                    requires
                        w == 0 || h == 0,
                ;
            }
        }
    }
    r
}

/// The pixel whose every channel is the greatest value of that channel in
/// the picture. A channel that the pixels of `src` have not, or any channel
/// where the picture has no pixel, gets the least value of the subpixel
/// type.
pub fn max<T, U>(src: &Image<T>) -> (r: U) where
    T: Pixel,
    U: Pixel<Subpixel = T::Subpixel>,
    T::Subpixel: Primitive,

    requires
        src.wf(),
    ensures
        forall|c: int| 0 <= c < U::spec_channels() ==> is_channel_max(src@, c, #[trigger] r.spec_raw()[c]),
{
    proof {
        T::lemma_kind();
        U::lemma_kind();
    }
    let bottom = <T::Subpixel as Primitive>::min_value();
    proof {
        lemma_named_values(bottom);
    }
    let mut t = [bottom;MAX_CHANNEL_COUNT];
    let channels = T::channels() as usize;
    let ghost w = src@.width as int;
    let ghost h = src@.height as int;
    let ghost mut at: Seq<int> = Seq::new(MAX_CHANNEL_COUNT as nat, |c: int| -1);
    let mut it = src.iter();
    loop
        invariant
            it.wf(),
            it.image() == src,
            src.wf(),
            w == src@.width,
            h == src@.height,
            channels == T::spec_channels(),
            1 <= channels <= 4,
            at.len() == 4,
            it.position() <= w * h,
            bottom == spec_min_value::<T::Subpixel>(),
            bottom.to_int() == <T::Subpixel as Primitive>::min_int(),
            forall|c: int| channels <= c < 4 ==> t@[c] == bottom,
            forall|c: int|
                0 <= c < channels && it.position() == 0 ==> #[trigger] t@[c] == bottom,
            forall|c: int|
                0 <= c < channels && it.position() > 0 ==> 0 <= #[trigger] at[c] < it.position()
                    && t@[c] == nth_pixel(src@, at[c]).spec_raw()[c],
            forall|c: int, k: int|
                0 <= c < channels && 0 <= k < it.position() ==> t@[c].to_int() >= (
                #[trigger] nth_pixel(src@, k).spec_raw()[c]).to_int(),
        ensures
            it.position() == w * h,
        decreases w * h - it.position(),
    {
        let ghost pos = it.position() as int;
        match it.next() {
            None => {
                break ;
            },
            Some((x, y, p)) => {
                let raw = p.raw();
                proof {
                    p.lemma_raw_len();
                    assert(*p == nth_pixel(src@, pos));
                }
                for c in 0..channels
                    invariant
                        channels == T::spec_channels(),
                        1 <= channels <= 4,
                        raw@ == p.spec_raw(),
                        raw@.len() == channels,
                        at.len() == 4,
                        *p == nth_pixel(src@, pos),
                        pos >= 0,
                        bottom == spec_min_value::<T::Subpixel>(),
                        bottom.to_int() == <T::Subpixel as Primitive>::min_int(),
                        forall|d: int| channels <= d < 4 ==> t@[d] == bottom,
                        forall|d: int| c <= d < channels && pos == 0 ==> #[trigger] t@[d] == bottom,
                        forall|d: int|
                            c <= d < channels && pos > 0 ==> 0 <= #[trigger] at[d] < pos && t@[d]
                                == nth_pixel(src@, at[d]).spec_raw()[d],
                        forall|d: int|
                            0 <= d < c ==> 0 <= #[trigger] at[d] < pos + 1 && t@[d] == nth_pixel(
                                src@,
                                at[d],
                            ).spec_raw()[d],
                        forall|d: int, k: int|
                            0 <= d < channels && 0 <= k < pos ==> t@[d].to_int() >= (
                            #[trigger] nth_pixel(src@, k).spec_raw()[d]).to_int(),
                        forall|d: int|
                            0 <= d < c ==> (#[trigger] t@[d]).to_int() >= p.spec_raw()[d].to_int(),
                {
                    proof {
                        t@[c as int].lemma_order(raw@[c as int]);
                        bottom.lemma_bounds();
                        raw@[c as int].lemma_bounds();
                    }
                    if t[c] < raw[c] {
                        t[c] = raw[c];
                        proof {
                            at = at.update(c as int, pos);
                        }
                    } else {
                        proof {
                            if pos == 0 {
                                raw@[c as int].lemma_to_int_injective(bottom);
                                at = at.update(c as int, pos);
                            }
                        }
                    }
                }
            },
        }
    }
    let r = U::from_raw(t.as_slice());
    proof {
        U::lemma_from_raw(t@);
        assert forall|c: int| 0 <= c < U::spec_channels() implies is_channel_max(
            src@,
            c,
            #[trigger] r.spec_raw()[c],
        ) by {
            assert(r.spec_raw()[c] == t@[c]);
            if 0 <= c < T::spec_channels() && w > 0 && h > 0 {
                assert(0 < w * h) by (nonlinear_arith)
                    requires
                        w > 0,
                        h > 0,
                ;
                let k = at[c];
                lemma_nth_is_pixel(src@, k);
                assert(t@[c] == src@.pixel(k % w, k / w).spec_raw()[c]);
                assert forall|x: int, y: int| 0 <= x < w && 0 <= y < h implies t@[c].to_int() >= (
                #[trigger] src@.pixel(x, y)).spec_raw()[c].to_int() by {
                    lemma_pixel_is_nth(src@, x, y);
                    let j = y * w + x;
                    assert(t@[c].to_int() >= nth_pixel(src@, j).spec_raw()[c].to_int());
                }
            } else if 0 <= c < T::spec_channels() {
                assert(w * h == 0) by (nonlinear_arith)
                    requires
                        w == 0 || h == 0,
                ;
            }
        }
    }
    r
}

} // verus!
