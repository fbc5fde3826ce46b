//! Scaling by taking the nearest pixel.
use vstd::prelude::*;
use vstd::arithmetic::div_mod::lemma_fundamental_div_mod_converse;
use crate::image::{Image, ImageView, Pixel};
use crate::traits::clamp_int;

verus! {

/// The quotient of `n` by `d` rounded to the nearest whole number, a half
/// away from zero, for `n` not negative and `d` positive.
pub open spec fn round_div(n: int, d: int) -> int {
    (2 * n + d) / (2 * d)
}

/// The place in a line of `src_len` pixels that place `i` of a line of
/// `dst_len` pixels is taken from when the line is scaled: `i` times the
/// ratio of the lengths, rounded, and no further than the last pixel.
pub open spec fn spec_nearest(i: int, src_len: int, dst_len: int) -> int {
    clamp_int(round_div(i * src_len, dst_len), 0, src_len - 1)
}

/// Whether `dst` is `src` scaled to the size of `dst` by taking, for each
/// pixel, the pixel of `src` nearest to its place.
pub open spec fn is_resized_nearest<T>(dst: ImageView<T>, src: ImageView<T>) -> bool {
    &&& dst.stride == dst.width
    &&& forall|x: int, y: int|
        0 <= x < dst.width && 0 <= y < dst.height ==> #[trigger] dst.pixel(x, y) == src.pixel(
            spec_nearest(x, src.width as int, dst.width as int),
            spec_nearest(y, src.height as int, dst.height as int),
        )
}

/// The place that `spec_nearest` defines.
fn nearest(i: u32, src_len: u32, dst_len: u32) -> (r: u32)
    requires
        src_len > 0,
        i < dst_len,
    ensures
        r == spec_nearest(i as int, src_len as int, dst_len as int),
        r < src_len,
{
    proof {
        assert(0 <= i * src_len <= 0xffff_ffff * 0xffff_ffff) by (nonlinear_arith)
            requires
                0 <= i <= 0xffff_ffff,
                0 <= src_len <= 0xffff_ffff,
        ;
    }
    let n: u128 = (i as u128) * (src_len as u128);
    let q: u128 = (2 * n + dst_len as u128) / (2 * dst_len as u128);
    if q > (src_len - 1) as u128 {
        src_len - 1
    } else {
        q as u32
    }
}

/// A new image of the given size: `src` scaled by taking, for each pixel,
/// the pixel of `src` nearest to its place. A pixel is copied as it is;
/// none is blended.
pub fn resize_nearest<T: Pixel>(src: &Image<T>, width: u32, height: u32) -> (dst: Image<T>)
    requires
        src.wf(),
        width * height <= usize::MAX,
        width > 0 && height > 0 ==> src@.width > 0 && src@.height > 0,
    ensures
        dst.wf(),
        dst@.width == width,
        dst@.height == height,
        is_resized_nearest(dst@, src@),
{
    let mut dst = Image::new(width, height);
    if width == 0 || height == 0 {
        return dst;
    }
    let src_width = src.width();
    let src_height = src.height();
    let mut xidx: Vec<usize> = Vec::with_capacity(width as usize);
    for w in 0..width
        invariant
            src_width > 0,
            xidx@.len() == w,
            forall|x: int|
                0 <= x < w ==> #[trigger] xidx@[x] == spec_nearest(
                    x,
                    src_width as int,
                    width as int,
                ) && xidx@[x] < src_width,
    {
        xidx.push(nearest(w, src_width, width) as usize);
    }
    for h in 0..height
        invariant
            src.wf(),
            dst.wf(),
            src_width == src@.width,
            src_height == src@.height,
            src_width > 0,
            src_height > 0,
            dst@.width == width,
            dst@.height == height,
            dst@.stride == width,
            xidx@.len() == width,
            forall|x: int|
                0 <= x < width ==> #[trigger] xidx@[x] == spec_nearest(
                    x,
                    src_width as int,
                    width as int,
                ) && xidx@[x] < src_width,
            forall|x: int, y: int|
                0 <= x < width && 0 <= y < h ==> #[trigger] dst@.pixel(x, y) == src@.pixel(
                    spec_nearest(x, src_width as int, width as int),
                    spec_nearest(y, src_height as int, height as int),
                ),
    {
        let ghost before = dst@;
        let sy = nearest(h, src_height, height);
        let psrc = src.row(sy);
        let pdst = dst.row_mut(h);
        for w in 0..width as usize
            invariant
                src_width == src@.width,
                src_width <= src@.stride,
                psrc@.len() == src@.stride,
                pdst@.len() == width,
                xidx@.len() == width,
                forall|x: int| 0 <= x < width ==> #[trigger] xidx@[x] < src_width,
                forall|x: int| 0 <= x < w ==> #[trigger] pdst@[x] == psrc@[xidx@[x] as int],
        {
            pdst[w] = psrc[xidx[w]];
        }
        let ghost done = pdst@;
        proof {
            before.lemma_with_row(h as int, done);
            src@.lemma_row(sy as int);
            assert forall|x: int| 0 <= x < width implies #[trigger] dst@.pixel(x, h as int)
                == src@.pixel(
                spec_nearest(x, src_width as int, width as int),
                spec_nearest(h as int, src_height as int, height as int),
            ) by {
                assert(xidx@[x] < src_width);
                assert(done[x] == psrc@[xidx@[x] as int]);
            }
        }
    }
    dst
}

/// A place of a line is taken from the same place when the line keeps its
/// length.
pub proof fn lemma_nearest_same_len(i: int, len: int)
    requires
        0 <= i < len,
    ensures
        spec_nearest(i, len, len) == i,
{
    assert(2 * (i * len) + len == i * (2 * len) + len) by (nonlinear_arith);
    lemma_fundamental_div_mod_converse(2 * (i * len) + len, 2 * len, i, len);
}

/// Scaling an image to its own size gives the image back.
pub proof fn lemma_resize_nearest_same_size<T>(src: ImageView<T>, dst: ImageView<T>)
    requires
        src.wf(),
        dst.wf(),
        dst.width == src.width,
        dst.height == src.height,
        is_resized_nearest(dst, src),
    ensures
        dst.same_picture(src),
        src.stride == src.width ==> dst == src,
{
    assert forall|x: int, y: int| 0 <= x < dst.width && 0 <= y < dst.height implies #[trigger] dst.pixel(
        x,
        y,
    ) == src.pixel(x, y) by {
        lemma_nearest_same_len(x, src.width as int);
        lemma_nearest_same_len(y, src.height as int);
    }
    if src.stride == src.width {
        dst.lemma_same_picture_packed(src);
    }
}

} // verus!
