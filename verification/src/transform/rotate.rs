//! Turns by quarters, and flips.
use vstd::prelude::*;
use crate::image::{Image, ImageView, Pixel};
use crate::transform::RotateType;

verus! {

/// Whether `dst` is `src` turned upside down: row `y` of the one is row
/// `height - 1 - y` of the other.
pub open spec fn is_flipped_vertical<T>(dst: ImageView<T>, src: ImageView<T>) -> bool {
    &&& dst.width == src.width
    &&& dst.height == src.height
    &&& dst.stride == src.width
    &&& forall|x: int, y: int|
        0 <= x < dst.width && 0 <= y < dst.height ==> #[trigger] dst.pixel(x, y) == src.pixel(
            x,
            src.height - 1 - y,
        )
}

/// Whether `dst` is `src` mirrored left to right: column `x` of the one is
/// column `width - 1 - x` of the other.
pub open spec fn is_flipped_horizontal<T>(dst: ImageView<T>, src: ImageView<T>) -> bool {
    &&& dst.width == src.width
    &&& dst.height == src.height
    &&& dst.stride == src.width
    &&& forall|x: int, y: int|
        0 <= x < dst.width && 0 <= y < dst.height ==> #[trigger] dst.pixel(x, y) == src.pixel(
            src.width - 1 - x,
            y,
        )
}

/// Whether `dst` is `src` turned a quarter clockwise: the rows of `src`,
/// from top to bottom, are the columns of `dst` from right to left.
pub open spec fn is_rotated_cw90<T>(dst: ImageView<T>, src: ImageView<T>) -> bool {
    &&& dst.width == src.height
    &&& dst.height == src.width
    &&& dst.stride == src.height
    &&& forall|x: int, y: int|
        0 <= x < dst.width && 0 <= y < dst.height ==> #[trigger] dst.pixel(x, y) == src.pixel(
            y,
            src.height - 1 - x,
        )
}

/// Whether `dst` is `src` turned upside down and mirrored: a half turn.
pub open spec fn is_rotated_cw180<T>(dst: ImageView<T>, src: ImageView<T>) -> bool {
    &&& dst.width == src.width
    &&& dst.height == src.height
    &&& dst.stride == src.width
    &&& forall|x: int, y: int|
        0 <= x < dst.width && 0 <= y < dst.height ==> #[trigger] dst.pixel(x, y) == src.pixel(
            src.width - 1 - x,
            src.height - 1 - y,
        )
}

/// Whether `dst` is `src` turned three quarters clockwise: the rows of
/// `src`, from top to bottom, are the columns of `dst` from left to right,
/// each from bottom to top.
pub open spec fn is_rotated_cw270<T>(dst: ImageView<T>, src: ImageView<T>) -> bool {
    &&& dst.width == src.height
    &&& dst.height == src.width
    &&& dst.stride == src.height
    &&& forall|x: int, y: int|
        0 <= x < dst.width && 0 <= y < dst.height ==> #[trigger] dst.pixel(x, y) == src.pixel(
            src.width - 1 - y,
            x,
        )
}

/// A new image: `src` turned a quarter clockwise.
pub fn rotate_cw90<T: Pixel>(src: &Image<T>) -> (dst: Image<T>)
    requires
        src.wf(),
    ensures
        dst.wf(),
        is_rotated_cw90(dst@, src@),
{
    proof {
        src.lemma_area_fits();
    }
    let width = src.width();
    let height = src.height();
    let mut dst = Image::new(height, width);
    for h in 0..height
        invariant
            src.wf(),
            dst.wf(),
            width == src@.width,
            height == src@.height,
            dst@.width == height,
            dst@.height == width,
            dst@.stride == height,
            forall|x: int, y: int|
                height - h <= x < height && 0 <= y < width ==> #[trigger] dst@.pixel(x, y)
                    == src@.pixel(y, height - 1 - x),
    {
        let psrc = src.row(h);
        let k = height - h - 1;
        for w in 0..width
            invariant
                src.wf(),
                dst.wf(),
                h < height,
                k == height - h - 1,
                width == src@.width,
                height == src@.height,
                dst@.width == height,
                dst@.height == width,
                dst@.stride == height,
                psrc@ == src@.row(h as int),
                forall|x: int, y: int|
                    height - h <= x < height && 0 <= y < width ==> #[trigger] dst@.pixel(x, y)
                        == src@.pixel(y, height - 1 - x),
                forall|y: int|
                    0 <= y < w ==> #[trigger] dst@.pixel(k as int, y) == src@.pixel(y, h as int),
        {
            proof {
                src@.lemma_row(h as int);
                dst@.lemma_with_pixel(k as int, w as int, psrc@[w as int]);
            }
            dst.put(k, w, psrc[w as usize]);
        }
    }
    dst
}

/// A new image: `src` turned by a half turn.
pub fn rotate_cw180<T: Pixel>(src: &Image<T>) -> (dst: Image<T>)
    requires
        src.wf(),
    ensures
        dst.wf(),
        is_rotated_cw180(dst@, src@),
{
    proof {
        src.lemma_area_fits();
    }
    let width = src.width();
    let height = src.height();
    let mut dst = Image::new(width, height);
    for h in 0..height
        invariant
            src.wf(),
            dst.wf(),
            width == src@.width,
            height == src@.height,
            dst@.width == width,
            dst@.height == height,
            dst@.stride == width,
            forall|x: int, y: int|
                0 <= x < width && height - h <= y < height ==> #[trigger] dst@.pixel(x, y)
                    == src@.pixel(width - 1 - x, height - 1 - y),
    {
        let ghost before = dst@;
        let psrc = src.row(h);
        let pdst = dst.row_mut(height - h - 1);
        for w in 0..width as usize
            invariant
                width == src@.width,
                width <= src@.stride,
                psrc@.len() == src@.stride,
                pdst@.len() == width,
                forall|x: int| 0 <= x < w ==> #[trigger] pdst@[x] == psrc@[width - 1 - x],
        {
            pdst[w] = psrc[width as usize - w - 1];
        }
        let ghost done = pdst@;
        proof {
            before.lemma_with_row(height - h - 1, done);
            src@.lemma_row(h as int);
        }
    }
    dst
}

/// A new image: `src` turned three quarters clockwise.
pub fn rotate_cw270<T: Pixel>(src: &Image<T>) -> (dst: Image<T>)
    requires
        src.wf(),
    ensures
        dst.wf(),
        is_rotated_cw270(dst@, src@),
{
    proof {
        src.lemma_area_fits();
    }
    let width = src.width();
    let height = src.height();
    let mut dst = Image::new(height, width);
    for h in 0..height
        invariant
            src.wf(),
            dst.wf(),
            width == src@.width,
            height == src@.height,
            dst@.width == height,
            dst@.height == width,
            dst@.stride == height,
            forall|x: int, y: int|
                0 <= x < h && 0 <= y < width ==> #[trigger] dst@.pixel(x, y) == src@.pixel(
                    width - 1 - y,
                    x,
                ),
    {
        let psrc = src.row(h);
        for w in 0..width
            invariant
                src.wf(),
                dst.wf(),
                h < height,
                width == src@.width,
                height == src@.height,
                dst@.width == height,
                dst@.height == width,
                dst@.stride == height,
                psrc@ == src@.row(h as int),
                forall|x: int, y: int|
                    0 <= x < h && 0 <= y < width ==> #[trigger] dst@.pixel(x, y) == src@.pixel(
                        width - 1 - y,
                        x,
                    ),
                forall|y: int|
                    width - w <= y < width ==> #[trigger] dst@.pixel(h as int, y) == src@.pixel(
                        width - 1 - y,
                        h as int,
                    ),
        {
            proof {
                src@.lemma_row(h as int);
                dst@.lemma_with_pixel(h as int, width - w - 1, psrc@[w as int]);
            }
            dst.put(h, width - w - 1, psrc[w as usize]);
        }
    }
    dst
}

/// Whether `dst` is `src` turned as `rtype` says.
pub open spec fn is_rotated<T>(dst: ImageView<T>, src: ImageView<T>, rtype: RotateType) -> bool {
    match rtype {
        RotateType::Cw0 => dst == src,
        RotateType::Cw90 => is_rotated_cw90(dst, src),
        RotateType::Cw180 => is_rotated_cw180(dst, src),
        RotateType::Cw270 => is_rotated_cw270(dst, src),
    }
}

/// A new image: `src` turned as `rtype` says. A turn by nothing is a copy.
pub fn rotate<T: Pixel>(src: &Image<T>, rtype: RotateType) -> (dst: Image<T>)
    requires
        src.wf(),
    ensures
        dst.wf(),
        is_rotated(dst@, src@, rtype),
{
    match rtype {
        RotateType::Cw0 => src.clone(),
        RotateType::Cw90 => rotate_cw90(src),
        RotateType::Cw180 => rotate_cw180(src),
        RotateType::Cw270 => rotate_cw270(src),
    }
}

/// A new image: `src` turned upside down.
pub fn flip_vertical<T: Pixel>(src: &Image<T>) -> (dst: Image<T>)
    requires
        src.wf(),
    ensures
        dst.wf(),
        is_flipped_vertical(dst@, src@),
{
    proof {
        src.lemma_area_fits();
    }
    let width = src.width();
    let height = src.height();
    let mut dst = Image::new(width, height);
    for h in 0..height
        invariant
            src.wf(),
            dst.wf(),
            width == src@.width,
            height == src@.height,
            dst@.width == width,
            dst@.height == height,
            dst@.stride == width,
            forall|x: int, y: int|
                0 <= x < width && height - h <= y < height ==> #[trigger] dst@.pixel(x, y)
                    == src@.pixel(x, height - 1 - y),
    {
        let ghost before = dst@;
        let psrc = src.row(h);
        let pdst = dst.row_mut(height - h - 1);
        for w in 0..width as usize
            invariant
                width == src@.width,
                width <= src@.stride,
                psrc@.len() == src@.stride,
                pdst@.len() == width,
                forall|x: int| 0 <= x < w ==> #[trigger] pdst@[x] == psrc@[x],
        {
            pdst[w] = psrc[w];
        }
        let ghost done = pdst@;
        proof {
            before.lemma_with_row(height - h - 1, done);
            src@.lemma_row(h as int);
        }
    }
    dst
}

/// A new image: `src` mirrored left to right.
pub fn flip_horizontal<T: Pixel>(src: &Image<T>) -> (dst: Image<T>)
    requires
        src.wf(),
    ensures
        dst.wf(),
        is_flipped_horizontal(dst@, src@),
{
    proof {
        src.lemma_area_fits();
    }
    let width = src.width();
    let height = src.height();
    let mut dst = Image::new(width, height);
    for h in 0..height
        invariant
            src.wf(),
            dst.wf(),
            width == src@.width,
            height == src@.height,
            dst@.width == width,
            dst@.height == height,
            dst@.stride == width,
            forall|x: int, y: int|
                0 <= x < width && 0 <= y < h ==> #[trigger] dst@.pixel(x, y) == src@.pixel(
                    width - 1 - x,
                    y,
                ),
    {
        let ghost before = dst@;
        let psrc = src.row(h);
        let pdst = dst.row_mut(h);
        for w in 0..width as usize
            invariant
                width == src@.width,
                width <= src@.stride,
                psrc@.len() == src@.stride,
                pdst@.len() == width,
                forall|x: int| 0 <= x < w ==> #[trigger] pdst@[x] == psrc@[width - 1 - x],
        {
            pdst[w] = psrc[width as usize - w - 1];
        }
        let ghost done = pdst@;
        proof {
            before.lemma_with_row(h as int, done);
            src@.lemma_row(h as int);
        }
    }
    dst
}

/// A quarter turn clockwise and then three quarters give the image back.
pub proof fn lemma_rotate_cw90_then_cw270<T>(
    src: ImageView<T>,
    mid: ImageView<T>,
    out: ImageView<T>,
)
    requires
        src.wf(),
        out.wf(),
        is_rotated_cw90(mid, src),
        is_rotated_cw270(out, mid),
    ensures
        out.same_picture(src),
        src.stride == src.width ==> out == src,
{
    assert forall|x: int, y: int| 0 <= x < out.width && 0 <= y < out.height implies #[trigger] out.pixel(
        x,
        y,
    ) == src.pixel(x, y) by {
        assert(out.pixel(x, y) == mid.pixel(mid.width - 1 - y, x));
        assert(mid.pixel(mid.width - 1 - y, x) == src.pixel(x, y));
    }
    if src.stride == src.width {
        out.lemma_same_picture_packed(src);
    }
}

/// Two half turns give the image back.
pub proof fn lemma_rotate_cw180_twice<T>(src: ImageView<T>, mid: ImageView<T>, out: ImageView<T>)
    requires
        src.wf(),
        out.wf(),
        is_rotated_cw180(mid, src),
        is_rotated_cw180(out, mid),
    ensures
        out.same_picture(src),
        src.stride == src.width ==> out == src,
{
    assert forall|x: int, y: int| 0 <= x < out.width && 0 <= y < out.height implies #[trigger] out.pixel(
        x,
        y,
    ) == src.pixel(x, y) by {
        assert(out.pixel(x, y) == mid.pixel(mid.width - 1 - x, mid.height - 1 - y));
        assert(mid.pixel(mid.width - 1 - x, mid.height - 1 - y) == src.pixel(x, y));
    }
    if src.stride == src.width {
        out.lemma_same_picture_packed(src);
    }
}

/// Turning upside down twice gives the image back.
pub proof fn lemma_flip_vertical_twice<T>(src: ImageView<T>, mid: ImageView<T>, out: ImageView<T>)
    requires
        src.wf(),
        out.wf(),
        is_flipped_vertical(mid, src),
        is_flipped_vertical(out, mid),
    ensures
        out.same_picture(src),
        src.stride == src.width ==> out == src,
{
    assert forall|x: int, y: int| 0 <= x < out.width && 0 <= y < out.height implies #[trigger] out.pixel(
        x,
        y,
    ) == src.pixel(x, y) by {
        assert(out.pixel(x, y) == mid.pixel(x, mid.height - 1 - y));
        assert(mid.pixel(x, mid.height - 1 - y) == src.pixel(x, y));
    }
    if src.stride == src.width {
        out.lemma_same_picture_packed(src);
    }
}

/// Mirroring twice gives the image back.
pub proof fn lemma_flip_horizontal_twice<T>(
    src: ImageView<T>,
    mid: ImageView<T>,
    out: ImageView<T>,
)
    requires
        src.wf(),
        out.wf(),
        is_flipped_horizontal(mid, src),
        is_flipped_horizontal(out, mid),
    ensures
        out.same_picture(src),
        src.stride == src.width ==> out == src,
{
    assert forall|x: int, y: int| 0 <= x < out.width && 0 <= y < out.height implies #[trigger] out.pixel(
        x,
        y,
    ) == src.pixel(x, y) by {
        assert(out.pixel(x, y) == mid.pixel(mid.width - 1 - x, y));
        assert(mid.pixel(mid.width - 1 - x, y) == src.pixel(x, y));
    }
    if src.stride == src.width {
        out.lemma_same_picture_packed(src);
    }
}

/// Two quarter turns are a half turn.
pub proof fn lemma_rotate_cw90_twice<T>(src: ImageView<T>, mid: ImageView<T>, out: ImageView<T>)
    requires
        is_rotated_cw90(mid, src),
        is_rotated_cw90(out, mid),
    ensures
        is_rotated_cw180(out, src),
{
    assert forall|x: int, y: int| 0 <= x < out.width && 0 <= y < out.height implies #[trigger] out.pixel(
        x,
        y,
    ) == src.pixel(src.width - 1 - x, src.height - 1 - y) by {
        assert(out.pixel(x, y) == mid.pixel(y, mid.height - 1 - x));
        assert(mid.pixel(y, mid.height - 1 - x) == src.pixel(src.width - 1 - x, src.height - 1 - y));
    }
}

} // verus!
