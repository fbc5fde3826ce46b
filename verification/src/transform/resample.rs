//! Scaling and warping by blending the pixels around a place.
//!
//! Where a place of the new image lies in the old one is for the caller to
//! say, who knows how to round in the number type `F`.
use vstd::prelude::*;
use std::ops::{Add, Mul, Sub};
use crate::image::blend::{blend4, blend4_ok, is_blend4};
use crate::image::pixel::is_zero_pixel;
use crate::image::{Image, ImageView, Pixel};
use crate::traits::clamp_int;
use crate::transform::resize::{is_resized_nearest, resize_nearest};
use crate::transform::InterplateType;

verus! {

/// What a place on a line comes to on the grid of pixels: the index of the
/// nearest pixel, the indices of the pixels before and after the place,
/// and the share of the pixel before, which is one where the place is that
/// pixel and falls to nothing towards the pixel after.
///
/// The indices are as the place gives them; they may lie beyond the ends of
/// the line.
#[derive(Debug, Clone, Copy)]
pub struct Coord<F> {
    pub nearest: i32,
    pub lo: i32,
    pub hi: i32,
    pub weight: F,
}

/// The index `i` limited to a line of `len` pixels.
pub open spec fn spec_limit(i: i32, len: nat) -> int {
    clamp_int(i as int, 0, len - 1)
}

/// The index that `spec_limit` defines.
fn limit(i: i32, len: u32) -> (r: u32)
    requires
        len > 0,
    ensures
        r == spec_limit(i, len as nat),
        r < len,
{
    if i < 0 {
        0
    } else if i as u32 > len - 1 {
        len - 1
    } else {
        i as u32
    }
}

/// The four pixels of `src` around the place that `cx` and `cy` stand for,
/// each index limited to the picture: top left, top right, bottom left,
/// bottom right.
pub open spec fn spec_around<T, F>(src: ImageView<T>, cx: Coord<F>, cy: Coord<F>) -> Seq<T> {
    let x0 = spec_limit(cx.lo, src.width);
    let x1 = spec_limit(cx.hi, src.width);
    let y0 = spec_limit(cy.lo, src.height);
    let y1 = spec_limit(cy.hi, src.height);
    seq![src.pixel(x0, y0), src.pixel(x1, y0), src.pixel(x0, y1), src.pixel(x1, y1)]
}

/// Whether the pixel of `src` at the place that `cx` and `cy` stand for can
/// be computed.
pub open spec fn bilinear_ok<T: Pixel, F>(src: ImageView<T>, cx: Coord<F>, cy: Coord<F>) -> bool where
    F: From<u8> + From<T::Subpixel> + Add<Output = F> + Sub<Output = F> + Mul<Output = F>,
 {
    let p = spec_around(src, cx, cy);
    blend4_ok(p[0], p[1], p[2], p[3], cx.weight, cy.weight)
}

/// Whether `p` is the pixel of `src` at the place that `cx` and `cy` stand
/// for, made up of the four pixels around it, each by its share.
pub open spec fn is_bilinear<T: Pixel, F, L: Fn(F) -> T::Subpixel>(
    p: T,
    src: ImageView<T>,
    cx: Coord<F>,
    cy: Coord<F>,
    lower: L,
) -> bool where
    F: From<u8> + From<T::Subpixel> + Add<Output = F> + Sub<Output = F> + Mul<Output = F>,
 {
    let q = spec_around(src, cx, cy);
    is_blend4(p, q[0], q[1], q[2], q[3], cx.weight, cy.weight, lower)
}

/// The pixel of `src` at the place that `cx` and `cy` stand for, made up of
/// the four pixels around it.
fn sample_bilinear<T, F, L>(src: &Image<T>, cx: Coord<F>, cy: Coord<F>, lower: &L) -> (p: T) where
    T: Pixel,
    F: Copy + From<u8> + From<T::Subpixel> + Add<Output = F> + Sub<Output = F> + Mul<Output = F>,
    L: Fn(F) -> T::Subpixel,

    requires
        src.wf(),
        src@.width > 0,
        src@.height > 0,
        forall|v: F| call_requires(*lower, (v,)),
        bilinear_ok(src@, cx, cy),
    ensures
        is_bilinear(p, src@, cx, cy, *lower),
{
    let x0 = limit(cx.lo, src.width());
    let x1 = limit(cx.hi, src.width());
    let y0 = limit(cy.lo, src.height());
    let y1 = limit(cy.hi, src.height());
    blend4(
        src.get(x0, y0),
        src.get(x1, y0),
        src.get(x0, y1),
        src.get(x1, y1),
        cx.weight,
        cy.weight,
        lower,
    )
}

/// Whether `dst` is `src` scaled to the size of `dst` by making up each
/// pixel of the four pixels of `src` around its place, where `columns` and
/// `rows` say what the columns and rows of `dst` come to on the grid of
/// `src`.
pub open spec fn is_resized_bilinear<T: Pixel, F, L: Fn(F) -> T::Subpixel>(
    dst: ImageView<T>,
    src: ImageView<T>,
    columns: Seq<Coord<F>>,
    rows: Seq<Coord<F>>,
    lower: L,
) -> bool where
    F: From<u8> + From<T::Subpixel> + Add<Output = F> + Sub<Output = F> + Mul<Output = F>,
 {
    &&& columns.len() == dst.width
    &&& rows.len() == dst.height
    &&& forall|x: int, y: int|
        0 <= x < dst.width && 0 <= y < dst.height ==> is_bilinear(
            #[trigger] dst.pixel(x, y),
            src,
            columns[x],
            rows[y],
            lower,
        )
}

/// Whether every pixel that a scaling of `src` may ask for can be computed:
/// whatever `column` and `row` say that a column and a row come to.
pub open spec fn resize_bilinear_ok<T: Pixel, F, X: Fn(u32) -> Coord<F>, Y: Fn(u32) -> Coord<F>>(
    src: ImageView<T>,
    column: X,
    row: Y,
) -> bool where
    F: From<u8> + From<T::Subpixel> + Add<Output = F> + Sub<Output = F> + Mul<Output = F>,
 {
    forall|x: u32, y: u32, cx: Coord<F>, cy: Coord<F>|
        #![trigger call_ensures(column, (x,), cx), call_ensures(row, (y,), cy)]
        call_ensures(column, (x,), cx) && call_ensures(row, (y,), cy) ==> bilinear_ok(src, cx, cy)
}

/// Whether `columns` and `rows` are what `column` and `row` say that the
/// columns and rows of an image of the given size come to.
pub open spec fn are_grid_places<F, X: Fn(u32) -> Coord<F>, Y: Fn(u32) -> Coord<F>>(
    columns: Seq<Coord<F>>,
    rows: Seq<Coord<F>>,
    width: u32,
    height: u32,
    column: X,
    row: Y,
) -> bool {
    &&& columns.len() == width
    &&& rows.len() == height
    &&& forall|x: int| 0 <= x < width ==> call_ensures(column, (x as u32,), #[trigger] columns[x])
    &&& forall|y: int| 0 <= y < height ==> call_ensures(row, (y as u32,), #[trigger] rows[y])
}

/// A new image of the given size: `src` scaled by making up each pixel of
/// the four pixels of `src` around its place. `column` says, once for each
/// column of the new image, what the column comes to on the grid of `src`,
/// and `row` says the same of each row.
pub fn resize_bilinear<T, F, X, Y, L>(
    src: &Image<T>,
    width: u32,
    height: u32,
    column: X,
    row: Y,
    lower: L,
) -> (dst: Image<T>) where
    T: Pixel,
    F: Copy + From<u8> + From<T::Subpixel> + Add<Output = F> + Sub<Output = F> + Mul<Output = F>,
    X: Fn(u32) -> Coord<F>,
    Y: Fn(u32) -> Coord<F>,
    L: Fn(F) -> T::Subpixel,

    requires
        src.wf(),
        width * height <= usize::MAX,
        width > 0 && height > 0 ==> src@.width > 0 && src@.height > 0,
        forall|x: u32| call_requires(column, (x,)),
        forall|y: u32| call_requires(row, (y,)),
        forall|v: F| call_requires(lower, (v,)),
        resize_bilinear_ok(src@, column, row),
    ensures
        dst.wf(),
        dst@.width == width,
        dst@.height == height,
        dst@.stride == width,
        exists|columns: Seq<Coord<F>>, rows: Seq<Coord<F>>|
            {
                &&& #[trigger] are_grid_places(columns, rows, width, height, column, row)
                &&& is_resized_bilinear(dst@, src@, columns, rows, lower)
            },
{
    let mut dst = Image::new(width, height);
    let mut columns: Vec<Coord<F>> = Vec::with_capacity(width as usize);
    for w in 0..width
        invariant
            columns@.len() == w,
            forall|x: u32| call_requires(column, (x,)),
            forall|x: int| 0 <= x < w ==> call_ensures(column, (x as u32,), #[trigger] columns@[x]),
    {
        let c = column(w);
        columns.push(c);
    }
    let ghost mut rows: Seq<Coord<F>> = Seq::empty();
    for h in 0..height
        invariant
            src.wf(),
            dst.wf(),
            width > 0 && height > 0 ==> src@.width > 0 && src@.height > 0,
            dst@.width == width,
            dst@.height == height,
            dst@.stride == width,
            columns@.len() == width,
            rows.len() == h,
            forall|y: u32| call_requires(row, (y,)),
            forall|v: F| call_requires(lower, (v,)),
            forall|x: int|
                0 <= x < width ==> call_ensures(column, (x as u32,), #[trigger] columns@[x]),
            forall|y: int| 0 <= y < h ==> call_ensures(row, (y as u32,), #[trigger] rows[y]),
            resize_bilinear_ok(src@, column, row),
            forall|x: int, y: int|
                0 <= x < width && 0 <= y < h ==> is_bilinear(
                    #[trigger] dst@.pixel(x, y),
                    src@,
                    columns@[x],
                    rows[y],
                    lower,
                ),
    {
        let cy = row(h);
        proof {
            rows = rows.push(cy);
        }
        for w in 0..width
            invariant
                src.wf(),
                dst.wf(),
                h < height,
                width > 0 && height > 0 ==> src@.width > 0 && src@.height > 0,
                dst@.width == width,
                dst@.height == height,
                dst@.stride == width,
                columns@.len() == width,
                rows.len() == h + 1,
                rows[h as int] == cy,
                call_ensures(row, (h,), cy),
                forall|v: F| call_requires(lower, (v,)),
                forall|x: int|
                    0 <= x < width ==> call_ensures(column, (x as u32,), #[trigger] columns@[x]),
                resize_bilinear_ok(src@, column, row),
                forall|x: int, y: int|
                    0 <= x < width && 0 <= y < h ==> is_bilinear(
                        #[trigger] dst@.pixel(x, y),
                        src@,
                        columns@[x],
                        rows[y],
                        lower,
                    ),
                forall|x: int|
                    0 <= x < w ==> is_bilinear(
                        #[trigger] dst@.pixel(x, h as int),
                        src@,
                        columns@[x],
                        cy,
                        lower,
                    ),
        {
            let cx = columns[w as usize];
            proof {
                assert(call_ensures(column, (w,), columns@[w as int]));
                assert(bilinear_ok(src@, cx, cy));
            }
            let p = sample_bilinear(src, cx, cy, &lower);
            proof {
                dst@.lemma_with_pixel(w as int, h as int, p);
            }
            dst.put(w, h, p);
        }
    }
    proof {
        assert(are_grid_places(columns@, rows, width, height, column, row));
        assert(is_resized_bilinear(dst@, src@, columns@, rows, lower));
    }
    dst
}

/// A new image of the given size: `src` scaled as `interp` says, by
/// `resize_nearest` or by `resize_bilinear`. The first has no use for
/// `column`, `row` and `lower`.
pub fn resize<T, F, X, Y, L>(
    src: &Image<T>,
    width: u32,
    height: u32,
    interp: InterplateType,
    column: X,
    row: Y,
    lower: L,
) -> (dst: Image<T>) where
    T: Pixel,
    F: Copy + From<u8> + From<T::Subpixel> + Add<Output = F> + Sub<Output = F> + Mul<Output = F>,
    X: Fn(u32) -> Coord<F>,
    Y: Fn(u32) -> Coord<F>,
    L: Fn(F) -> T::Subpixel,

    requires
        src.wf(),
        width * height <= usize::MAX,
        width > 0 && height > 0 ==> src@.width > 0 && src@.height > 0,
        interp is Bilinear ==> {
            &&& forall|x: u32| call_requires(column, (x,))
            &&& forall|y: u32| call_requires(row, (y,))
            &&& forall|v: F| call_requires(lower, (v,))
            &&& resize_bilinear_ok(src@, column, row)
        },
    ensures
        dst.wf(),
        dst@.width == width,
        dst@.height == height,
        dst@.stride == width,
        interp is Nearest ==> is_resized_nearest(dst@, src@),
        interp is Bilinear ==> exists|columns: Seq<Coord<F>>, rows: Seq<Coord<F>>|
            {
                &&& #[trigger] are_grid_places(columns, rows, width, height, column, row)
                &&& is_resized_bilinear(dst@, src@, columns, rows, lower)
            },
{
    match interp {
        InterplateType::Nearest => resize_nearest(src, width, height),
        InterplateType::Bilinear => resize_bilinear(src, width, height, column, row, lower),
    }
}

/// Whether `p` is the pixel that a warp gives where the place in `src`
/// comes to `cx` and `cy` on the grid. With `Nearest` it is the nearest
/// pixel of `src`, or the zero pixel where that lies outside the picture.
/// With `Bilinear` it is made up of the four pixels around the place.
pub open spec fn is_warped_pixel<T: Pixel, F, L: Fn(F) -> T::Subpixel>(
    p: T,
    src: ImageView<T>,
    cx: Coord<F>,
    cy: Coord<F>,
    interp: InterplateType,
    lower: L,
) -> bool where
    F: From<u8> + From<T::Subpixel> + Add<Output = F> + Sub<Output = F> + Mul<Output = F>,
 {
    match interp {
        InterplateType::Nearest => if 0 <= cx.nearest < src.width && 0 <= cy.nearest < src.height {
            p == src.pixel(cx.nearest as int, cy.nearest as int)
        } else {
            is_zero_pixel(p)
        },
        InterplateType::Bilinear => is_bilinear(p, src, cx, cy, lower),
    }
}

/// Whether the pixel of column `x` and row `y` of `dst` is what a warp of
/// `src` gives there, for some place that `place` names for it.
pub open spec fn is_warped_at<T: Pixel, F, M, L>(
    dst: ImageView<T>,
    src: ImageView<T>,
    place: M,
    interp: InterplateType,
    lower: L,
    x: int,
    y: int,
) -> bool where
    F: From<u8> + From<T::Subpixel> + Add<Output = F> + Sub<Output = F> + Mul<Output = F>,
    M: Fn(u32, u32) -> (Coord<F>, Coord<F>),
    L: Fn(F) -> T::Subpixel,
 {
    exists|c: (Coord<F>, Coord<F>)|
        {
            &&& #[trigger] call_ensures(place, (x as u32, y as u32), c)
            &&& is_warped_pixel(dst.pixel(x, y), src, c.0, c.1, interp, lower)
        }
}

/// Whether every pixel that a warp of `src` may ask for can be computed,
/// whatever places `place` names.
pub open spec fn warp_ok<T: Pixel, F, M>(src: ImageView<T>, place: M) -> bool where
    F: From<u8> + From<T::Subpixel> + Add<Output = F> + Sub<Output = F> + Mul<Output = F>,
    M: Fn(u32, u32) -> (Coord<F>, Coord<F>),
 {
    forall|x: u32, y: u32, c: (Coord<F>, Coord<F>)| #[trigger]
        call_ensures(place, (x, y), c) ==> bilinear_ok(src, c.0, c.1)
}

/// A new image of the given size, each pixel of which is taken from the
/// place in `src` that `place` names for its column and row: the place that
/// a transform of the plane takes to the pixel.
///
/// With `Nearest` the pixel is the pixel of `src` nearest to the place, and
/// stays the zero pixel where that lies outside of `src`. With `Bilinear`
/// it is made up of the four pixels around the place, each limited to the
/// picture.
pub fn warp_perspective<T, F, M, L>(
    src: &Image<T>,
    width: u32,
    height: u32,
    place: M,
    interp: InterplateType,
    lower: L,
) -> (dst: Image<T>) where
    T: Pixel,
    F: Copy + From<u8> + From<T::Subpixel> + Add<Output = F> + Sub<Output = F> + Mul<Output = F>,
    M: Fn(u32, u32) -> (Coord<F>, Coord<F>),
    L: Fn(F) -> T::Subpixel,

    requires
        src.wf(),
        width * height <= usize::MAX,
        forall|x: u32, y: u32| call_requires(place, (x, y)),
        forall|v: F| call_requires(lower, (v,)),
        interp is Bilinear ==> {
            &&& width > 0 && height > 0 ==> src@.width > 0 && src@.height > 0
            &&& warp_ok(src@, place)
        },
    ensures
        dst.wf(),
        dst@.width == width,
        dst@.height == height,
        dst@.stride == width,
        forall|x: int, y: int|
            0 <= x < width && 0 <= y < height ==> #[trigger] is_warped_at(
                dst@,
                src@,
                place,
                interp,
                lower,
                x,
                y,
            ),
{
    let mut dst: Image<T> = Image::new(width, height);
    let src_width = src.width();
    let src_height = src.height();
    for h in 0..height
        invariant
            src.wf(),
            dst.wf(),
            src_width == src@.width,
            src_height == src@.height,
            dst@.width == width,
            dst@.height == height,
            dst@.stride == width,
            forall|x: u32, y: u32| call_requires(place, (x, y)),
            forall|v: F| call_requires(lower, (v,)),
            interp is Bilinear ==> {
                &&& width > 0 && height > 0 ==> src@.width > 0 && src@.height > 0
                &&& warp_ok(src@, place)
            },
            forall|i: int| 0 <= i < dst@.data.len() && i >= h * width ==> is_zero_pixel(
                #[trigger] dst@.data[i],
            ),
            forall|x: int, y: int|
                0 <= x < width && 0 <= y < h ==> #[trigger] is_warped_at(
                    dst@,
                    src@,
                    place,
                    interp,
                    lower,
                    x,
                    y,
                ),
    {
        for w in 0..width
            invariant
                src.wf(),
                dst.wf(),
                h < height,
                src_width == src@.width,
                src_height == src@.height,
                dst@.width == width,
                dst@.height == height,
                dst@.stride == width,
                forall|x: u32, y: u32| call_requires(place, (x, y)),
                forall|v: F| call_requires(lower, (v,)),
                interp is Bilinear ==> {
                    &&& width > 0 && height > 0 ==> src@.width > 0 && src@.height > 0
                    &&& warp_ok(src@, place)
                },
                forall|i: int| 0 <= i < dst@.data.len() && i >= h * width + w ==> is_zero_pixel(
                    #[trigger] dst@.data[i],
                ),
                forall|x: int, y: int|
                    0 <= x < width && 0 <= y < h ==> #[trigger] is_warped_at(
                        dst@,
                        src@,
                        place,
                        interp,
                        lower,
                        x,
                        y,
                    ),
                forall|x: int|
                    0 <= x < w ==> #[trigger] is_warped_at(
                        dst@,
                        src@,
                        place,
                        interp,
                        lower,
                        x,
                        h as int,
                    ),
        {
            let ghost before = dst@;
            let c = place(w, h);
            let (cx, cy) = c;
            proof {
                before.lemma_offset(w as int, h as int);
                assert(is_zero_pixel(before.pixel(w as int, h as int)));
            }
            match interp {
                InterplateType::Nearest => {
                    let ix = cx.nearest;
                    let iy = cy.nearest;
                    if ix >= 0 && (ix as u32) < src_width && iy >= 0 && (iy as u32) < src_height {
                        let p = src.get(ix as u32, iy as u32);
                        proof {
                            before.lemma_with_pixel(w as int, h as int, p);
                        }
                        dst.put(w, h, p);
                    }
                },
                InterplateType::Bilinear => {
                    proof {
                        assert(call_ensures(place, (w, h), c));
                    }
                    let p = sample_bilinear(src, cx, cy, &lower);
                    proof {
                        before.lemma_with_pixel(w as int, h as int, p);
                    }
                    dst.put(w, h, p);
                },
            }
            proof {
                assert(is_warped_pixel(dst@.pixel(w as int, h as int), src@, cx, cy, interp, lower));
                assert(is_warped_at(dst@, src@, place, interp, lower, w as int, h as int));
                assert forall|x: int, y: int|
                    0 <= x < width && 0 <= y < height && (y < h || (y == h && x < w)) && is_warped_at(
                        before,
                        src@,
                        place,
                        interp,
                        lower,
                        x,
                        y,
                    ) implies #[trigger] is_warped_at(dst@, src@, place, interp, lower, x, y) by {
                    assert(dst@.pixel(x, y) == before.pixel(x, y));
                }
                assert forall|i: int|
                    0 <= i < dst@.data.len() && i >= h * width + w + 1 implies is_zero_pixel(
                    #[trigger] dst@.data[i],
                ) by {
                    assert(dst@.data[i] == before.data[i]);
                }
            }
        }
        proof {
            assert((h + 1) * width == h * width + width) by (nonlinear_arith);
        }
    }
    dst
}

} // verus!
