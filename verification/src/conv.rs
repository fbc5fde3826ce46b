//! Convolution of lines and of pictures, and kernels for blurring. A sample
//! beyond an edge is the sample at that edge.
//!
//! The sums are made in a number type `F` with the operators of `F`, in the
//! order of the taps. What comes out is stated as what these operators give
//! step by step, so that it holds of every number type, whether or not its
//! arithmetic is exact.
use vstd::prelude::*;
use std::ops::{Add, Div, Mul};
use crate::image::{Image, ImageView, Pixel};
use crate::math::arith::{
    can_add, can_divide, can_multiply, is_lifted, is_product, is_quotient, is_sum, is_zero,
};
use crate::traits::clamp_int;

verus! {

/// The place in a line of `len` samples that tap `j` of a kernel of `klen`
/// taps reads when the kernel is centred on place `i`. A place beyond an
/// end of the line is replaced by that end.
pub open spec fn spec_tap(i: int, j: int, klen: int, len: int) -> int {
    clamp_int(i - klen / 2 + j, 0, len - 1)
}

/// The place that `spec_tap` defines.
fn tap(i: usize, j: usize, klen: usize, len: usize) -> (r: usize)
    requires
        len > 0,
    ensures
        r == spec_tap(i as int, j as int, klen as int, len as int),
        r < len,
{
    let t: u128 = i as u128 + j as u128;
    let hx: u128 = (klen / 2) as u128;
    if t < hx {
        0
    } else if t - hx > (len - 1) as u128 {
        len - 1
    } else {
        (t - hx) as usize
    }
}

/// A line of samples as values of `F`: for a place `k` and a value `v`,
/// whether `v` is what reading the sample at `k` gives.
pub type Samples<F> = spec_fn(int, F) -> bool;

/// The samples of a line of values of `F`, as they are.
pub open spec fn plain_samples<F>(row: Seq<F>) -> Samples<F> {
    |k: int, v: F| v == row[k]
}

/// The samples of a line of values of another type, each turned into a
/// value of `F` when it is read.
pub open spec fn lifted_samples<T, F: From<T>>(row: Seq<T>) -> Samples<F> {
    |k: int, v: F| is_lifted(row[k], v)
}

/// Whether `s` is the sum of the first `n` taps of `kernel` centred on place
/// `i` of a line of `len` samples: the zero of `F` for no tap, and else the
/// sum of the taps before the last and the product of the sample that the
/// last tap reads with that tap.
pub open spec fn is_dot<F>(
    samples: Samples<F>,
    len: int,
    kernel: Seq<F>,
    i: int,
    n: nat,
    s: F,
) -> bool where F: Default + Add<Output = F> + Mul<Output = F>
    decreases n,
{
    if n == 0 {
        is_zero(s)
    } else {
        exists|before: F, sample: F, product: F|
            #![trigger is_sum(before, product, s), is_product(sample, kernel[n - 1], product)]
            {
                &&& is_dot(samples, len, kernel, i, (n - 1) as nat, before)
                &&& samples(spec_tap(i, n - 1, kernel.len() as int, len), sample)
                &&& is_product(sample, kernel[n - 1], product)
                &&& is_sum(before, product, s)
            }
    }
}

/// Whether every product and every sum on the way to the sum of the first
/// `n` taps can be computed, whatever the steps before have given.
pub open spec fn dot_ok<F>(samples: Samples<F>, len: int, kernel: Seq<F>, i: int, n: nat) -> bool where
    F: Default + Add<Output = F> + Mul<Output = F>,

    decreases n,
{
    n == 0 || {
        let at = spec_tap(i, n - 1, kernel.len() as int, len);
        &&& dot_ok(samples, len, kernel, i, (n - 1) as nat)
        &&& forall|sample: F| #[trigger] samples(at, sample) ==> can_multiply(sample, kernel[n - 1])
        &&& forall|before: F, sample: F, product: F|
            #![trigger is_dot(samples, len, kernel, i, (n - 1) as nat, before), is_product(sample, kernel[n - 1], product)]
            is_dot(samples, len, kernel, i, (n - 1) as nat, before) && samples(at, sample)
                && is_product(sample, kernel[n - 1], product) ==> can_add(before, product)
    }
}

/// What can be computed for `n` taps can be computed for fewer.
pub proof fn lemma_dot_ok_fewer<F>(
    samples: Samples<F>,
    len: int,
    kernel: Seq<F>,
    i: int,
    n: nat,
    m: nat,
) where F: Default + Add<Output = F> + Mul<Output = F>
    requires
        dot_ok(samples, len, kernel, i, n),
        m <= n,
    ensures
        dot_ok(samples, len, kernel, i, m),
    decreases n,
{
    if m < n {
        lemma_dot_ok_fewer(samples, len, kernel, i, (n - 1) as nat, m);
    }
}

/// The sum of the taps of `kernel` centred on place `i` of a line.
fn dot<T, F>(row: &[T], kernel: &[F], i: usize, zero: F) -> (s: F) where
    T: Copy,
    F: Copy + Default + From<T> + Add<Output = F> + Mul<Output = F>,

    requires
        i < row@.len(),
        is_zero(zero),
        dot_ok(lifted_samples::<T, F>(row@), row@.len() as int, kernel@, i as int, kernel@.len()),
    ensures
        is_dot(lifted_samples::<T, F>(row@), row@.len() as int, kernel@, i as int, kernel@.len(), s),
{
    let n = kernel.len();
    let w = row.len();
    let ghost samples = lifted_samples::<T, F>(row@);
    let mut s = zero;
    for j in 0..n
        invariant
            i < w,
            w == row@.len(),
            n == kernel@.len(),
            samples == lifted_samples::<T, F>(row@),
            dot_ok(samples, w as int, kernel@, i as int, n as nat),
            is_dot(samples, w as int, kernel@, i as int, j as nat, s),
    {
        let ghost before = s;
        proof {
            lemma_dot_ok_fewer(samples, w as int, kernel@, i as int, n as nat, (j + 1) as nat);
        }
        let xi = tap(i, j, n, w);
        let sample = F::from(row[xi]);
        proof {
            assert(samples(xi as int, sample));
        }
        let product = sample * kernel[j];
        proof {
            assert(is_product(sample, kernel@[j as int], product));
        }
        s = s + product;
        proof {
            assert(is_sum(before, product, s));
        }
    }
    s
}

/// The convolution of a line with a kernel. Place `i` of `out` gets the sum
/// over the taps `j` of the kernel of sample `i - kernel.len() / 2 + j`
/// times tap `j`; a sample beyond an end of the line is the sample at that
/// end. What `out` holds beyond the length of the line stays.
///
/// The sums are made in `F`, from its zero, in the order of the taps.
pub fn conv1d<T, F>(row: &[T], out: &mut [F], kernel: &[F]) where
    T: Copy,
    F: Copy + Default + From<T> + Add<Output = F> + Mul<Output = F>,

    requires
        row@.len() <= old(out)@.len(),
        forall|i: int|
            0 <= i < row@.len() ==> #[trigger] dot_ok(
                lifted_samples::<T, F>(row@),
                row@.len() as int,
                kernel@,
                i,
                kernel@.len(),
            ),
    ensures
        final(out)@.len() == old(out)@.len(),
        forall|i: int| row@.len() <= i < old(out)@.len() ==> final(out)@[i] == old(out)@[i],
        forall|i: int|
            0 <= i < row@.len() ==> is_dot(
                lifted_samples::<T, F>(row@),
                row@.len() as int,
                kernel@,
                i,
                kernel@.len(),
                #[trigger] final(out)@[i],
            ),
{
    let w = row.len();
    let zero = F::default();
    for i in 0..w
        invariant
            w == row@.len(),
            out@.len() == old(out)@.len(),
            w <= out@.len(),
            is_zero(zero),
            forall|k: int|
                0 <= k < row@.len() ==> #[trigger] dot_ok(
                    lifted_samples::<T, F>(row@),
                    row@.len() as int,
                    kernel@,
                    k,
                    kernel@.len(),
                ),
            forall|k: int| w <= k < out@.len() ==> out@[k] == old(out)@[k],
            forall|k: int|
                0 <= k < i ==> is_dot(
                    lifted_samples::<T, F>(row@),
                    row@.len() as int,
                    kernel@,
                    k,
                    kernel@.len(),
                    #[trigger] out@[k],
                ),
    {
        let s = dot(row, kernel, i, zero);
        out[i] = s;
    }
}

/// The sum of the first `n` taps of `kernel` centred on place `i` of the
/// line `row`, in numbers without bounds: the sum over the taps `j` of the
/// sample at the place `i - kernel.len() / 2 + j`, limited to the line, times
/// tap `j`.
pub open spec fn spec_dot_whole(row: Seq<u8>, kernel: Seq<u32>, i: int, n: nat) -> int
    decreases n,
{
    if n == 0 {
        0
    } else {
        spec_dot_whole(row, kernel, i, (n - 1) as nat) + row[spec_tap(
            i,
            n - 1,
            kernel.len() as int,
            row.len() as int,
        )] * kernel[n - 1]
    }
}

/// Whether the sums of the first taps, up to `n` of them, fit in 32 bits.
pub open spec fn dot_fits(row: Seq<u8>, kernel: Seq<u32>, i: int, n: nat) -> bool {
    forall|m: nat| m <= n ==> #[trigger] spec_dot_whole(row, kernel, i, m) <= u32::MAX
}

/// Of bytes convolved in whole numbers that fit, the convolution is the sum
/// of the products.
pub proof fn lemma_dot_whole(row: Seq<u8>, kernel: Seq<u32>, i: int, n: nat, s: u32)
    requires
        0 <= i < row.len(),
        n <= kernel.len(),
        dot_fits(row, kernel, i, n),
        is_dot(lifted_samples::<u8, u32>(row), row.len() as int, kernel, i, n, s),
    ensures
        s == spec_dot_whole(row, kernel, i, n),
    decreases n,
{
    if n > 0 {
        let samples = lifted_samples::<u8, u32>(row);
        let (before, sample, product) = choose|before: u32, sample: u32, product: u32|
            #![trigger is_sum(before, product, s), is_product(sample, kernel[n - 1], product)]
            {
                &&& is_dot(samples, row.len() as int, kernel, i, (n - 1) as nat, before)
                &&& samples(spec_tap(i, n - 1, kernel.len() as int, row.len() as int), sample)
                &&& is_product(sample, kernel[n - 1], product)
                &&& is_sum(before, product, s)
            };
        assert(dot_fits(row, kernel, i, (n - 1) as nat));
        lemma_dot_whole(row, kernel, i, (n - 1) as nat, before);
        let at = spec_tap(i, n - 1, kernel.len() as int, row.len() as int);
        assert(sample == row[at]);
        assert(spec_dot_whole(row, kernel, i, n) <= u32::MAX);
        assert(spec_dot_whole(row, kernel, i, (n - 1) as nat) >= 0);
        assert(0 <= row[at] * kernel[n - 1]) by (nonlinear_arith)
            requires
                0 <= row[at],
                0 <= kernel[n - 1],
        ;
    } else {
        assert(spec_dot_whole(row, kernel, i, 0) == 0);
    }
}

/// Channel `c` of column `x` of the picture, from top to bottom.
pub open spec fn spec_column<T: Pixel>(src: ImageView<T>, x: int, c: int) -> Seq<T::Subpixel> {
    Seq::new(src.height, |r: int| src.pixel(x, r).spec_raw()[c])
}

/// Whether `line` is channel `c` of row `y` of the picture after the
/// vertical pass: at each column, the sum of the taps of `kernely` centred
/// on row `y` of that column.
pub open spec fn is_vertical<T: Pixel, F>(
    line: Seq<F>,
    src: ImageView<T>,
    kernely: Seq<F>,
    y: int,
    c: int,
) -> bool where F: Default + From<T::Subpixel> + Add<Output = F> + Mul<Output = F> {
    &&& line.len() == src.width
    &&& forall|x: int|
        0 <= x < src.width ==> is_dot(
            lifted_samples::<T::Subpixel, F>(spec_column(src, x, c)),
            src.height as int,
            kernely,
            y,
            kernely.len(),
            #[trigger] line[x],
        )
}

/// Whether the subpixel `v` is what comes of column `x` of a line after the
/// horizontal pass: what `lower` makes of the sum of the taps of `kernelx`
/// centred on that column.
pub open spec fn is_horizontal<S, F, L: Fn(F) -> S>(
    v: S,
    line: Seq<F>,
    kernelx: Seq<F>,
    x: int,
    lower: L,
) -> bool where F: Default + Add<Output = F> + Mul<Output = F> {
    exists|sum: F|
        {
            &&& #[trigger] is_dot(
                plain_samples(line),
                line.len() as int,
                kernelx,
                x,
                kernelx.len(),
                sum,
            )
            &&& call_ensures(lower, (sum,), v)
        }
}

/// Whether channel `c` of row `y` of `dst` is that of the convolution of
/// `src`: what the horizontal pass makes of what the vertical pass makes of
/// `src`.
pub open spec fn is_conv2d_row<T: Pixel, F, L: Fn(F) -> T::Subpixel>(
    dst: ImageView<T>,
    src: ImageView<T>,
    kernelx: Seq<F>,
    kernely: Seq<F>,
    lower: L,
    y: int,
    c: int,
) -> bool where F: Default + From<T::Subpixel> + Add<Output = F> + Mul<Output = F> {
    exists|line: Seq<F>|
        {
            &&& #[trigger] is_vertical(line, src, kernely, y, c)
            &&& forall|x: int|
                0 <= x < src.width ==> is_horizontal(
                    #[trigger] dst.pixel(x, y).spec_raw()[c],
                    line,
                    kernelx,
                    x,
                    lower,
                )
        }
}

/// Whether `dst` is the convolution of `src` with the product of a
/// horizontal and a vertical kernel, each channel by itself.
pub open spec fn is_conv2d<T: Pixel, F, L: Fn(F) -> T::Subpixel>(
    dst: ImageView<T>,
    src: ImageView<T>,
    kernelx: Seq<F>,
    kernely: Seq<F>,
    lower: L,
) -> bool where F: Default + From<T::Subpixel> + Add<Output = F> + Mul<Output = F> {
    forall|y: int, c: int|
        0 <= y < src.height && 0 <= c < T::spec_channels() ==> #[trigger] is_conv2d_row(
            dst,
            src,
            kernelx,
            kernely,
            lower,
            y,
            c,
        )
}

/// Whether every product and every sum of the two passes of a convolution
/// of `src` can be computed, whatever the steps before have given.
pub open spec fn conv2d_ok<T: Pixel, F>(src: ImageView<T>, kernelx: Seq<F>, kernely: Seq<F>) -> bool where
    F: Default + From<T::Subpixel> + Add<Output = F> + Mul<Output = F>,
 {
    &&& forall|x: int, y: int, c: int|
        0 <= x < src.width && 0 <= y < src.height && 0 <= c < T::spec_channels()
            ==> #[trigger] dot_ok(
            lifted_samples::<T::Subpixel, F>(spec_column(src, x, c)),
            src.height as int,
            kernely,
            y,
            kernely.len(),
        )
    &&& forall|line: Seq<F>, x: int, y: int, c: int|
        #![trigger is_vertical(line, src, kernely, y, c), dot_ok(plain_samples(line), line.len() as int, kernelx, x, kernelx.len())]
        0 <= x < src.width && 0 <= y < src.height && 0 <= c < T::spec_channels() && is_vertical(
            line,
            src,
            kernely,
            y,
            c,
        ) ==> dot_ok(plain_samples(line), line.len() as int, kernelx, x, kernelx.len())
}

/// The sum of the taps of `kernel` centred on row `y` of channel `c` of
/// column `x` of the picture.
fn dot_column<T, F>(src: &Image<T>, kernel: &[F], x: u32, y: u32, c: usize, zero: F) -> (s: F) where
    T: Pixel,
    F: Copy + Default + From<T::Subpixel> + Add<Output = F> + Mul<Output = F>,

    requires
        src.wf(),
        x < src@.width,
        y < src@.height,
        c < T::spec_channels(),
        is_zero(zero),
        dot_ok(
            lifted_samples::<T::Subpixel, F>(spec_column(src@, x as int, c as int)),
            src@.height as int,
            kernel@,
            y as int,
            kernel@.len(),
        ),
    ensures
        is_dot(
            lifted_samples::<T::Subpixel, F>(spec_column(src@, x as int, c as int)),
            src@.height as int,
            kernel@,
            y as int,
            kernel@.len(),
            s,
        ),
{
    let n = kernel.len();
    let height = src.height();
    let ghost samples = lifted_samples::<T::Subpixel, F>(spec_column(src@, x as int, c as int));
    let mut s = zero;
    for j in 0..n
        invariant
            src.wf(),
            x < src@.width,
            y < height,
            height == src@.height,
            c < T::spec_channels(),
            n == kernel@.len(),
            samples == lifted_samples::<T::Subpixel, F>(spec_column(src@, x as int, c as int)),
            dot_ok(samples, height as int, kernel@, y as int, n as nat),
            is_dot(samples, height as int, kernel@, y as int, j as nat, s),
    {
        let ghost before = s;
        proof {
            lemma_dot_ok_fewer(samples, height as int, kernel@, y as int, n as nat, (j + 1) as nat);
        }
        let yy = tap(y as usize, j, n, height as usize);
        let p = src.get(x, yy as u32);
        proof {
            p.lemma_raw_len();
        }
        let sample = F::from(p.raw()[c]);
        proof {
            assert(samples(yy as int, sample));
        }
        let product = sample * kernel[j];
        proof {
            assert(is_product(sample, kernel@[j as int], product));
        }
        s = s + product;
        proof {
            assert(is_sum(before, product, s));
        }
    }
    s
}

/// The sum of the taps of `kernel` centred on place `i` of a line of values
/// of `F`.
fn dot_plain<F>(row: &[F], kernel: &[F], i: usize, zero: F) -> (s: F) where
    F: Copy + Default + Add<Output = F> + Mul<Output = F>,

    requires
        i < row@.len(),
        is_zero(zero),
        dot_ok(plain_samples(row@), row@.len() as int, kernel@, i as int, kernel@.len()),
    ensures
        is_dot(plain_samples(row@), row@.len() as int, kernel@, i as int, kernel@.len(), s),
{
    let n = kernel.len();
    let w = row.len();
    let ghost samples = plain_samples(row@);
    let mut s = zero;
    for j in 0..n
        invariant
            i < w,
            w == row@.len(),
            n == kernel@.len(),
            samples == plain_samples(row@),
            dot_ok(samples, w as int, kernel@, i as int, n as nat),
            is_dot(samples, w as int, kernel@, i as int, j as nat, s),
    {
        let ghost before = s;
        proof {
            lemma_dot_ok_fewer(samples, w as int, kernel@, i as int, n as nat, (j + 1) as nat);
        }
        let xi = tap(i, j, n, w);
        let sample = row[xi];
        proof {
            assert(samples(xi as int, sample));
        }
        let product = sample * kernel[j];
        proof {
            assert(is_product(sample, kernel@[j as int], product));
        }
        s = s + product;
        proof {
            assert(is_sum(before, product, s));
        }
    }
    s
}

/// The convolution of a picture with a kernel that is the product of a
/// horizontal and a vertical one, in two passes for each row: first the
/// vertical kernel down each column, then the horizontal kernel along the
/// row that this gives. Each channel is convolved by itself. A sample beyond
/// an edge of the picture is the sample at that edge.
///
/// The sums are made in `F`, from its zero, in the order of the taps. Only
/// the sum of the second pass is turned into a subpixel, by `lower`.
pub fn conv2d_sep<T, F, L>(src: &Image<T>, kernelx: &[F], kernely: &[F], lower: L) -> (dst: Image<
    T,
>) where
    T: Pixel,
    F: Copy + Default + From<T::Subpixel> + Add<Output = F> + Mul<Output = F>,
    L: Fn(F) -> T::Subpixel,

    requires
        src.wf(),
        forall|v: F| call_requires(lower, (v,)),
        conv2d_ok::<T, F>(src@, kernelx@, kernely@),
    ensures
        dst.wf(),
        dst@.width == src@.width,
        dst@.height == src@.height,
        dst@.stride == src@.width,
        is_conv2d(dst@, src@, kernelx@, kernely@, lower),
{
    let width = src.width();
    let height = src.height();
    let channels = T::channels() as usize;
    let zero = F::default();
    let unset = <T::Subpixel as Default>::default();
    proof {
        T::lemma_kind();
        src.lemma_area_fits();
    }
    let mut dst: Image<T> = Image::new(width, height);
    for y in 0..height
        invariant
            src.wf(),
            dst.wf(),
            width == src@.width,
            height == src@.height,
            channels == T::spec_channels(),
            1 <= channels <= 4,
            dst@.width == width,
            dst@.height == height,
            dst@.stride == width,
            is_zero(zero),
            forall|v: F| call_requires(lower, (v,)),
            conv2d_ok::<T, F>(src@, kernelx@, kernely@),
            forall|j: int, c: int|
                0 <= j < y && 0 <= c < channels ==> #[trigger] is_conv2d_row(
                    dst@,
                    src@,
                    kernelx@,
                    kernely@,
                    lower,
                    j,
                    c,
                ),
    {
        // The vertical pass: one line for each channel of this row.
        let mut lines: Vec<Vec<F>> = Vec::with_capacity(channels);
        for c in 0..channels
            invariant
                src.wf(),
                y < height,
                width == src@.width,
                height == src@.height,
                channels == T::spec_channels(),
                is_zero(zero),
                conv2d_ok::<T, F>(src@, kernelx@, kernely@),
                lines@.len() == c,
                forall|d: int|
                    0 <= d < c ==> is_vertical((#[trigger] lines@[d])@, src@, kernely@, y as int, d),
        {
            let mut line: Vec<F> = Vec::with_capacity(width as usize);
            for x in 0..width
                invariant
                    src.wf(),
                    y < height,
                    c < channels,
                    width == src@.width,
                    height == src@.height,
                    channels == T::spec_channels(),
                    is_zero(zero),
                    conv2d_ok::<T, F>(src@, kernelx@, kernely@),
                    line@.len() == x,
                    forall|i: int|
                        0 <= i < x ==> is_dot(
                            lifted_samples::<T::Subpixel, F>(spec_column(src@, i, c as int)),
                            src@.height as int,
                            kernely@,
                            y as int,
                            kernely@.len(),
                            #[trigger] line@[i],
                        ),
            {
                let s = dot_column(src, kernely, x, y, c, zero);
                line.push(s);
            }
            lines.push(line);
        }
        // The horizontal pass, along what the vertical pass made.
        for x in 0..width
            invariant
                src.wf(),
                dst.wf(),
                y < height,
                width == src@.width,
                height == src@.height,
                channels == T::spec_channels(),
                1 <= channels <= 4,
                dst@.width == width,
                dst@.height == height,
                dst@.stride == width,
                is_zero(zero),
                forall|v: F| call_requires(lower, (v,)),
                conv2d_ok::<T, F>(src@, kernelx@, kernely@),
                lines@.len() == channels,
                forall|d: int|
                    0 <= d < channels ==> is_vertical(
                        (#[trigger] lines@[d])@,
                        src@,
                        kernely@,
                        y as int,
                        d,
                    ),
                forall|j: int, c: int|
                    0 <= j < y && 0 <= c < channels ==> #[trigger] is_conv2d_row(
                        dst@,
                        src@,
                        kernelx@,
                        kernely@,
                        lower,
                        j,
                        c,
                    ),
                forall|i: int, c: int|
                    0 <= i < x && 0 <= c < channels ==> is_horizontal(
                        #[trigger] dst@.pixel(i, y as int).spec_raw()[c],
                        lines@[c]@,
                        kernelx@,
                        i,
                        lower,
                    ),
        {
            let ghost before = dst@;
            let mut px: [T::Subpixel; 4] = [unset;4];
            for c in 0..channels
                invariant
                    x < width,
                    y < height,
                    width == src@.width,
                    height == src@.height,
                    channels == T::spec_channels(),
                    1 <= channels <= 4,
                    is_zero(zero),
                    forall|v: F| call_requires(lower, (v,)),
                    conv2d_ok::<T, F>(src@, kernelx@, kernely@),
                    lines@.len() == channels,
                    forall|d: int|
                        0 <= d < channels ==> is_vertical(
                            (#[trigger] lines@[d])@,
                            src@,
                            kernely@,
                            y as int,
                            d,
                        ),
                    forall|d: int|
                        0 <= d < c ==> is_horizontal(
                            #[trigger] px@[d],
                            lines@[d]@,
                            kernelx@,
                            x as int,
                            lower,
                        ),
            {
                let line = &lines[c];
                proof {
                    assert(is_vertical(lines@[c as int]@, src@, kernely@, y as int, c as int));
                    assert(dot_ok(
                        plain_samples(line@),
                        line@.len() as int,
                        kernelx@,
                        x as int,
                        kernelx@.len(),
                    ));
                }
                let sum = dot_plain(line.as_slice(), kernelx, x as usize, zero);
                let v = lower(sum);
                px[c] = v;
                proof {
                    assert(is_horizontal(v, line@, kernelx@, x as int, lower));
                }
            }
            let p = T::from_raw(vstd::slice::slice_subrange(px.as_slice(), 0, channels));
            proof {
                T::lemma_from_raw(px@.subrange(0, channels as int));
                before.lemma_with_pixel(x as int, y as int, p);
                assert forall|d: int| 0 <= d < channels implies p.spec_raw()[d] == px@[d] by {}
            }
            dst.put(x, y, p);
            proof {
                assert forall|j: int, c: int| 0 <= j < y && 0 <= c < channels implies #[trigger] is_conv2d_row(
                    dst@,
                    src@,
                    kernelx@,
                    kernely@,
                    lower,
                    j,
                    c,
                ) by {
                    lemma_conv2d_row_kept(before, dst@, src@, kernelx@, kernely@, lower, j, c);
                }
            }
        }
        proof {
            assert forall|c: int| 0 <= c < channels implies #[trigger] is_conv2d_row(
                dst@,
                src@,
                kernelx@,
                kernely@,
                lower,
                y as int,
                c,
            ) by {
                assert(is_vertical(lines@[c]@, src@, kernely@, y as int, c));
            }
        }
    }
    dst
}

/// A row of the convolution stays what it is while the pixels of the row
/// stay what they are.
proof fn lemma_conv2d_row_kept<T: Pixel, F, L: Fn(F) -> T::Subpixel>(
    before: ImageView<T>,
    after: ImageView<T>,
    src: ImageView<T>,
    kernelx: Seq<F>,
    kernely: Seq<F>,
    lower: L,
    y: int,
    c: int,
) where F: Default + From<T::Subpixel> + Add<Output = F> + Mul<Output = F>
    requires
        is_conv2d_row(before, src, kernelx, kernely, lower, y, c),
        forall|x: int| 0 <= x < src.width ==> #[trigger] after.pixel(x, y) == before.pixel(x, y),
    ensures
        is_conv2d_row(after, src, kernelx, kernely, lower, y, c),
{
    let line = choose|line: Seq<F>|
        {
            &&& #[trigger] is_vertical(line, src, kernely, y, c)
            &&& forall|x: int|
                0 <= x < src.width ==> is_horizontal(
                    #[trigger] before.pixel(x, y).spec_raw()[c],
                    line,
                    kernelx,
                    x,
                    lower,
                )
        };
    assert forall|x: int| 0 <= x < src.width implies is_horizontal(
        #[trigger] after.pixel(x, y).spec_raw()[c],
        line,
        kernelx,
        x,
        lower,
    ) by {
        assert(after.pixel(x, y) == before.pixel(x, y));
        assert(is_horizontal(before.pixel(x, y).spec_raw()[c], line, kernelx, x, lower));
    }
}

/// Whether `t` is the sum of the first `n` of the values, added up from the
/// zero of `F` in their order.
pub open spec fn is_total<F: Default + Add<Output = F>>(values: Seq<F>, n: nat, t: F) -> bool
    decreases n,
{
    if n == 0 {
        is_zero(t)
    } else {
        exists|before: F|
            is_total(values, (n - 1) as nat, before) && #[trigger] is_sum(before, values[n - 1], t)
    }
}

/// Whether every sum on the way to the sum of the first `n` values can be
/// computed, whatever the steps before have given.
pub open spec fn total_ok<F: Default + Add<Output = F>>(values: Seq<F>, n: nat) -> bool
    decreases n,
{
    n == 0 || {
        &&& total_ok(values, (n - 1) as nat)
        &&& forall|before: F| #[trigger]
            is_total(values, (n - 1) as nat, before) ==> can_add(before, values[n - 1])
    }
}

/// What can be added up for `n` values can be added up for fewer.
pub proof fn lemma_total_ok_fewer<F: Default + Add<Output = F>>(values: Seq<F>, n: nat, m: nat)
    requires
        total_ok(values, n),
        m <= n,
    ensures
        total_ok(values, m),
    decreases n,
{
    if m < n {
        lemma_total_ok_fewer(values, (n - 1) as nat, m);
    }
}

/// The number of taps of the first half of a kernel of `w` taps, the middle
/// tap of an odd kernel included.
pub open spec fn spec_half(w: nat) -> nat {
    (w + 1) / 2
}

/// The `w` taps of a symmetric kernel whose first half is `half`: the
/// second half is the first in reverse.
pub open spec fn spec_taps<F>(half: Seq<F>, w: nat) -> Seq<F> {
    Seq::new(
        w,
        |i: int|
            if i < spec_half(w) {
                half[i]
            } else {
                half[w - 1 - i]
            },
    )
}

/// The taps read the same from both ends.
pub proof fn lemma_taps_symmetric<F>(half: Seq<F>, w: nat, i: int)
    requires
        0 <= i < w,
    ensures
        spec_taps(half, w)[i] == spec_taps(half, w)[w - 1 - i],
{
}

/// Whether `half` holds what `falloff` says of the first half of a kernel of
/// `w` taps: tap `i` is the weight at the distance `spec_half(w) - i` from
/// the place behind the middle.
pub open spec fn is_half<F, W: Fn(usize) -> F>(half: Seq<F>, w: nat, falloff: W) -> bool {
    &&& half.len() == spec_half(w)
    &&& forall|i: int|
        0 <= i < half.len() ==> call_ensures(
            falloff,
            ((spec_half(w) - i) as usize,),
            #[trigger] half[i],
        )
}

/// Whether `k` is the kernel whose taps are in proportion to `taps`: each is
/// the quotient of the tap by `total`.
pub open spec fn is_scaled<F: Div<Output = F>>(k: Seq<F>, taps: Seq<F>, total: F) -> bool {
    &&& k.len() == taps.len()
    &&& forall|i: int| 0 <= i < taps.len() ==> is_quotient(taps[i], total, #[trigger] k[i])
}

/// Whether `k` is a symmetric kernel of `w` taps that fall off from the
/// middle as `falloff` says: the first half of the taps are the weights that
/// `falloff` gives, the second half is the first in reverse, and each tap
/// is divided by the sum of them all.
pub open spec fn is_kernel<F, W: Fn(usize) -> F>(k: Seq<F>, w: nat, falloff: W) -> bool where
    F: Default + Add<Output = F> + Div<Output = F>,
 {
    exists|half: Seq<F>, total: F|
        #![trigger is_half(half, w, falloff), is_total(spec_taps(half, w), w, total)]
        {
            &&& is_half(half, w, falloff)
            &&& is_total(spec_taps(half, w), w, total)
            &&& is_scaled(k, spec_taps(half, w), total)
        }
}

/// Whether the sum of the taps and the quotient of each tap by it can be
/// computed, whatever `falloff` says of the taps.
pub open spec fn kernel_ok<F, W: Fn(usize) -> F>(w: nat, falloff: W) -> bool where
    F: Default + Add<Output = F> + Div<Output = F>,
 {
    forall|half: Seq<F>| #[trigger]
        is_half(half, w, falloff) ==> {
            let taps = spec_taps(half, w);
            &&& total_ok(taps, w)
            &&& forall|total: F, i: int|
                #![trigger is_total(taps, w, total), taps[i]]
                is_total(taps, w, total) && 0 <= i < w ==> can_divide(taps[i], total)
        }
}

/// A symmetric kernel of `w` taps that fall off from the middle as
/// `falloff` says: tap `i` of the first half is the weight that `falloff`
/// gives for the distance `(w + 1) / 2 - i`, the second half is the first
/// in reverse, and each tap is then divided by the sum of them all, so
/// that in exact arithmetic the taps add up to one.
///
/// With the falloff of the bell curve this is the kernel of a Gaussian
/// blur. The sum of the taps is made from the zero of `F` in the order of
/// the taps.
pub fn gaussian_kernel<F, W>(w: usize, falloff: W) -> (k: Vec<F>) where
    F: Copy + Default + Add<Output = F> + Div<Output = F>,
    W: Fn(usize) -> F,

    requires
        w < usize::MAX,
        forall|t: usize| call_requires(falloff, (t,)),
        kernel_ok::<F, W>(w as nat, falloff),
    ensures
        k@.len() == w,
        is_kernel(k@, w as nat, falloff),
{
    let hw = (w + 1) / 2;
    let mut k: Vec<F> = Vec::with_capacity(w);
    let mut i: usize = 0;
    while i < hw
        invariant
            0 <= i <= hw,
            hw == spec_half(w as nat),
            hw <= w,
            k@.len() == i,
            forall|t: usize| call_requires(falloff, (t,)),
            forall|j: int|
                0 <= j < i ==> call_ensures(falloff, ((hw - j) as usize,), #[trigger] k@[j]),
        decreases hw - i,
    {
        let v = falloff(hw - i);
        k.push(v);
        i += 1;
    }
    let ghost half = k@;
    proof {
        assert(is_half(half, w as nat, falloff));
    }
    while i < w
        invariant
            hw <= i <= w,
            hw == spec_half(w as nat),
            half.len() == hw,
            k@.len() == i,
            forall|j: int| 0 <= j < i ==> #[trigger] k@[j] == spec_taps(half, w as nat)[j],
        decreases w - i,
    {
        let v = k[w - i - 1];
        k.push(v);
        i += 1;
    }
    let ghost taps = spec_taps(half, w as nat);
    proof {
        assert(k@ =~= taps);
    }
    let mut s = F::default();
    let mut i: usize = 0;
    while i < w
        invariant
            0 <= i <= w,
            k@ == taps,
            taps.len() == w,
            total_ok(taps, w as nat),
            is_total(taps, i as nat, s),
        decreases w - i,
    {
        let ghost before = s;
        proof {
            lemma_total_ok_fewer(taps, w as nat, (i + 1) as nat);
        }
        s = s + k[i];
        proof {
            assert(is_sum(before, taps[i as int], s));
        }
        i += 1;
    }
    let mut i: usize = 0;
    while i < w
        invariant
            0 <= i <= w,
            k@.len() == w,
            taps.len() == w,
            taps == spec_taps(half, w as nat),
            is_half(half, w as nat, falloff),
            is_total(taps, w as nat, s),
            kernel_ok::<F, W>(w as nat, falloff),
            forall|j: int| i <= j < w ==> #[trigger] k@[j] == taps[j],
            forall|j: int| 0 <= j < i ==> is_quotient(taps[j], s, #[trigger] k@[j]),
        decreases w - i,
    {
        proof {
            assert(can_divide(taps[i as int], s));
        }
        let v = k[i] / s;
        k[i] = v;
        i += 1;
    }
    proof {
        assert(is_scaled(k@, taps, s));
    }
    k
}

/// Whether `dst` is `src` blurred with a kernel of `kernel_width` taps that
/// fall off from the middle as `falloff` says, along both axes.
pub open spec fn is_blurred<T: Pixel, F, W: Fn(usize) -> F, L: Fn(F) -> T::Subpixel>(
    dst: ImageView<T>,
    src: ImageView<T>,
    kernel_width: nat,
    falloff: W,
    lower: L,
) -> bool where F: Default + From<T::Subpixel> + Add<Output = F> + Mul<Output = F> + Div<Output = F> {
    exists|k: Seq<F>| #[trigger]
        is_kernel(k, kernel_width, falloff) && is_conv2d(dst, src, k, k, lower)
}

/// Whether the kernel of a blur and the blur itself can be computed,
/// whatever `falloff` says of the taps.
pub open spec fn blur_ok<T: Pixel, F, W: Fn(usize) -> F>(
    src: ImageView<T>,
    kernel_width: nat,
    falloff: W,
) -> bool where F: Default + From<T::Subpixel> + Add<Output = F> + Mul<Output = F> + Div<Output = F> {
    &&& kernel_ok::<F, W>(kernel_width, falloff)
    &&& forall|k: Seq<F>| #[trigger]
        is_kernel(k, kernel_width, falloff) ==> conv2d_ok::<T, F>(src, k, k)
}

/// A new image: `src` blurred with the symmetric kernel of `kernel_width`
/// taps that `gaussian_kernel` makes of `falloff`, along both axes.
pub fn gaussian_blur<T, F, W, L>(src: &Image<T>, kernel_width: usize, falloff: W, lower: L) -> (dst:
    Image<T>) where
    T: Pixel,
    F: Copy + Default + From<T::Subpixel> + Add<Output = F> + Mul<Output = F> + Div<Output = F>,
    W: Fn(usize) -> F,
    L: Fn(F) -> T::Subpixel,

    requires
        src.wf(),
        1 <= kernel_width < usize::MAX,
        forall|t: usize| call_requires(falloff, (t,)),
        forall|v: F| call_requires(lower, (v,)),
        blur_ok::<T, F, W>(src@, kernel_width as nat, falloff),
    ensures
        dst.wf(),
        dst@.width == src@.width,
        dst@.height == src@.height,
        dst@.stride == src@.width,
        is_blurred(dst@, src@, kernel_width as nat, falloff, lower),
{
    let k = gaussian_kernel(kernel_width, falloff);
    let dst = conv2d_sep(src, k.as_slice(), k.as_slice(), lower);
    proof {
        assert(is_kernel(k@, kernel_width as nat, falloff));
    }
    dst
}

} // verus!
