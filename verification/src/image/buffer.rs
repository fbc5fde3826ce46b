//! The image: a buffer of pixels, row after row, with its size.
use vstd::prelude::*;
use vstd::slice::{slice_subrange, slice_to_vec};
use crate::image::pixel::{Pixel, is_zero_pixel};
use crate::image::ImageError;
use crate::traits::{Primitive, lemma_named_values, spec_max_value};

verus! {

/// What an image is: its size, the number of pixels that a row takes in
/// memory, and the pixels, row after row.
pub struct ImageView<T> {
    pub width: nat,
    pub height: nat,
    pub stride: nat,
    pub data: Seq<T>,
}

impl<T> ImageView<T> {
    /// A row takes at least `width` pixels, and the buffer holds `height`
    /// rows.
    pub open spec fn wf(self) -> bool {
        &&& self.width <= self.stride
        &&& self.data.len() == self.stride * self.height
    }

    /// The place of the pixel of column `x` and row `y` in the buffer.
    pub open spec fn offset(self, x: int, y: int) -> int {
        y * self.stride + x
    }

    /// The pixel of column `x` and row `y`.
    pub open spec fn pixel(self, x: int, y: int) -> T {
        self.data[self.offset(x, y)]
    }

    /// Row `r` as it lies in memory: `stride` pixels, of which the first
    /// `width` belong to the picture.
    pub open spec fn row(self, r: int) -> Seq<T> {
        self.data.subrange(r * self.stride, r * self.stride + self.stride)
    }

    /// The image with `row` in the place of row `r`.
    pub open spec fn with_row(self, r: int, row: Seq<T>) -> ImageView<T> {
        ImageView {
            data: self.data.subrange(0, r * self.stride) + row + self.data.subrange(
                r * self.stride + self.stride,
                self.data.len() as int,
            ),
            ..self
        }
    }

    /// The image with `v` in the place of the pixel of column `x` and row `y`.
    pub open spec fn with_pixel(self, x: int, y: int, v: T) -> ImageView<T> {
        ImageView { data: self.data.update(self.offset(x, y), v), ..self }
    }

    /// Whether the two images show the same picture: they have the same
    /// size, and the same pixel in every column and row. What lies in a row
    /// beyond the width does not count.
    pub open spec fn same_picture(self, other: ImageView<T>) -> bool {
        &&& self.width == other.width
        &&& self.height == other.height
        &&& forall|x: int, y: int|
            0 <= x < self.width && 0 <= y < self.height ==> #[trigger] self.pixel(x, y)
                == other.pixel(x, y)
    }

    /// Distinct columns and rows have distinct places in the buffer, all of
    /// them within it.
    pub proof fn lemma_offset(self, x: int, y: int)
        requires
            self.wf(),
            0 <= x < self.stride,
            0 <= y < self.height,
        ensures
            0 <= self.offset(x, y) < self.data.len(),
            self.offset(x, y) / (self.stride as int) == y,
            self.offset(x, y) % (self.stride as int) == x,
    {
        lemma_row_in_bounds(y, self.stride as int, self.height as int);
        vstd::arithmetic::div_mod::lemma_fundamental_div_mod_converse(
            self.offset(x, y),
            self.stride as int,
            y,
            x,
        );
    }

    /// Row `y` holds `stride` pixels, and its pixel `x` is the pixel of
    /// column `x` and row `y`.
    pub proof fn lemma_row(self, y: int)
        requires
            self.wf(),
            0 <= y < self.height,
        ensures
            self.row(y).len() == self.stride,
            0 <= y * self.stride,
            y * self.stride + self.stride <= self.data.len(),
            forall|x: int| 0 <= x < self.stride ==> #[trigger] self.row(y)[x] == self.pixel(x, y),
    {
        lemma_row_in_bounds(y, self.stride as int, self.height as int);
    }

    /// Two images of which a row takes no more pixels than it is wide, and
    /// which show the same picture, are the same image.
    pub proof fn lemma_same_picture_packed(self, other: ImageView<T>)
        requires
            self.wf(),
            other.wf(),
            self.same_picture(other),
            self.stride == self.width,
            other.stride == other.width,
        ensures
            self == other,
    {
        assert(self.data.len() == other.data.len());
        assert forall|k: int| 0 <= k < self.data.len() implies self.data[k] == other.data[k] by {
            let w = self.width as int;
            assert(w != 0) by (nonlinear_arith)
                requires
                    0 <= k < w * self.height,
            ;
            let (x, y) = (k % w, k / w);
            vstd::arithmetic::div_mod::lemma_fundamental_div_mod(k, w);
            vstd::arithmetic::div_mod::lemma_div_pos_is_pos(k, w);
            vstd::arithmetic::div_mod::lemma_mod_bound(k, w);
            assert(y < self.height) by (nonlinear_arith)
                requires
                    k < w * self.height,
                    k == w * y + x,
                    0 <= x < w,
            ;
            assert(w * y == y * w) by (nonlinear_arith);
            assert(self.pixel(x, y) == other.pixel(x, y));
        }
        assert(self.data =~= other.data);
    }

    /// Putting a pixel in place changes that pixel and no other.
    pub proof fn lemma_with_pixel(self, x: int, y: int, v: T)
        requires
            self.wf(),
            0 <= x < self.stride,
            0 <= y < self.height,
        ensures
            self.with_pixel(x, y, v).wf(),
            self.with_pixel(x, y, v).pixel(x, y) == v,
            forall|i: int, j: int|
                0 <= i < self.stride && 0 <= j < self.height && (i != x || j != y)
                    ==> #[trigger] self.with_pixel(x, y, v).pixel(i, j) == self.pixel(i, j),
    {
        self.lemma_offset(x, y);
        assert forall|i: int, j: int|
            0 <= i < self.stride && 0 <= j < self.height && (i != x || j != y)
            implies #[trigger] self.with_pixel(x, y, v).pixel(i, j) == self.pixel(i, j) by {
            self.lemma_offset(i, j);
        }
    }

    /// Putting a row in place changes that row and no other.
    pub proof fn lemma_with_row(self, r: int, row: Seq<T>)
        requires
            self.wf(),
            0 <= r < self.height,
            row.len() == self.stride,
        ensures
            self.with_row(r, row).wf(),
            self.with_row(r, row).row(r) == row,
            forall|x: int|
                0 <= x < self.stride ==> #[trigger] self.with_row(r, row).pixel(x, r) == row[x],
            forall|x: int, y: int|
                0 <= x < self.stride && 0 <= y < self.height && y != r
                    ==> #[trigger] self.with_row(r, row).pixel(x, y) == self.pixel(x, y),
    {
        let out = self.with_row(r, row);
        let s = self.stride as int;
        lemma_row_in_bounds(r, s, self.height as int);
        assert(out.row(r) =~= row);
        assert forall|x: int, y: int|
            0 <= x < self.stride && 0 <= y < self.height && y != r implies #[trigger] out.pixel(
            x,
            y,
        ) == self.pixel(x, y) by {
            lemma_row_in_bounds(y, s, self.height as int);
            if y < r {
                assert(y * s + s <= r * s) by (nonlinear_arith)
                    requires
                        y + 1 <= r,
                        0 <= s,
                ;
            } else {
                assert(r * s + s <= y * s) by (nonlinear_arith)
                    requires
                        r + 1 <= y,
                        0 <= s,
                ;
            }
        }
    }
}

/// Row `y` of `height` rows of `stride` pixels lies within the buffer.
pub proof fn lemma_row_in_bounds(y: int, stride: int, height: int)
    requires
        0 <= y < height,
        0 <= stride,
    ensures
        0 <= y * stride,
        y * stride + stride <= stride * height,
{
    assert(0 <= y * stride) by (nonlinear_arith)
        requires
            0 <= y,
            0 <= stride,
    ;
    assert(y * stride + stride <= stride * height) by (nonlinear_arith)
        requires
            y + 1 <= height,
            0 <= stride,
    ;
}

/// An image of pixels of one kind.
pub trait GenericImage {
    type Pixel: Pixel;
}

impl<T: Pixel> GenericImage for Image<T> {
    type Pixel = T;
}

/// A picture: `height` rows of `width` pixels of one kind, held in one
/// buffer in which a row takes `stride` pixels.
#[derive(Debug)]
pub struct Image<T: Pixel> {
    w: u32,
    h: u32,
    stride: u32,
    data: Vec<T>,
}

impl<T: Pixel> View for Image<T> {
    type V = ImageView<T>;

    closed spec fn view(&self) -> ImageView<T> {
        ImageView {
            width: self.w as nat,
            height: self.h as nat,
            stride: self.stride as nat,
            data: self.data@,
        }
    }
}

impl<T: Pixel> Image<T> {
    /// The buffer holds what the sizes say, and the sizes fit in 32 bits.
    pub open spec fn wf(&self) -> bool {
        &&& self@.wf()
        &&& self@.width <= u32::MAX
        &&& self@.height <= u32::MAX
        &&& self@.stride <= u32::MAX
        &&& self@.data.len() <= usize::MAX
    }

    /// An image of the same number of pixels, of whatever pixel kind, is
    /// within what the machine can address.
    pub proof fn lemma_area_fits(&self)
        requires
            self.wf(),
        ensures
            self@.width * self@.height <= usize::MAX,
            self@.height * self@.width <= usize::MAX,
    {
        assert(self@.width * self@.height <= self@.stride * self@.height) by (nonlinear_arith)
            requires
                self@.width <= self@.stride,
                0 <= self@.height,
        ;
        assert(self@.height * self@.width == self@.width * self@.height) by (nonlinear_arith);
    }

    /// An image of the given size in which a row takes `width` pixels, and
    /// every pixel is zero.
    pub fn new(width: u32, height: u32) -> (img: Image<T>)
        requires
            width * height <= usize::MAX,
        ensures
            img.wf(),
            img@.width == width,
            img@.height == height,
            img@.stride == width,
            forall|i: int| 0 <= i < img@.data.len() ==> is_zero_pixel(#[trigger] img@.data[i]),
    {
        let len = (width as usize) * (height as usize);
        let z = T::zero();
        let mut data: Vec<T> = Vec::with_capacity(len);
        let mut i: usize = 0;
        while i < len
            invariant
                0 <= i <= len,
                data@.len() == i,
                is_zero_pixel(z),
                forall|k: int| 0 <= k < i ==> data@[k] == z,
            decreases len - i,
        {
            data.push(z);
            i += 1;
        }
        Image { w: width, h: height, stride: width, data }
    }

    pub fn width(&self) -> (w: u32)
        ensures
            w == self@.width,
    {
        self.w
    }

    pub fn height(&self) -> (h: u32)
        ensures
            h == self@.height,
    {
        self.h
    }

    pub fn size(&self) -> (s: (u32, u32))
        ensures
            s.0 == self@.width,
            s.1 == self@.height,
    {
        (self.w, self.h)
    }

    /// The number of pixels that a row takes in memory.
    pub fn stride(&self) -> (s: u32)
        ensures
            s == self@.stride,
    {
        self.stride
    }

    /// The number of bytes that a row of one-byte channels takes in memory.
    pub fn pitch(&self) -> (p: u32)
        requires
            self@.stride * T::spec_channels() <= u32::MAX,
        ensures
            p == self@.stride * T::spec_channels(),
    {
        proof {
            T::lemma_kind();
        }
        let c: u32 = (T::bits_per_pixel() / 8) as u32;
        assert(c == T::spec_channels());
        self.stride * c
    }

    /// The whole buffer, row after row.
    pub fn pixels(&self) -> (s: &[T])
        ensures
            s@ == self@.data,
    {
        self.data.as_slice()
    }

    /// The whole buffer, row after row, to be written in place.
    pub fn pixels_mut(&mut self) -> (s: &mut [T])
        ensures
            s@ == old(self)@.data,
            final(self)@ == (ImageView { data: final(s)@, ..old(self)@ }),
            old(self).wf() && final(s)@.len() == s@.len() ==> final(self).wf(),
    {
        self.data.as_mut_slice()
    }

    pub fn channels(&self) -> (n: u8)
        ensures
            n == T::spec_channels(),
    {
        T::channels()
    }

    pub fn bits_per_pixel(&self) -> (n: u8)
        ensures
            n == 8 * T::spec_channels(),
    {
        T::bits_per_pixel()
    }

    /// The index of the alpha channel, or -1 where the pixel kind has none.
    pub fn alpha(&self) -> (a: isize)
        ensures
            a == T::spec_alpha(),
    {
        T::alpha()
    }

    pub fn has_alpha() -> (b: bool)
        ensures
            b == (T::spec_alpha() >= 0),
    {
        T::alpha() >= 0
    }

    /// The number of channels that a row takes in memory.
    pub fn bytes_per_row(&self) -> (n: usize)
        requires
            self@.stride * T::spec_channels() <= usize::MAX,
        ensures
            n == self@.stride * T::spec_channels(),
    {
        proof {
            T::lemma_kind();
        }
        let c: usize = (T::bits_per_pixel() / 8) as usize;
        assert(c == T::spec_channels());
        (self.stride as usize) * c
    }

    /// Row `r` as it lies in memory.
    pub fn row(&self, r: u32) -> (s: &[T])
        requires
            self.wf(),
            r < self@.height,
        ensures
            s@ == self@.row(r as int),
            s@.len() == self@.stride,
    {
        proof {
            lemma_row_in_bounds(r as int, self.stride as int, self.h as int);
            assert(self.data.len() == self.stride * self.h);
        }
        let start = (r as usize) * (self.stride as usize);
        slice_subrange(self.data.as_slice(), start, start + self.stride as usize)
    }

    /// Row `r` as it lies in memory, to be written in place.
    pub fn row_mut(&mut self, r: u32) -> (s: &mut [T])
        requires
            old(self).wf(),
            r < old(self)@.height,
        ensures
            s@ == old(self)@.row(r as int),
            s@.len() == old(self)@.stride,
            final(self)@ == old(self)@.with_row(r as int, final(s)@),
            final(s)@.len() == s@.len() ==> final(self).wf(),
    {
        proof {
            lemma_row_in_bounds(r as int, self.stride as int, self.h as int);
            assert(self.data.len() == self.stride * self.h);
        }
        let start = (r as usize) * (self.stride as usize);
        let n = self.stride as usize;
        let (head, tail) = self.data.as_mut_slice().split_at_mut(start);
        let (row, rest) = tail.split_at_mut(n);
        proof {
            let a = old(self)@.data.subrange(0, start as int);
            let c = old(self)@.data.subrange(start + n, old(self)@.data.len() as int);
            assert(head@ =~= a);
            assert(rest@ =~= c);
            assert((a + final(row)@) + c =~= a + (final(row)@ + c));
        }
        row
    }

    /// The pixel of column `x` and row `y`.
    pub fn get(&self, x: u32, y: u32) -> (p: T)
        requires
            self.wf(),
            x < self@.stride,
            y < self@.height,
        ensures
            p == self@.pixel(x as int, y as int),
    {
        proof {
            lemma_row_in_bounds(y as int, self.stride as int, self.h as int);
            assert(self.data.len() == self.stride * self.h);
        }
        let off = (y as usize) * (self.stride as usize) + (x as usize);
        self.data[off]
    }

    /// Writes `v` to column `x` of row `y`.
    pub fn put(&mut self, x: u32, y: u32, v: T)
        requires
            old(self).wf(),
            x < old(self)@.stride,
            y < old(self)@.height,
        ensures
            final(self).wf(),
            final(self)@ == old(self)@.with_pixel(x as int, y as int, v),
    {
        proof {
            lemma_row_in_bounds(y as int, self.stride as int, self.h as int);
            assert(self.data.len() == self.stride * self.h);
        }
        let off = (y as usize) * (self.stride as usize) + (x as usize);
        self.data[off] = v;
    }
}

impl<T: Pixel> Image<T> {
    /// Overwrites every pixel of the buffer with `v`, what lies in a row
    /// beyond the width too.
    pub fn fill(&mut self, v: &T)
        ensures
            final(self)@ == (ImageView {
                data: Seq::new(old(self)@.data.len(), |i: int| *v),
                ..old(self)@
            }),
            old(self).wf() ==> final(self).wf(),
    {
        let n = self.data.len();
        let mut i: usize = 0;
        while i < n
            invariant
                0 <= i <= n,
                self.w == old(self).w,
                self.h == old(self).h,
                self.stride == old(self).stride,
                self.data@.len() == n,
                n == old(self).data@.len(),
                forall|k: int| 0 <= k < i ==> self.data@[k] == *v,
            decreases n - i,
        {
            self.data[i] = *v;
            i += 1;
        }
        assert(self.data@ =~= Seq::new(old(self)@.data.len(), |i: int| *v));
    }

    /// Overwrites channel `ch_idx` of every pixel of the buffer with `v`.
    pub fn fill_channel(&mut self, ch_idx: usize, v: T::Subpixel)
        requires
            ch_idx < T::spec_channels(),
        ensures
            final(self)@.width == old(self)@.width,
            final(self)@.height == old(self)@.height,
            final(self)@.stride == old(self)@.stride,
            final(self)@.data.len() == old(self)@.data.len(),
            forall|i: int|
                0 <= i < old(self)@.data.len() ==> (#[trigger] final(self)@.data[i]).spec_raw()
                    == old(self)@.data[i].spec_raw().update(ch_idx as int, v),
            old(self).wf() ==> final(self).wf(),
    {
        let n = self.data.len();
        let mut i: usize = 0;
        while i < n
            invariant
                0 <= i <= n,
                ch_idx < T::spec_channels(),
                self.w == old(self).w,
                self.h == old(self).h,
                self.stride == old(self).stride,
                self.data@.len() == n,
                n == old(self).data@.len(),
                forall|k: int|
                    0 <= k < i ==> (#[trigger] self.data@[k]).spec_raw() == old(
                        self,
                    ).data@[k].spec_raw().update(ch_idx as int, v),
                forall|k: int| i <= k < n ==> self.data@[k] == old(self).data@[k],
            decreases n - i,
        {
            let mut p = self.data[i];
            proof {
                p.lemma_raw_len();
            }
            let r = p.raw_mut();
            r[ch_idx] = v;
            self.data[i] = p;
            i += 1;
        }
    }

    /// Overwrites every pixel of the buffer with the zero pixel.
    pub fn zero(&mut self)
        ensures
            final(self)@.width == old(self)@.width,
            final(self)@.height == old(self)@.height,
            final(self)@.stride == old(self)@.stride,
            final(self)@.data.len() == old(self)@.data.len(),
            forall|i: int|
                0 <= i < final(self)@.data.len() ==> is_zero_pixel(#[trigger] final(self)@.data[i]),
            old(self).wf() ==> final(self).wf(),
    {
        let z = T::zero();
        self.fill(&z)
    }

    /// A copy of the channels of the whole buffer, pixel after pixel.
    pub fn raw(&self) -> (r: Vec<T::Subpixel>)
        ensures
            r@ == spec_raw(self@.data),
            r@.len() == self@.data.len() * T::spec_channels(),
    {
        proof {
            lemma_spec_raw(self@.data);
        }
        let n = self.data.len();
        let mut out: Vec<T::Subpixel> = Vec::new();
        let mut i: usize = 0;
        while i < n
            invariant
                0 <= i <= n,
                n == self.data@.len(),
                out@ == spec_raw(self.data@.subrange(0, i as int)),
            decreases n - i,
        {
            let p = &self.data[i];
            let ch = p.raw();
            let ghost before = out@;
            let mut c: usize = 0;
            proof {
                p.lemma_raw_len();
            }
            while c < ch.len()
                invariant
                    0 <= c <= ch@.len(),
                    out@ == before + ch@.subrange(0, c as int),
                decreases ch@.len() - c,
            {
                out.push(ch[c]);
                proof {
                    assert(ch@.subrange(0, c + 1) =~= ch@.subrange(0, c as int).push(ch@[c as int]));
                }
                c += 1;
            }
            proof {
                assert(ch@.subrange(0, c as int) =~= ch@);
                lemma_spec_raw_push(self.data@.subrange(0, i as int), self.data@[i as int]);
                assert(self.data@.subrange(0, i + 1) =~= self.data@.subrange(0, i as int).push(
                    self.data@[i as int],
                ));
            }
            i += 1;
        }
        assert(self.data@.subrange(0, n as int) =~= self.data@);
        out
    }

    /// Overwrites the whole buffer with the channels in `raw`, pixel after
    /// pixel.
    pub fn raw_mut(&mut self, raw: &[T::Subpixel])
        requires
            raw@.len() == old(self)@.data.len() * T::spec_channels(),
        ensures
            final(self)@ == (ImageView { data: spec_pixels(raw@), ..old(self)@ }),
            old(self).wf() ==> final(self).wf(),
    {
        proof {
            T::lemma_kind();
        }
        let n = self.data.len();
        let ch = T::channels() as usize;
        let mut i: usize = 0;
        while i < n
            invariant
                0 <= i <= n,
                ch == T::spec_channels(),
                1 <= ch <= 4,
                raw@.len() == n * ch,
                self.w == old(self).w,
                self.h == old(self).h,
                self.stride == old(self).stride,
                self.data@.len() == n,
                n == old(self).data@.len(),
                forall|k: int| 0 <= k < i ==> self.data@[k] == spec_pixels::<T>(raw@)[k],
            decreases n - i,
        {
            proof {
                assert(0 <= i * ch && i * ch + ch <= n * ch && (i + 1) * ch == i * ch + ch)
                    by (nonlinear_arith)
                    requires
                        0 <= i,
                        i + 1 <= n,
                        0 <= ch,
                ;
                assert(raw.len() == n * ch);
                lemma_spec_pixels_len::<T>(raw@);
                assert((n * ch) as int / (ch as int) == n) by (nonlinear_arith)
                    requires
                        ch > 0,
                        n >= 0,
                ;
            }
            self.data[i] = T::from_raw(slice_subrange(raw, i * ch, i * ch + ch));
            i += 1;
        }
        proof {
            lemma_spec_pixels_len::<T>(raw@);
            assert((n * ch) as int / (ch as int) == n) by (nonlinear_arith)
                requires
                    ch > 0,
                    n >= 0,
            ;
            assert(self.data@ =~= spec_pixels::<T>(raw@));
        }
    }
}

/// The channels of a sequence of pixels, pixel after pixel.
pub open spec fn spec_raw<T: Pixel>(data: Seq<T>) -> Seq<T::Subpixel>
    decreases data.len(),
{
    if data.len() == 0 {
        Seq::empty()
    } else {
        spec_raw(data.drop_last()) + data.last().spec_raw()
    }
}

/// The pixels that a sequence of channels holds, pixel after pixel; channels
/// at the end that do not make up a whole pixel are left out.
pub open spec fn spec_pixels<T: Pixel>(raw: Seq<T::Subpixel>) -> Seq<T> {
    Seq::new(
        raw.len() / T::spec_channels(),
        |i: int|
            T::spec_from_raw(raw.subrange(i * T::spec_channels(), (i + 1) * T::spec_channels())),
    )
}

/// The channels of a sequence of pixels and one more pixel are the channels
/// of the sequence and then those of the pixel.
pub proof fn lemma_spec_raw_push<T: Pixel>(data: Seq<T>, p: T)
    ensures
        spec_raw(data.push(p)) == spec_raw(data) + p.spec_raw(),
{
    assert(data.push(p).drop_last() =~= data);
}

/// The channels of a sequence of pixels are as many as the pixels have
/// together.
pub proof fn lemma_spec_raw<T: Pixel>(data: Seq<T>)
    ensures
        spec_raw(data).len() == data.len() * T::spec_channels(),
    decreases data.len(),
{
    let ch = T::spec_channels() as int;
    if data.len() > 0 {
        let init = data.drop_last();
        let n = init.len() as int;
        lemma_spec_raw(init);
        data.last().lemma_raw_len();
        assert((n + 1) * ch == n * ch + ch) by (nonlinear_arith);
    } else {
        assert(0 * ch == 0);
    }
}

/// Channel `c` of pixel `i` of a sequence of pixels is at the place
/// `i * channels + c` of its channels.
pub proof fn lemma_spec_raw_index<T: Pixel>(data: Seq<T>, i: int, c: int)
    requires
        0 <= i < data.len(),
        0 <= c < T::spec_channels(),
    ensures
        0 <= i * T::spec_channels() + c < spec_raw(data).len(),
        spec_raw(data)[i * T::spec_channels() + c] == data[i].spec_raw()[c],
    decreases data.len(),
{
    let ch = T::spec_channels() as int;
    let init = data.drop_last();
    let n = init.len() as int;
    lemma_spec_raw(init);
    lemma_spec_raw(data);
    data.last().lemma_raw_len();
    assert((n + 1) * ch == n * ch + ch) by (nonlinear_arith);
    assert(0 <= i * ch && i * ch + ch <= n * ch + ch) by (nonlinear_arith)
        requires
            0 <= i <= n,
            ch >= 0,
    ;
    if i < n {
        assert(i * ch + ch <= n * ch) by (nonlinear_arith)
            requires
                i + 1 <= n,
                ch >= 0,
        ;
        lemma_spec_raw_index(init, i, c);
    }
}

/// What `raw` hands out, `raw_mut` takes back: the pixels that the channels
/// of a sequence of pixels hold are these pixels.
pub proof fn lemma_raw_then_pixels<T: Pixel>(data: Seq<T>)
    ensures
        spec_pixels::<T>(spec_raw(data)) == data,
{
    let ch = T::spec_channels() as int;
    let raw = spec_raw(data);
    T::lemma_kind();
    lemma_spec_raw(data);
    lemma_spec_pixels_len::<T>(raw);
    assert((data.len() * ch) / ch == data.len()) by (nonlinear_arith)
        requires
            ch > 0,
    ;
    assert forall|i: int| 0 <= i < data.len() implies spec_pixels::<T>(raw)[i] == data[i] by {
        let part = raw.subrange(i * ch, (i + 1) * ch);
        assert((i + 1) * ch == i * ch + ch) by (nonlinear_arith);
        assert(0 <= i * ch && i * ch + ch <= data.len() * ch) by (nonlinear_arith)
            requires
                0 <= i,
                i + 1 <= data.len(),
                ch >= 0,
        ;
        data[i].lemma_raw_len();
        assert(part =~= data[i].spec_raw()) by {
            assert forall|c: int| 0 <= c < ch implies part[c] == data[i].spec_raw()[c] by {
                lemma_spec_raw_index(data, i, c);
            }
        }
        T::lemma_from_raw(part);
        assert(part.subrange(0, ch) =~= part);
        T::spec_from_raw(part).lemma_raw_injective(data[i]);
    }
    assert(spec_pixels::<T>(raw) =~= data);
}

/// The number of whole pixels in a sequence of channels.
pub proof fn lemma_spec_pixels_len<T: Pixel>(raw: Seq<T::Subpixel>)
    ensures
        spec_pixels::<T>(raw).len() == raw.len() / T::spec_channels(),
        T::spec_channels() > 0,
{
    T::lemma_kind();
    assert(raw.len() as int / T::spec_channels() as int >= 0) by (nonlinear_arith)
        requires
            raw.len() >= 0,
            T::spec_channels() > 0,
    ;
}

impl<T: Pixel> Image<T> where T::Subpixel: Primitive {
    /// Makes every pixel of the buffer opaque: where the pixel kind has an
    /// alpha channel, overwrites it with the greatest value of the subpixel
    /// type. An image of a kind without alpha stays as it is.
    pub fn set_alpha(&mut self)
        ensures
            final(self)@.width == old(self)@.width,
            final(self)@.height == old(self)@.height,
            final(self)@.stride == old(self)@.stride,
            final(self)@.data.len() == old(self)@.data.len(),
            T::spec_alpha() < 0 ==> final(self)@ == old(self)@,
            T::spec_alpha() >= 0 ==> forall|i: int|
                0 <= i < old(self)@.data.len() ==> (#[trigger] final(self)@.data[i]).spec_raw()
                    == old(self)@.data[i].spec_raw().update(
                    T::spec_alpha(),
                    spec_max_value::<T::Subpixel>(),
                ),
            old(self).wf() ==> final(self).wf(),
    {
        proof {
            T::lemma_kind();
        }
        if Image::<T>::has_alpha() {
            let m = <T::Subpixel as Primitive>::max_value();
            proof {
                lemma_named_values(m);
            }
            self.fill_channel(T::alpha() as usize, m);
        }
    }
}

impl<T: Pixel<Subpixel = u8>> Image<T> {
    /// Whether a buffer of `len` bytes holds `height` rows of `stride`
    /// pixels, and a row is no wider than it is long.
    pub open spec fn raw_fits(len: nat, width: u32, height: u32, stride: u32) -> bool {
        width <= stride && height * stride * T::spec_channels() <= len
    }

    /// The image of the given size whose pixels are read from `data`, in
    /// which a row takes `stride` pixels of one byte for each channel. In
    /// the image itself a row takes `width` pixels.
    ///
    /// Fails with `OutOfMemoryError` where a row is said to take fewer
    /// pixels than it is wide, or `data` is shorter than the rows.
    pub fn from_raw(data: &[u8], width: u32, height: u32, stride: u32) -> (r: Result<
        Image<T>,
        ImageError,
    >)
        ensures
            r is Ok <==> Self::raw_fits(data@.len(), width, height, stride),
            r is Err ==> r == Err::<Image<T>, ImageError>(ImageError::OutOfMemoryError),
            r is Ok ==> {
                let img = r->Ok_0;
                &&& img.wf()
                &&& img@.width == width
                &&& img@.height == height
                &&& img@.stride == width
                &&& forall|x: int, y: int|
                    0 <= x < width && 0 <= y < height ==> #[trigger] img@.pixel(x, y)
                        == T::spec_from_raw(
                        data@.subrange(
                            (y * stride + x) * T::spec_channels(),
                            (y * stride + x + 1) * T::spec_channels(),
                        ),
                    )
            },
    {
        proof {
            T::lemma_kind();
        }
        if stride < width {
            return Err(ImageError::OutOfMemoryError);
        }
        let ch = T::channels() as usize;
        proof {
            assert(0 <= height * stride <= 0xffff_ffff * 0xffff_ffff) by (nonlinear_arith)
                requires
                    0 <= height <= 0xffff_ffff,
                    0 <= stride <= 0xffff_ffff,
            ;
        }
        let rows: u64 = (height as u64) * (stride as u64);
        proof {
            assert((rows * ch <= data@.len()) <==> rows <= data@.len() / (ch as nat))
                by (nonlinear_arith)
                requires
                    ch > 0,
            ;
            assert(height * stride * T::spec_channels() == rows * ch);
        }
        if rows > (data.len() / ch) as u64 {
            return Err(ImageError::OutOfMemoryError);
        }
        proof {
            assert(width * height <= height * stride) by (nonlinear_arith)
                requires
                    width <= stride,
                    0 <= height,
            ;
            assert(rows <= rows * ch) by (nonlinear_arith)
                requires
                    ch >= 1,
                    rows >= 0,
            ;
        }
        let mut img = Image::<T>::new(width, height);
        for y in 0..height
            invariant
                img.wf(),
                img@.width == width,
                img@.height == height,
                img@.stride == width,
                width <= stride,
                ch == T::spec_channels(),
                1 <= ch <= 4,
                rows == height * stride,
                rows * ch <= data@.len(),
                forall|i: int, j: int|
                    0 <= i < width && 0 <= j < y ==> #[trigger] img@.pixel(i, j)
                        == T::spec_from_raw(
                        data@.subrange((j * stride + i) * ch, (j * stride + i + 1) * ch),
                    ),
        {
            for x in 0..width
                invariant
                    img.wf(),
                    img@.width == width,
                    img@.height == height,
                    img@.stride == width,
                    width <= stride,
                    y < height,
                    ch == T::spec_channels(),
                    1 <= ch <= 4,
                    rows == height * stride,
                    rows * ch <= data@.len(),
                    forall|i: int, j: int|
                        0 <= i < width && 0 <= j < y ==> #[trigger] img@.pixel(i, j)
                            == T::spec_from_raw(
                            data@.subrange((j * stride + i) * ch, (j * stride + i + 1) * ch),
                        ),
                    forall|i: int|
                        0 <= i < x ==> #[trigger] img@.pixel(i, y as int) == T::spec_from_raw(
                            data@.subrange((y * stride + i) * ch, (y * stride + i + 1) * ch),
                        ),
            {
                proof {
                    lemma_row_in_bounds(y as int, stride as int, height as int);
                    assert(stride * height == height * stride) by (nonlinear_arith);
                    let off = y * stride + x;
                    assert(rows <= rows * ch) by (nonlinear_arith)
                        requires
                            ch >= 1,
                            rows >= 0,
                    ;
                    assert(0 <= off * ch && (off + 1) * ch <= rows * ch && (off + 1) * ch == off
                        * ch + ch) by (nonlinear_arith)
                        requires
                            0 <= off,
                            off + 1 <= rows,
                            0 <= ch,
                    ;
                    assert(data.len() == data@.len());
                    img@.lemma_with_pixel(
                        x as int,
                        y as int,
                        T::spec_from_raw(data@.subrange(off * ch, (off + 1) * ch)),
                    );
                }
                let off: usize = (y as usize) * (stride as usize) + (x as usize);
                let p = T::from_raw(slice_subrange(data, off * ch, off * ch + ch));
                img.put(x, y, p);
            }
        }
        Ok(img)
    }
}

impl<T: Pixel> Clone for Image<T> {
    fn clone(&self) -> (r: Image<T>)
        ensures
            r@ == self@,
    {
        Image { w: self.w, h: self.h, stride: self.stride, data: slice_to_vec(self.data.as_slice()) }
    }
}

impl<T: Pixel> vstd::std_specs::core::IndexSpecImpl<(u32, u32)> for Image<T> {
    open spec fn index_req(&self, index: &(u32, u32)) -> bool {
        self.wf() && index.0 < self@.stride && index.1 < self@.height
    }
}

/// The pixel of column `index.0` and row `index.1`.
impl<T: Pixel> std::ops::Index<(u32, u32)> for Image<T> {
    type Output = T;

    fn index(&self, index: (u32, u32)) -> (output: &T)
        ensures
            *output == self@.pixel(index.0 as int, index.1 as int),
    {
        let (x, y) = index;
        proof {
            lemma_row_in_bounds(y as int, self.stride as int, self.h as int);
            assert(self.data.len() == self.stride * self.h);
        }
        let off = (y as usize) * (self.stride as usize) + (x as usize);
        &self.data[off]
    }
}

/// The pixel of column `index.0` and row `index.1`, to be written in place.
impl<T: Pixel> std::ops::IndexMut<(u32, u32)> for Image<T> {
    fn index_mut(&mut self, index: (u32, u32)) -> (output: &mut T)
        requires
            old(self).wf(),
            index.0 < old(self)@.stride,
            index.1 < old(self)@.height,
        ensures
            *output == old(self)@.pixel(index.0 as int, index.1 as int),
            final(self)@ == old(self)@.with_pixel(index.0 as int, index.1 as int, *final(output)),
            final(self).wf(),
    {
        let (x, y) = index;
        proof {
            lemma_row_in_bounds(y as int, self.stride as int, self.h as int);
            assert(self.data.len() == self.stride * self.h);
        }
        let off = (y as usize) * (self.stride as usize) + (x as usize);
        &mut self.data[off]
    }
}

} // verus!
