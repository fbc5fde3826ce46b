//! Turning the pixels of an image into pixels of another kind, and taking
//! an image apart into its channels and putting it together again.
use vstd::prelude::*;
use std::marker::PhantomData;
use crate::image::{Bgr, Bgra, Gray, Image, ImageError, ImageView, Pixel};

verus! {

/// A way to turn a pixel of one kind into a pixel of another, each pixel by
/// itself.
pub trait ColorMapper {
    type SrcType: Pixel;

    type DstType: Pixel;

    /// Whether `dst` is the pixel that `src` turns into.
    spec fn spec_to(src: Self::SrcType, dst: Self::DstType) -> bool;

    fn to(src: &Self::SrcType) -> (dst: Self::DstType)
        ensures
            Self::spec_to(*src, dst),
    ;
}

/// The brightness of a colour: 28 parts of blue, 151 of green and 77 of red
/// in 256, with the fraction cut off.
pub open spec fn spec_luma(b: u8, g: u8, r: u8) -> u8 {
    ((b * 28 + g * 151 + r * 77) / 256) as u8
}

/// The brightness of a colour, as `spec_luma` defines it.
pub fn luma(b: u8, g: u8, r: u8) -> (d: u8)
    ensures
        d == spec_luma(b, g, r),
{
    let sum: u32 = b as u32 * 28 + g as u32 * 151 + r as u32 * 77;
    assert(sum >> 8 == sum / 256) by (bit_vector);
    (sum >> 8) as u8
}

/// A gray is as bright as itself: the three parts add up to the whole.
pub proof fn lemma_luma_of_gray(v: u8)
    ensures
        spec_luma(v, v, v) == v,
{
}

/// From colour with opacity to gray: the brightness of the colour. The
/// opacity is dropped.
pub struct MapBgraGray;

impl ColorMapper for MapBgraGray {
    type SrcType = Bgra<u8>;

    type DstType = Gray<u8>;

    open spec fn spec_to(src: Bgra<u8>, dst: Gray<u8>) -> bool {
        dst == (Gray { data: [spec_luma(src.data@[0], src.data@[1], src.data@[2])] })
    }

    fn to(src: &Bgra<u8>) -> (dst: Gray<u8>) {
        Gray([luma(src.data[0], src.data[1], src.data[2])])
    }
}

/// From gray to colour with opacity: the gray value in the three colour
/// channels, fully opaque.
pub struct MapGrayBgra;

impl ColorMapper for MapGrayBgra {
    type SrcType = Gray<u8>;

    type DstType = Bgra<u8>;

    open spec fn spec_to(src: Gray<u8>, dst: Bgra<u8>) -> bool {
        dst == (Bgra { data: [src.data@[0], src.data@[0], src.data@[0], 255u8] })
    }

    fn to(src: &Gray<u8>) -> (dst: Bgra<u8>) {
        let v = src.data[0];
        Bgra([v, v, v, 255])
    }
}

/// From gray to colour: the gray value in the three colour channels.
pub struct MapGrayBgr;

impl ColorMapper for MapGrayBgr {
    type SrcType = Gray<u8>;

    type DstType = Bgr<u8>;

    open spec fn spec_to(src: Gray<u8>, dst: Bgr<u8>) -> bool {
        dst == (Bgr { data: [src.data@[0], src.data@[0], src.data@[0]] })
    }

    fn to(src: &Gray<u8>) -> (dst: Bgr<u8>) {
        let v = src.data[0];
        Bgr([v, v, v])
    }
}

/// From colour to gray: the brightness of the colour.
pub struct MapBgrGray;

impl ColorMapper for MapBgrGray {
    type SrcType = Bgr<u8>;

    type DstType = Gray<u8>;

    open spec fn spec_to(src: Bgr<u8>, dst: Gray<u8>) -> bool {
        dst == (Gray { data: [spec_luma(src.data@[0], src.data@[1], src.data@[2])] })
    }

    fn to(src: &Bgr<u8>) -> (dst: Gray<u8>) {
        Gray([luma(src.data[0], src.data[1], src.data[2])])
    }
}

/// From gray in bytes to gray in the number type `F`: the same value.
pub struct MapGrayGrayf<F> {
    kind: PhantomData<F>,
}

impl<F: Copy + Default + From<u8>> ColorMapper for MapGrayGrayf<F> {
    type SrcType = Gray<u8>;

    type DstType = Gray<F>;

    open spec fn spec_to(src: Gray<u8>, dst: Gray<F>) -> bool {
        call_ensures(F::from, (src.data@[0],), dst.data@[0])
    }

    fn to(src: &Gray<u8>) -> (dst: Gray<F>) {
        Gray([F::from(src.data[0])])
    }
}

/// A gray turned into colour and back into gray is the gray it was.
pub proof fn lemma_gray_to_colour_and_back(gray: Gray<u8>, colour: Bgra<u8>, back: Gray<u8>)
    requires
        MapGrayBgra::spec_to(gray, colour),
        MapBgraGray::spec_to(colour, back),
    ensures
        back == gray,
{
    lemma_luma_of_gray(gray.data@[0]);
    assert(back.data =~= gray.data);
}

/// Whether `dst` is `src` with every pixel turned by the mapper `M`.
pub open spec fn is_converted<M: ColorMapper>(
    dst: ImageView<M::DstType>,
    src: ImageView<M::SrcType>,
) -> bool {
    &&& dst.width == src.width
    &&& dst.height == src.height
    &&& dst.stride == src.width
    &&& forall|x: int, y: int|
        0 <= x < src.width && 0 <= y < src.height ==> M::spec_to(
            src.pixel(x, y),
            #[trigger] dst.pixel(x, y),
        )
}

/// A new image of the size of `src` and of another pixel kind, each pixel
/// of which is the pixel of `src` at that place turned by the mapper `M`.
pub fn convert<M>(src: &Image<M::SrcType>) -> (dst: Image<M::DstType>) where M: ColorMapper
    requires
        src.wf(),
    ensures
        dst.wf(),
        is_converted::<M>(dst@, src@),
{
    let width = src.width();
    let height = src.height();
    proof {
        src.lemma_area_fits();
    }
    let mut dst = Image::<M::DstType>::new(width, height);
    for h in 0..height
        invariant
            src.wf(),
            dst.wf(),
            width == src@.width,
            height == src@.height,
            dst@.width == width,
            dst@.height == height,
            dst@.stride == width,
            forall|x: int, y: int|
                0 <= x < width && 0 <= y < h ==> M::spec_to(
                    src@.pixel(x, y),
                    #[trigger] dst@.pixel(x, y),
                ),
    {
        let ghost before = dst@;
        let psrc = src.row(h);
        let pdst = dst.row_mut(h);
        for w in 0..width as usize
            invariant
                width == src@.width,
                width <= src@.stride,
                psrc@.len() == src@.stride,
                pdst@.len() == width,
                forall|x: int| 0 <= x < w ==> M::spec_to(psrc@[x], #[trigger] pdst@[x]),
        {
            pdst[w] = M::to(&psrc[w]);
        }
        let ghost done = pdst@;
        proof {
            before.lemma_with_row(h as int, done);
            src@.lemma_row(h as int);
        }
    }
    dst
}

/// What each image of a sequence is.
pub open spec fn views<T: Pixel>(images: Seq<Image<T>>) -> Seq<ImageView<T>> {
    Seq::new(images.len(), |i: int| images[i]@)
}

/// Whether `parts` are the channels of `src`, each as a gray image of its
/// own: one image for each channel, of the size of `src`, in which the pixel
/// at a place holds that channel of the pixel of `src` at that place.
pub open spec fn is_split<T: Pixel>(
    parts: Seq<ImageView<Gray<T::Subpixel>>>,
    src: ImageView<T>,
) -> bool {
    &&& parts.len() == T::spec_channels()
    &&& forall|c: int|
        0 <= c < parts.len() ==> {
            &&& (#[trigger] parts[c]).wf()
            &&& parts[c].width == src.width
            &&& parts[c].height == src.height
            &&& parts[c].stride == src.width
        }
    &&& forall|c: int, x: int, y: int|
        0 <= c < parts.len() && 0 <= x < src.width && 0 <= y < src.height ==> (
        #[trigger] parts[c].pixel(x, y)).data@[0] == src.pixel(x, y).spec_raw()[c]
}

/// Whether `parts` can be the channels of one image of kind `T`: there is
/// one of them for each channel, and they all have the same size.
pub open spec fn can_merge<T: Pixel>(parts: Seq<ImageView<Gray<T::Subpixel>>>) -> bool {
    &&& parts.len() == T::spec_channels()
    &&& forall|c: int|
        0 <= c < parts.len() ==> (#[trigger] parts[c]).width == parts[0].width
            && parts[c].height == parts[0].height
}

/// Whether `out` is the image whose channels are `parts`: it has their size,
/// and channel `c` of its pixel at a place is the pixel at that place of
/// part `c`.
pub open spec fn is_merged<T: Pixel>(
    out: ImageView<T>,
    parts: Seq<ImageView<Gray<T::Subpixel>>>,
) -> bool {
    &&& out.width == parts[0].width
    &&& out.height == parts[0].height
    &&& out.stride == parts[0].width
    &&& forall|x: int, y: int|
        0 <= x < out.width && 0 <= y < out.height ==> (#[trigger] out.pixel(x, y)).spec_raw()
            == Seq::new(T::spec_channels(), |c: int| parts[c].pixel(x, y).data@[0])
}

/// One channel of an image, as a gray image of the same size.
fn split_channel<T, U>(src: &Image<T>, c: usize) -> (out: Image<Gray<U>>) where
    T: Pixel<Subpixel = U>,
    U: Copy + Default,

    requires
        src.wf(),
        c < T::spec_channels(),
    ensures
        out.wf(),
        out@.width == src@.width,
        out@.height == src@.height,
        out@.stride == src@.width,
        forall|x: int, y: int|
            0 <= x < src@.width && 0 <= y < src@.height ==> (#[trigger] out@.pixel(x, y)).data@[0]
                == src@.pixel(x, y).spec_raw()[c as int],
{
    let width = src.width();
    let height = src.height();
    proof {
        src.lemma_area_fits();
    }
    let mut out = Image::<Gray<U>>::new(width, height);
    for y in 0..height
        invariant
            src.wf(),
            out.wf(),
            c < T::spec_channels(),
            width == src@.width,
            height == src@.height,
            out@.width == width,
            out@.height == height,
            out@.stride == width,
            forall|i: int, j: int|
                0 <= i < width && 0 <= j < y ==> (#[trigger] out@.pixel(i, j)).data@[0]
                    == src@.pixel(i, j).spec_raw()[c as int],
    {
        let ghost before = out@;
        let psrc = src.row(y);
        let pdst = out.row_mut(y);
        for x in 0..width as usize
            invariant
                c < T::spec_channels(),
                width == src@.width,
                width <= src@.stride,
                psrc@.len() == src@.stride,
                pdst@.len() == width,
                forall|i: int|
                    0 <= i < x ==> (#[trigger] pdst@[i]).data@[0] == psrc@[i].spec_raw()[c as int],
        {
            proof {
                psrc@[x as int].lemma_raw_len();
            }
            pdst[x] = Gray([psrc[x].raw()[c]]);
        }
        let ghost done = pdst@;
        proof {
            before.lemma_with_row(y as int, done);
            src@.lemma_row(y as int);
        }
    }
    out
}

/// The channels of `src`, each as a gray image of its own, in the order of
/// the channels in a pixel.
pub fn split<T, U>(src: &Image<T>) -> (out: Vec<Image<Gray<U>>>) where
    T: Pixel<Subpixel = U>,
    U: Copy + Default,

    requires
        src.wf(),
    ensures
        forall|c: int| 0 <= c < out@.len() ==> (#[trigger] out@[c]).wf(),
        is_split::<T>(views(out@), src@),
{
    let channels = src.channels() as usize;
    let mut out: Vec<Image<Gray<U>>> = Vec::with_capacity(channels);
    for c in 0..channels
        invariant
            src.wf(),
            channels == T::spec_channels(),
            out@.len() == c,
            forall|k: int|
                0 <= k < c ==> {
                    &&& (#[trigger] out@[k]).wf()
                    &&& out@[k]@.width == src@.width
                    &&& out@[k]@.height == src@.height
                    &&& out@[k]@.stride == src@.width
                },
            forall|k: int, x: int, y: int|
                0 <= k < c && 0 <= x < src@.width && 0 <= y < src@.height ==> (
                #[trigger] out@[k]@.pixel(x, y)).data@[0] == src@.pixel(x, y).spec_raw()[k],
    {
        let part = split_channel(src, c);
        out.push(part);
    }
    out
}

/// Whether every image of the sequence has the size of the first; it holds
/// of the empty sequence.
fn same_sizes<P: Copy + Default>(src: &Vec<Image<Gray<P>>>) -> (b: bool)
    ensures
        b == forall|c: int|
            0 <= c < src@.len() ==> (#[trigger] src@[c])@.width == src@[0]@.width && src@[c]@.height
                == src@[0]@.height,
{
    for i in 0..src.len()
        invariant
            forall|c: int|
                0 <= c < i ==> (#[trigger] src@[c])@.width == src@[0]@.width && src@[c]@.height
                    == src@[0]@.height,
    {
        if src[i].width() != src[0].width() || src[i].height() != src[0].height() {
            return false;
        }
    }
    true
}

/// The image whose channels are the gray images `src`, in the order of the
/// channels in a pixel: what `split` takes apart, `merge` puts together.
///
/// Fails with `DimensionMismatch` where there is not one image for each
/// channel of the pixel kind, or the images differ in width or height.
pub fn merge<P, T>(src: &Vec<Image<Gray<P>>>) -> (r: Result<Image<T>, ImageError>) where
    P: Copy + Default,
    T: Pixel<Subpixel = P>,

    requires
        forall|c: int| 0 <= c < src@.len() ==> (#[trigger] src@[c]).wf(),
    ensures
        r is Ok <==> can_merge::<T>(views(src@)),
        r is Err ==> r == Err::<Image<T>, ImageError>(ImageError::DimensionMismatch),
        r is Ok ==> r->Ok_0.wf() && is_merged::<T>(r->Ok_0@, views(src@)),
{
    proof {
        T::lemma_kind();
    }
    let channels = T::channels() as usize;
    let ghost parts = views(src@);
    proof {
        assert forall|c: int| 0 <= c < src@.len() implies #[trigger] parts[c] == src@[c]@ by {}
    }
    if channels != src.len() || !same_sizes(src) {
        proof {
            if can_merge::<T>(parts) {
                assert forall|c: int| 0 <= c < src@.len() implies (#[trigger] src@[c])@.width
                    == src@[0]@.width && src@[c]@.height == src@[0]@.height by {
                    assert(parts[c].width == parts[0].width);
                }
            }
        }
        return Err(ImageError::DimensionMismatch);
    }
    let src0 = &src[0];
    let width = src0.width();
    let height = src0.height();
    proof {
        src0.lemma_area_fits();
    }
    let mut out = Image::<T>::new(width, height);
    for y in 0..height
        invariant
            out.wf(),
            channels == T::spec_channels(),
            channels == src@.len(),
            1 <= channels <= 4,
            forall|c: int| 0 <= c < src@.len() ==> (#[trigger] src@[c]).wf(),
            forall|c: int|
                0 <= c < src@.len() ==> (#[trigger] src@[c])@.width == width && src@[c]@.height
                    == height,
            out@.width == width,
            out@.height == height,
            out@.stride == width,
            forall|i: int, j: int|
                0 <= i < width && 0 <= j < y ==> (#[trigger] out@.pixel(i, j)).spec_raw()
                    == Seq::new(channels as nat, |c: int| src@[c]@.pixel(i, j).data@[0]),
    {
        for x in 0..width
            invariant
                out.wf(),
                y < height,
                channels == T::spec_channels(),
                channels == src@.len(),
                1 <= channels <= 4,
                forall|c: int| 0 <= c < src@.len() ==> (#[trigger] src@[c]).wf(),
                forall|c: int|
                    0 <= c < src@.len() ==> (#[trigger] src@[c])@.width == width
                        && src@[c]@.height == height,
                out@.width == width,
                out@.height == height,
                out@.stride == width,
                forall|i: int, j: int|
                    0 <= i < width && 0 <= j < y ==> (#[trigger] out@.pixel(i, j)).spec_raw()
                        == Seq::new(channels as nat, |c: int| src@[c]@.pixel(i, j).data@[0]),
                forall|i: int|
                    0 <= i < x ==> (#[trigger] out@.pixel(i, y as int)).spec_raw() == Seq::new(
                        channels as nat,
                        |c: int| src@[c]@.pixel(i, y as int).data@[0],
                    ),
        {
            let z = P::default();
            let mut buf: [P; 4] = [z;4];
            for c in 0..channels
                invariant
                    x < width,
                    y < height,
                    channels == src@.len(),
                    1 <= channels <= 4,
                    forall|k: int| 0 <= k < src@.len() ==> (#[trigger] src@[k]).wf(),
                    forall|k: int|
                        0 <= k < src@.len() ==> (#[trigger] src@[k])@.width == width
                            && src@[k]@.height == height,
                    forall|k: int|
                        0 <= k < c ==> buf@[k] == src@[k]@.pixel(x as int, y as int).data@[0],
            {
                assert(src@[c as int].wf());
                let p = src[c].get(x, y);
                buf[c] = p.data[0];
            }
            let p = T::from_raw(vstd::slice::slice_subrange(buf.as_slice(), 0, channels));
            proof {
                T::lemma_from_raw(buf@.subrange(0, channels as int));
                assert(p.spec_raw() =~= Seq::new(
                    channels as nat,
                    |c: int| src@[c]@.pixel(x as int, y as int).data@[0],
                ));
                out@.lemma_with_pixel(x as int, y as int, p);
            }
            out.put(x, y, p);
        }
    }
    proof {
        assert forall|x: int, y: int|
            0 <= x < out@.width && 0 <= y < out@.height implies (#[trigger] out@.pixel(
            x,
            y,
        )).spec_raw() == Seq::new(T::spec_channels(), |c: int| parts[c].pixel(x, y).data@[0]) by {
            assert(out@.pixel(x, y).spec_raw() =~= Seq::new(
                T::spec_channels(),
                |c: int| parts[c].pixel(x, y).data@[0],
            ));
        }
        assert forall|c: int| 0 <= c < parts.len() implies (#[trigger] parts[c]).width
            == parts[0].width && parts[c].height == parts[0].height by {
            assert(src@[c]@.width == width);
        }
    }
    Ok(out)
}

/// Taking an image apart and putting the parts together again gives the
/// picture back: the parts that `split` makes of an image can be merged, and
/// what `merge` makes of them shows the same picture as the image. Where a
/// row of the image takes no more pixels than it is wide, the result is the
/// image itself.
pub proof fn lemma_split_then_merge<T: Pixel>(
    src: ImageView<T>,
    parts: Seq<ImageView<Gray<T::Subpixel>>>,
    out: ImageView<T>,
)
    requires
        src.wf(),
        out.wf(),
        is_split::<T>(parts, src),
        is_merged::<T>(out, parts),
    ensures
        can_merge::<T>(parts),
        out.same_picture(src),
        src.stride == src.width ==> out == src,
{
    T::lemma_kind();
    assert forall|x: int, y: int|
        0 <= x < out.width && 0 <= y < out.height implies #[trigger] out.pixel(x, y) == src.pixel(
        x,
        y,
    ) by {
        let p = out.pixel(x, y);
        let q = src.pixel(x, y);
        q.lemma_raw_len();
        assert(p.spec_raw() =~= q.spec_raw()) by {
            assert forall|c: int| 0 <= c < T::spec_channels() implies p.spec_raw()[c]
                == q.spec_raw()[c] by {
                assert(parts[c].pixel(x, y).data@[0] == q.spec_raw()[c]);
            }
        }
        p.lemma_raw_injective(q);
    }
    assert(parts[0].width == src.width && parts[0].height == src.height);
    if src.stride == src.width {
        out.lemma_same_picture_packed(src);
    }
}

} // verus!
