use imageproc::convert::{
    convert, luma, merge, split, ColorMapper, MapBgrGray, MapBgraGray, MapGrayBgr, MapGrayBgra,
};
use imageproc::image::{Bgr, Bgra, Gray, Image, ImageBgr, ImageBgra, ImageError, ImageGray, Rgba};

#[test]
fn test_bgra_to_gray() {
    let mut src = ImageBgra::new(4, 1);
    {
        let r = src.row_mut(0);
        r[0] = Bgra([255, 0, 0, 255]);
        r[1] = Bgra([0, 255, 0, 255]);
        r[2] = Bgra([0, 0, 255, 255]);
        r[3] = Bgra([255, 255, 255, 255]);
    }
    let dst = convert::<MapBgraGray>(&src);
    assert_eq!(dst[(0, 0)], Gray([27]));
    assert_eq!(dst[(1, 0)], Gray([150]));
    assert_eq!(dst[(2, 0)], Gray([76]));
    assert_eq!(dst[(3, 0)], Gray([255]));
}

#[test]
fn test_convert() {
    let mut src = ImageBgra::new(2000, 1000);
    src.fill(&Bgra([100, 100, 100, 255]));
    let out = convert::<MapBgraGray>(&src);
    assert_eq!(out.size(), (2000, 1000));
    assert_eq!(out[(1999, 999)], Gray([100]));
}

#[test]
fn test_split_and_merge() {
    let mut src = ImageBgra::new(20, 10);
    src.fill(&Bgra([100, 100, 100, 255]));
    let t = split(&src);
    let out: ImageBgra = merge(&t).unwrap();
    let mut it = out.iter();
    while let Some((x, y, p)) = it.next() {
        assert_eq!(*p, src[(x, y)]);
    }
}

#[test]
fn luma_cuts_the_fraction_off() {
    assert_eq!(luma(255, 0, 0), 27);
    assert_eq!(luma(0, 255, 0), 150);
    assert_eq!(luma(0, 0, 255), 76);
    assert_eq!(luma(255, 255, 255), 255);
    assert_eq!(luma(0, 0, 0), 0);
    // (10 * 28 + 20 * 151 + 30 * 77) / 256 = 5610 / 256 = 21.9...
    assert_eq!(luma(10, 20, 30), 21);
}

#[test]
fn mappers_on_single_pixels() {
    assert_eq!(MapBgraGray::to(&Bgra([10, 20, 30, 7])), Gray([21]));
    assert_eq!(MapBgrGray::to(&Bgr([10, 20, 30])), Gray([21]));
    assert_eq!(MapGrayBgra::to(&Gray([9])), Bgra([9, 9, 9, 255]));
    assert_eq!(MapGrayBgr::to(&Gray([9])), Bgr([9, 9, 9]));
}

#[test]
fn convert_keeps_size_and_maps_each_pixel() {
    let mut src = ImageGray::new(3, 2);
    for y in 0..2u32 {
        for x in 0..3u32 {
            src.put(x, y, Gray([(10 * y + x) as u8]));
        }
    }
    let dst = convert::<MapGrayBgra>(&src);
    assert_eq!(dst.size(), (3, 2));
    assert_eq!(dst.stride(), 3);
    for y in 0..2u32 {
        for x in 0..3u32 {
            let v = (10 * y + x) as u8;
            assert_eq!(dst.get(x, y), Bgra([v, v, v, 255]));
        }
    }
    let back = convert::<MapBgraGray>(&dst);
    assert_eq!(back.raw(), src.raw());
}

#[test]
fn convert_of_empty_image() {
    let src = ImageBgr::new(0, 5);
    let dst = convert::<MapBgrGray>(&src);
    assert_eq!(dst.size(), (0, 5));
    assert_eq!(dst.pixels().len(), 0);
}

fn numbered() -> ImageBgra {
    let mut src = ImageBgra::new(3, 2);
    let mut n = 0u8;
    for y in 0..2u32 {
        for x in 0..3u32 {
            src.put(x, y, Bgra([n, n + 1, n + 2, n + 3]));
            n += 4;
        }
    }
    src
}

#[test]
fn split_gives_one_image_for_each_channel() {
    let src = numbered();
    let parts = split(&src);
    assert_eq!(parts.len(), 4);
    for (c, part) in parts.iter().enumerate() {
        assert_eq!(part.size(), (3, 2));
        let expected: Vec<u8> = (0..6u8).map(|k| 4 * k + c as u8).collect();
        assert_eq!(part.raw(), expected);
    }
}

#[test]
fn merge_is_the_inverse_of_split() {
    let src = numbered();
    let out: ImageBgra = merge(&split(&src)).unwrap();
    assert_eq!(out.size(), src.size());
    assert_eq!(out.raw(), src.raw());

    let mut rgba: Image<Rgba<u16>> = Image::new(2, 2);
    rgba.put(0, 0, Rgba([1, 2, 3, 4]));
    rgba.put(1, 1, Rgba([500, 600, 700, 800]));
    let out: Image<Rgba<u16>> = merge(&split(&rgba)).unwrap();
    assert_eq!(out.raw(), rgba.raw());

    let mut gray = ImageGray::new(2, 1);
    gray.put(1, 0, Gray([5]));
    let out: ImageGray = merge(&split(&gray)).unwrap();
    assert_eq!(out.raw(), gray.raw());
}

#[test]
fn merge_orders_the_channels() {
    let mut b = ImageGray::new(1, 1);
    let mut g = ImageGray::new(1, 1);
    let mut r = ImageGray::new(1, 1);
    b.put(0, 0, Gray([1]));
    g.put(0, 0, Gray([2]));
    r.put(0, 0, Gray([3]));
    let out: ImageBgr = merge(&vec![b, g, r]).unwrap();
    assert_eq!(out.get(0, 0), Bgr([1, 2, 3]));
}

#[test]
fn merge_rejects_unequal_sizes() {
    let parts = vec![ImageGray::new(2, 2), ImageGray::new(2, 3), ImageGray::new(2, 2)];
    let r: Result<ImageBgr, ImageError> = merge(&parts);
    assert_eq!(r.err(), Some(ImageError::DimensionMismatch));
    let parts = vec![ImageGray::new(2, 2), ImageGray::new(2, 2), ImageGray::new(3, 2)];
    let r: Result<ImageBgr, ImageError> = merge(&parts);
    assert_eq!(r.err(), Some(ImageError::DimensionMismatch));
}

#[test]
fn merge_rejects_wrong_number_of_channels() {
    let parts = vec![ImageGray::new(2, 2), ImageGray::new(2, 2)];
    let r: Result<ImageBgr, ImageError> = merge(&parts);
    assert_eq!(r.err(), Some(ImageError::DimensionMismatch));
    let none: Vec<ImageGray> = Vec::new();
    let r: Result<ImageBgra, ImageError> = merge(&none);
    assert_eq!(r.err(), Some(ImageError::DimensionMismatch));
}

#[test]
fn gray_to_float() {
    let mut src = ImageGray::new(2, 1);
    src.put(0, 0, Gray([7]));
    src.put(1, 0, Gray([255]));
    let dst = convert::<imageproc::convert::MapGrayGrayf<f32>>(&src);
    assert_eq!(dst.get(0, 0), Gray([7.0f32]));
    assert_eq!(dst.get(1, 0), Gray([255.0f32]));
    let dst = convert::<imageproc::convert::MapGrayGrayf<u16>>(&src);
    assert_eq!(dst.raw(), vec![7u16, 255]);
}
