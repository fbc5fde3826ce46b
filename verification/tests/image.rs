use imageproc::image::{
    Bgr, Bgra, Color, Gray, Image, ImageBgr, ImageBgra, ImageError, ImageGray, Pixel, Rgba,
};
use std::mem;

#[test]
fn test_pixel_size() {
    assert_eq!(mem::size_of::<Bgra<u8>>(), 4);
    assert_eq!(mem::size_of::<Bgr<u8>>(), 3);
    assert_eq!(mem::size_of::<Gray<u8>>(), 1);
}

#[test]
fn test_alloc() {
    let img = ImageBgra::new(100, 200);
    assert_eq!(img.channels(), 4);
    assert_eq!(img.bits_per_pixel(), 4 * 8);
    assert_eq!(img.pixels().len(), 100 * 200);
    assert_eq!(img.raw().len(), 100 * 200 * 4);
    assert_eq!(img.pitch(), 100 * 4);
}

#[test]
fn test_iter() {
    let mut img = ImageBgra::new(10, 5);
    let mut it = img.iter_mut();
    while let Some((_x, _y, p)) = it.next() {
        *p = Bgra::<u8>([128, 128, 0, 0]);
    }

    let mut it = img.iter();
    while let Some((_x, _y, p)) = it.next() {
        assert_eq!(*p, Bgra::<u8>([128, 128, 0, 0]));
    }
}

#[test]
fn test_traits() {
    let mut img = ImageBgra::new(10, 5);
    let mut it = img.iter_mut();
    while let Some((_x, _y, p)) = it.next() {
        *p = *p + Bgra::<u8>([128, 128, 0, 0]);
    }
    assert_eq!(img[(9, 4)], Bgra([128, 128, 0, 0]));
}

#[test]
fn new_image_is_zero_and_packed() {
    let img = ImageBgr::new(3, 2);
    assert_eq!(img.width(), 3);
    assert_eq!(img.height(), 2);
    assert_eq!(img.size(), (3, 2));
    assert_eq!(img.stride(), 3);
    assert_eq!(img.bytes_per_row(), 9);
    assert_eq!(img.alpha(), -1);
    for p in img.pixels() {
        assert_eq!(*p, Bgr([0, 0, 0]));
    }
}

#[test]
fn empty_image() {
    let img = ImageGray::new(0, 0);
    assert_eq!(img.pixels().len(), 0);
    assert_eq!(img.raw().len(), 0);
    let mut it = img.iter();
    assert!(it.next().is_none());
    let img = ImageGray::new(0, 3);
    let mut it = img.iter();
    assert!(it.next().is_none());
    let img = ImageGray::new(3, 0);
    let mut it = img.iter();
    assert!(it.next().is_none());
}

#[test]
fn iter_walks_row_after_row() {
    let mut img = ImageGray::new(3, 2);
    for y in 0..2u32 {
        for x in 0..3u32 {
            img.put(x, y, Gray([(10 * y + x) as u8]));
        }
    }
    let mut seen = Vec::new();
    let mut it = img.iter();
    while let Some((x, y, p)) = it.next() {
        seen.push((x, y, p.data[0]));
    }
    assert_eq!(seen, vec![(0, 0, 0), (1, 0, 1), (2, 0, 2), (0, 1, 10), (1, 1, 11), (2, 1, 12)]);
    assert!(it.next().is_none());
}

#[test]
fn iter_mut_walks_row_after_row() {
    let mut img = ImageGray::new(2, 2);
    let mut n = 0u8;
    let mut seen = Vec::new();
    let mut it = img.iter_mut();
    while let Some((x, y, p)) = it.next() {
        n += 1;
        *p = Gray([n]);
        seen.push((x, y));
    }
    assert_eq!(seen, vec![(0, 0), (1, 0), (0, 1), (1, 1)]);
    assert_eq!(img.raw(), vec![1, 2, 3, 4]);
}

#[test]
fn rows_and_pixels() {
    let mut img = ImageGray::new(3, 2);
    {
        let r = img.row_mut(1);
        assert_eq!(r.len(), 3);
        r[0] = Gray([7]);
        r[2] = Gray([9]);
    }
    assert_eq!(img.row(0), &[Gray([0u8]), Gray([0]), Gray([0])]);
    assert_eq!(img.row(1), &[Gray([7u8]), Gray([0]), Gray([9])]);
    assert_eq!(img.get(2, 1), Gray([9]));
    assert_eq!(img[(0, 1)], Gray([7]));
    img[(1, 0)] = Gray([4]);
    assert_eq!(img.get(1, 0), Gray([4]));
    img.pixels_mut()[5] = Gray([1]);
    assert_eq!(img.get(2, 1), Gray([1]));
    assert_eq!(img.raw(), vec![0, 4, 0, 7, 0, 1]);
}

#[test]
fn fill_and_zero() {
    let mut img = ImageBgra::new(4, 3);
    img.fill(&Bgra([1, 2, 3, 4]));
    for p in img.pixels() {
        assert_eq!(*p, Bgra([1, 2, 3, 4]));
    }
    img.zero();
    for p in img.pixels() {
        assert_eq!(*p, Bgra([0, 0, 0, 0]));
    }
}

#[test]
fn fill_channel_touches_one_channel() {
    let mut img = ImageBgra::new(2, 2);
    img.fill(&Bgra([1, 2, 3, 4]));
    img.fill_channel(1, 9);
    for p in img.pixels() {
        assert_eq!(*p, Bgra([1, 9, 3, 4]));
    }
}

#[test]
fn set_alpha_makes_opaque() {
    let mut img = ImageBgra::new(2, 2);
    img.fill(&Bgra([1, 2, 3, 4]));
    img.set_alpha();
    for p in img.pixels() {
        assert_eq!(*p, Bgra([1, 2, 3, 255]));
    }
    let mut img = ImageBgr::new(2, 2);
    img.fill(&Bgr([1, 2, 3]));
    img.set_alpha();
    for p in img.pixels() {
        assert_eq!(*p, Bgr([1, 2, 3]));
    }
    assert!(ImageBgra::has_alpha());
    assert!(!ImageGray::has_alpha());
    assert!(Image::<Rgba<u8>>::has_alpha());
}

#[test]
fn raw_is_channels_pixel_after_pixel() {
    let mut img = ImageBgr::new(2, 1);
    img.put(0, 0, Bgr([1, 2, 3]));
    img.put(1, 0, Bgr([4, 5, 6]));
    assert_eq!(img.raw(), vec![1, 2, 3, 4, 5, 6]);
}

#[test]
fn raw_mut_overwrites_the_buffer() {
    let mut img = ImageBgr::new(2, 1);
    img.raw_mut(&[9, 8, 7, 6, 5, 4]);
    assert_eq!(img.get(0, 0), Bgr([9, 8, 7]));
    assert_eq!(img.get(1, 0), Bgr([6, 5, 4]));
    let raw = img.raw();
    img.raw_mut(&raw);
    assert_eq!(img.raw(), vec![9, 8, 7, 6, 5, 4]);
}

#[test]
fn from_raw_reads_rows_of_the_given_stride() {
    // two rows of two pixels, each row padded to three pixels
    let data: Vec<u8> = vec![1, 2, 3, 4, 5, 6, 0, 0, 0, 7, 8, 9, 10, 11, 12, 0, 0, 0];
    let img: ImageBgr = Image::from_raw(&data, 2, 2, 3).unwrap();
    assert_eq!(img.width(), 2);
    assert_eq!(img.height(), 2);
    assert_eq!(img.stride(), 2);
    assert_eq!(img.get(0, 0), Bgr([1, 2, 3]));
    assert_eq!(img.get(1, 0), Bgr([4, 5, 6]));
    assert_eq!(img.get(0, 1), Bgr([7, 8, 9]));
    assert_eq!(img.get(1, 1), Bgr([10, 11, 12]));
}

#[test]
fn from_raw_rejects_narrow_stride() {
    let data = vec![0u8; 64];
    let r: Result<ImageGray, ImageError> = Image::from_raw(&data, 4, 2, 3);
    assert_eq!(r.err(), Some(ImageError::OutOfMemoryError));
}

#[test]
fn from_raw_rejects_short_buffer() {
    let data = vec![0u8; 23];
    let r: Result<ImageBgra, ImageError> = Image::from_raw(&data, 2, 2, 3);
    assert_eq!(r.err(), Some(ImageError::OutOfMemoryError));
    let data = vec![0u8; 24];
    let r: Result<ImageBgra, ImageError> = Image::from_raw(&data, 2, 2, 3);
    assert!(r.is_ok());
}

#[test]
fn from_raw_rejects_huge_sizes() {
    let data = vec![0u8; 16];
    let r: Result<ImageBgra, ImageError> = Image::from_raw(&data, 1, u32::MAX, u32::MAX);
    assert_eq!(r.err(), Some(ImageError::OutOfMemoryError));
}

#[test]
fn clone_is_equal_and_independent() {
    let mut img = ImageGray::new(2, 2);
    img.fill(&Gray([3]));
    let copy = img.clone();
    img.put(0, 0, Gray([8]));
    assert_eq!(copy.raw(), vec![3, 3, 3, 3]);
    assert_eq!(img.raw(), vec![8, 3, 3, 3]);
    assert_eq!(copy.size(), (2, 2));
}

#[test]
fn pixel_kinds() {
    assert_eq!(Bgr::<u8>::channels(), 3);
    assert_eq!(Gray::<u8>::channels(), 1);
    assert_eq!(Bgra::<u8>::channels(), 4);
    assert_eq!(Rgba::<u8>::channels(), 4);
    assert_eq!(Bgr::<u8>::alpha(), -1);
    assert_eq!(Gray::<u8>::alpha(), -1);
    assert_eq!(Bgra::<u8>::alpha(), 3);
    assert_eq!(Rgba::<u8>::alpha(), 3);
    assert_eq!(Bgr::<u8>::bits_per_pixel(), 24);
    assert_eq!(Rgba::<u16>::bits_per_pixel(), 32);
    assert_eq!(Bgra::<i32>::zero(), Bgra([0, 0, 0, 0]));
}

#[test]
fn pixel_raw_access() {
    let mut p = Bgra([1u8, 2, 3, 4]);
    assert_eq!(p.raw(), &[1, 2, 3, 4]);
    p.raw_mut()[2] = 9;
    assert_eq!(p, Bgra([1, 2, 9, 4]));
    assert_eq!(p[2], 9);
    p[0] = 7;
    assert_eq!(p.data, [7, 2, 9, 4]);
    assert_eq!(Bgr::from_raw(&[5u8, 6, 7, 8]), Bgr([5, 6, 7]));
    assert_eq!(Gray::from_raw(&[5u8, 6, 7, 8]), Gray([5]));
}

#[test]
fn pixel_arithmetic() {
    let a = Bgr([1u8, 2, 3]);
    let b = Bgr([10u8, 20, 30]);
    assert_eq!(a + b, Bgr([11, 22, 33]));
    assert_eq!(b - a, Bgr([9, 18, 27]));
    assert_eq!(a * b, Bgr([10, 40, 90]));
    assert_eq!(Rgba([1i16, -2, 3, -4]) - Rgba([1, 1, 1, 1]), Rgba([0, -3, 2, -5]));
}

#[test]
fn pixel_and_scalar() {
    let a = Bgr([1u8, 2, 250]);
    assert_eq!(a + 300u16, Bgr([301u16, 302, 550]));
    assert_eq!(a * 2u32, Bgr([2u32, 4, 500]));
    assert_eq!(Gray([9u8]) - 4u8, Gray([5u8]));
}

#[test]
fn pixel_saturating_arithmetic() {
    let a = Bgra([250u8, 2, 3, 4]);
    let b = Bgra([10u8, 20, 30, 255]);
    assert_eq!(a.saturating_add(b), Bgra([255, 22, 33, 255]));
    assert_eq!(a.saturating_sub(b), Bgra([240, 0, 0, 0]));
    assert_eq!(Gray([-100i8]).saturating_sub(Gray([100])), Gray([-128]));
}

#[test]
fn color_of_gray() {
    let c = Color::from_gray(7u8);
    assert_eq!(c, Color::new(7, 7, 7, 255));
    assert!(c.is_gray());
    assert!(!Color::new(1u8, 2, 1, 0).is_gray());
    assert!(!Color::new(1u8, 1, 2, 0).is_gray());
    assert_eq!(Color::from_gray(-3i16).a, 32767);
}
