use imageproc::image::{Bgr, Bgra, Gray, Image, ImageBgr, ImageBgra, ImageGray};
use imageproc::transform::{
    flip_horizontal, flip_vertical, max, min, resize_nearest, rotate, rotate_cw180, rotate_cw270,
    rotate_cw90, RotateType,
};

// 0 1 2
// 3 4 5
fn numbered() -> ImageGray {
    let mut img = ImageGray::new(3, 2);
    img.raw_mut(&[0, 1, 2, 3, 4, 5]);
    img
}

#[test]
fn rotate_quarter_turn_clockwise() {
    let out = rotate_cw90(&numbered());
    assert_eq!(out.size(), (2, 3));
    // 3 0
    // 4 1
    // 5 2
    assert_eq!(out.raw(), vec![3, 0, 4, 1, 5, 2]);
}

#[test]
fn rotate_half_turn() {
    let out = rotate_cw180(&numbered());
    assert_eq!(out.size(), (3, 2));
    assert_eq!(out.raw(), vec![5, 4, 3, 2, 1, 0]);
}

#[test]
fn rotate_three_quarter_turns_clockwise() {
    let out = rotate_cw270(&numbered());
    assert_eq!(out.size(), (2, 3));
    // 2 5
    // 1 4
    // 0 3
    assert_eq!(out.raw(), vec![2, 5, 1, 4, 0, 3]);
}

#[test]
fn rotate_back_and_forth_is_identity() {
    let src = numbered();
    assert_eq!(rotate_cw270(&rotate_cw90(&src)).raw(), src.raw());
    assert_eq!(rotate_cw90(&rotate_cw270(&src)).raw(), src.raw());
    assert_eq!(rotate_cw180(&rotate_cw180(&src)).raw(), src.raw());
    assert_eq!(rotate_cw270(&rotate_cw90(&src)).size(), src.size());
    let four = rotate_cw90(&rotate_cw90(&rotate_cw90(&rotate_cw90(&src))));
    assert_eq!(four.raw(), src.raw());
    assert_eq!(rotate_cw90(&rotate_cw90(&src)).raw(), rotate_cw180(&src).raw());
}

#[test]
fn rotate_by_kind() {
    let src = numbered();
    assert_eq!(rotate(&src, RotateType::Cw0).raw(), src.raw());
    assert_eq!(rotate(&src, RotateType::Cw0).size(), (3, 2));
    assert_eq!(rotate(&src, RotateType::Cw90).raw(), rotate_cw90(&src).raw());
    assert_eq!(rotate(&src, RotateType::Cw180).raw(), rotate_cw180(&src).raw());
    assert_eq!(rotate(&src, RotateType::Cw270).raw(), rotate_cw270(&src).raw());
}

#[test]
fn rotate_empty_images() {
    let src = ImageBgra::new(0, 4);
    assert_eq!(rotate_cw90(&src).size(), (4, 0));
    assert_eq!(rotate_cw270(&src).size(), (4, 0));
    assert_eq!(rotate_cw180(&src).size(), (0, 4));
}

#[test]
fn flips() {
    let src = numbered();
    let v = flip_vertical(&src);
    assert_eq!(v.size(), (3, 2));
    assert_eq!(v.raw(), vec![3, 4, 5, 0, 1, 2]);
    let h = flip_horizontal(&src);
    assert_eq!(h.size(), (3, 2));
    assert_eq!(h.raw(), vec![2, 1, 0, 5, 4, 3]);
    assert_eq!(flip_vertical(&v).raw(), src.raw());
    assert_eq!(flip_horizontal(&h).raw(), src.raw());
    assert_eq!(flip_horizontal(&v).raw(), rotate_cw180(&src).raw());
}

#[test]
fn flips_leave_the_source_alone() {
    let src = numbered();
    let _ = flip_vertical(&src);
    let _ = flip_horizontal(&src);
    let _ = rotate_cw90(&src);
    assert_eq!(src.raw(), vec![0, 1, 2, 3, 4, 5]);
}

#[test]
fn resize_nearest_to_same_size_is_identity() {
    let src = numbered();
    let out = resize_nearest(&src, 3, 2);
    assert_eq!(out.size(), (3, 2));
    assert_eq!(out.raw(), src.raw());

    let mut big = ImageBgr::new(17, 9);
    let mut n = 0u8;
    let mut it = big.iter_mut();
    while let Some((_, _, p)) = it.next() {
        *p = Bgr([n, n.wrapping_mul(3), n.wrapping_mul(7)]);
        n = n.wrapping_add(1);
    }
    assert_eq!(resize_nearest(&big, 17, 9).raw(), big.raw());
}

#[test]
fn resize_nearest_doubles() {
    // 0 1  ->  columns taken from round(x / 2): 0 1 1 1 (the last is limited to 1)
    // 2 3
    let mut src = ImageGray::new(2, 2);
    src.raw_mut(&[0, 1, 2, 3]);
    let out = resize_nearest(&src, 4, 4);
    assert_eq!(out.size(), (4, 4));
    assert_eq!(out.raw(), vec![0, 1, 1, 1, 2, 3, 3, 3, 2, 3, 3, 3, 2, 3, 3, 3]);
}

#[test]
fn resize_nearest_halves() {
    // columns taken from round(2 x): 0, 2; rows likewise
    let mut src = ImageGray::new(4, 4);
    let all: Vec<u8> = (0..16).collect();
    src.raw_mut(&all);
    let out = resize_nearest(&src, 2, 2);
    assert_eq!(out.raw(), vec![0, 2, 8, 10]);
}

#[test]
fn resize_nearest_rounds_half_up() {
    // five pixels from three: round(x * 3 / 5) for x = 0..5 is 0, 1, 1, 2, 2
    let mut src = ImageGray::new(3, 1);
    src.raw_mut(&[10, 20, 30]);
    let out = resize_nearest(&src, 5, 1);
    assert_eq!(out.raw(), vec![10, 20, 20, 30, 30]);
    // four pixels from two: x / 2 is 0, 0.5, 1, 1.5, which rounds to 0, 1, 1, 2, limited to 1
    let mut src = ImageGray::new(2, 1);
    src.raw_mut(&[10, 20]);
    let out = resize_nearest(&src, 4, 1);
    assert_eq!(out.raw(), vec![10, 20, 20, 20]);
}

#[test]
fn resize_nearest_to_nothing() {
    let src = numbered();
    assert_eq!(resize_nearest(&src, 0, 2).size(), (0, 2));
    assert_eq!(resize_nearest(&src, 3, 0).size(), (3, 0));
    let empty = ImageGray::new(0, 0);
    assert_eq!(resize_nearest(&empty, 0, 0).size(), (0, 0));
}

#[test]
fn least_and_greatest_of_each_channel() {
    let mut img = ImageBgr::new(2, 2);
    img.put(0, 0, Bgr([5, 200, 7]));
    img.put(1, 0, Bgr([9, 100, 7]));
    img.put(0, 1, Bgr([3, 150, 7]));
    img.put(1, 1, Bgr([4, 250, 7]));
    let lo: Bgr<u8> = min(&img);
    let hi: Bgr<u8> = max(&img);
    assert_eq!(lo, Bgr([3, 100, 7]));
    assert_eq!(hi, Bgr([9, 250, 7]));
}

#[test]
fn least_and_greatest_into_wider_pixel() {
    let mut img = ImageGray::new(2, 1);
    img.put(0, 0, Gray([5]));
    img.put(1, 0, Gray([9]));
    // the channels that a gray pixel has not keep the bound that the search starts from
    let lo: Bgra<u8> = min(&img);
    let hi: Bgra<u8> = max(&img);
    assert_eq!(lo, Bgra([5, 255, 255, 255]));
    assert_eq!(hi, Bgra([9, 0, 0, 0]));
}

#[test]
fn least_and_greatest_of_nothing() {
    let img: Image<Bgr<i16>> = Image::new(0, 3);
    let lo: Bgr<i16> = min(&img);
    let hi: Bgr<i16> = max(&img);
    assert_eq!(lo, Bgr([32767, 32767, 32767]));
    assert_eq!(hi, Bgr([-32768, -32768, -32768]));
}
