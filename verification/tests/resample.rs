use imageproc::image::{Bgr, Gray, ImageBgr, ImageGray};
use imageproc::transform::{
    normalize, resize, resize_bilinear, warp_perspective, Coord, InterplateType,
};

fn coord(v: f32) -> Coord<f32> {
    Coord { nearest: v.round() as i32, lo: v.floor() as i32, hi: v.ceil() as i32, weight: v.ceil() - v }
}

fn cut(v: f32) -> u8 {
    v as u8
}

fn scaled(src: &ImageGray, width: u32, height: u32) -> ImageGray {
    let xscale = src.width() as f32 / width as f32;
    let yscale = src.height() as f32 / height as f32;
    resize_bilinear(
        src,
        width,
        height,
        |x: u32| coord(x as f32 * xscale),
        |y: u32| coord(y as f32 * yscale),
        cut,
    )
}

#[test]
fn resize_bilinear_between_two_pixels() {
    let mut src = ImageGray::new(2, 1);
    src.raw_mut(&[0, 100]);
    let out = scaled(&src, 4, 1);
    assert_eq!(out.size(), (4, 1));
    // the places 0, 0.5, 1 and 1.5; the last lies beyond the picture and is limited to it
    assert_eq!(out.raw(), vec![0, 50, 100, 100]);
}

#[test]
fn resize_bilinear_in_both_directions() {
    let mut src = ImageGray::new(2, 2);
    src.raw_mut(&[0, 100, 200, 40]);
    let out = scaled(&src, 4, 4);
    assert_eq!(out.size(), (4, 4));
    assert_eq!(out.get(0, 0), Gray([0]));
    assert_eq!(out.get(2, 0), Gray([100]));
    assert_eq!(out.get(0, 2), Gray([200]));
    assert_eq!(out.get(2, 2), Gray([40]));
    assert_eq!(out.get(1, 0), Gray([50]));
    assert_eq!(out.get(0, 1), Gray([100]));
    // the mean of all four
    assert_eq!(out.get(1, 1), Gray([85]));
    assert_eq!(out.get(3, 3), Gray([40]));
}

#[test]
fn resize_bilinear_to_same_size_is_identity() {
    let mut src = ImageGray::new(3, 2);
    src.raw_mut(&[1, 2, 3, 4, 5, 6]);
    assert_eq!(scaled(&src, 3, 2).raw(), src.raw());
}

#[test]
fn resize_by_kind() {
    let mut src = ImageGray::new(2, 1);
    src.raw_mut(&[0, 100]);
    let near = resize(
        &src,
        4,
        1,
        InterplateType::Nearest,
        |x: u32| coord(x as f32 * 0.5),
        |y: u32| coord(y as f32),
        cut,
    );
    assert_eq!(near.raw(), vec![0, 100, 100, 100]);
    let lin = resize(
        &src,
        4,
        1,
        InterplateType::Bilinear,
        |x: u32| coord(x as f32 * 0.5),
        |y: u32| coord(y as f32),
        cut,
    );
    assert_eq!(lin.raw(), vec![0, 50, 100, 100]);
}

#[test]
fn resize_bilinear_to_nothing() {
    let src = ImageGray::new(2, 2);
    let out = resize_bilinear(&src, 0, 3, |x: u32| coord(x as f32), |y: u32| coord(y as f32), cut);
    assert_eq!(out.size(), (0, 3));
}

fn numbered() -> ImageGray {
    let mut img = ImageGray::new(3, 2);
    img.raw_mut(&[10, 20, 30, 40, 50, 60]);
    img
}

#[test]
fn warp_nearest_shifts_and_leaves_the_rest() {
    let src = numbered();
    // each pixel is taken from one column to its left
    let out = warp_perspective(
        &src,
        4,
        2,
        |x: u32, y: u32| (coord(x as f32 - 1.0), coord(y as f32)),
        InterplateType::Nearest,
        cut,
    );
    assert_eq!(out.size(), (4, 2));
    assert_eq!(out.raw(), vec![0, 10, 20, 30, 0, 40, 50, 60]);
}

#[test]
fn warp_nearest_rounds_to_the_nearest_pixel() {
    let src = numbered();
    let out = warp_perspective(
        &src,
        3,
        1,
        |x: u32, _y: u32| (coord(x as f32 * 0.6), coord(0.6)),
        InterplateType::Nearest,
        cut,
    );
    // the places 0, 0.6 and 1.2 in row 0.6, which is row 1
    assert_eq!(out.raw(), vec![40, 50, 50]);
}

#[test]
fn warp_nearest_outside_is_zero() {
    let src = numbered();
    let out = warp_perspective(
        &src,
        2,
        2,
        |x: u32, y: u32| (coord(x as f32 + 5.0), coord(y as f32 - 7.0)),
        InterplateType::Nearest,
        cut,
    );
    assert_eq!(out.raw(), vec![0, 0, 0, 0]);
}

#[test]
fn warp_bilinear_blends_and_limits() {
    let src = numbered();
    let out = warp_perspective(
        &src,
        4,
        1,
        |x: u32, _y: u32| (coord(x as f32 - 0.5), coord(0.5)),
        InterplateType::Bilinear,
        cut,
    );
    // half way between the rows; the columns -0.5, 0.5, 1.5 and 2.5
    assert_eq!(out.raw(), vec![25, 30, 40, 45]);
}

#[test]
fn warp_identity() {
    let src = numbered();
    let same = |x: u32, y: u32| (coord(x as f32), coord(y as f32));
    assert_eq!(warp_perspective(&src, 3, 2, same, InterplateType::Nearest, cut).raw(), src.raw());
    assert_eq!(warp_perspective(&src, 3, 2, same, InterplateType::Bilinear, cut).raw(), src.raw());
}

#[test]
fn warp_applies_to_each_channel() {
    let mut src = ImageBgr::new(2, 1);
    src.put(0, 0, Bgr([0, 10, 200]));
    src.put(1, 0, Bgr([100, 20, 100]));
    let out = warp_perspective(
        &src,
        1,
        1,
        |_x: u32, _y: u32| (coord(0.25), coord(0.0)),
        InterplateType::Bilinear,
        cut,
    );
    assert_eq!(out.get(0, 0), Bgr([25, 12, 175]));
}

#[test]
fn normalize_spreads_each_channel() {
    let mut src = ImageGray::new(3, 1);
    src.raw_mut(&[10, 20, 30]);
    let out: ImageGray = normalize(&src, 0.0f32, 255.0f32, cut);
    assert_eq!(out.raw(), vec![0, 127, 255]);
    let out: ImageGray = normalize(&src, 100.0f32, 200.0f32, cut);
    assert_eq!(out.raw(), vec![100, 150, 200]);
}

#[test]
fn normalize_channels_by_themselves() {
    let mut src = ImageBgr::new(2, 1);
    src.put(0, 0, Bgr([0, 100, 50]));
    src.put(1, 0, Bgr([10, 200, 150]));
    let out: ImageBgr = normalize(&src, 0.0f32, 100.0f32, cut);
    assert_eq!(out.get(0, 0), Bgr([0, 0, 0]));
    assert_eq!(out.get(1, 0), Bgr([100, 100, 100]));
}

#[test]
fn normalize_of_empty_image() {
    let src = ImageGray::new(0, 0);
    let out: ImageGray = normalize(&src, 0.0f32, 1.0f32, cut);
    assert_eq!(out.size(), (0, 0));
}
