use imageproc::conv::gaussian_blur;
use imageproc::geo::Point;
use imageproc::image::{Bgra, Image, ImageBgra, Pixel};
use imageproc::math::affine::{Affine2D, LinearSystem, Mat3};
use imageproc::transform::{
    flip_horizontal, flip_vertical, resize_bilinear, resize_nearest, rotate_cw180, rotate_cw270,
    rotate_cw90, warp_perspective, Coord, InterplateType,
};
use nalgebra::{DMatrix, DVector, Matrix3};

type Pointf = Point<f32>;

// A picture of 150 by 120 pixels in which no two neighbours are alike.
fn picture() -> ImageBgra {
    let mut img = ImageBgra::new(150, 120);
    let mut it = img.iter_mut();
    while let Some((x, y, p)) = it.next() {
        *p = Bgra([(x * 7 + y) as u8, (x + y * 5) as u8, (x ^ y) as u8, 255]);
    }
    img
}

fn coord(v: f32) -> Coord<f32> {
    Coord { nearest: v.round() as i32, lo: v.floor() as i32, hi: v.ceil() as i32, weight: v.ceil() - v }
}

fn lower(v: f32) -> u8 {
    num::NumCast::from(v).unwrap()
}

fn bell(w: usize, sigma: f32) -> impl Fn(usize) -> f32 {
    let sigma = if (0f32..=0.00001f32).contains(&sigma) {
        0.3 * ((w as f32 - 1.0) * 0.5 - 1.0) + 0.8
    } else {
        sigma
    };
    let s2 = sigma * sigma;
    move |t: usize| {
        let t = t as f32;
        (-t * t / 2.0 / s2).exp_m1() + 1f32
    }
}

fn bilinear<T>(src: &Image<T>, width: u32, height: u32) -> Image<T>
where
    T: Pixel<Subpixel = u8>,
{
    let yscale: f32 = src.height() as f32 / height as f32;
    let xscale: f32 = src.width() as f32 / width as f32;
    resize_bilinear(
        src,
        width,
        height,
        |w: u32| coord(w as f32 * xscale),
        |h: u32| coord(h as f32 * yscale),
        lower,
    )
}

fn solve(s: LinearSystem<f32, 4>) -> Option<[f32; 4]> {
    let rows = s.a.len();
    let a = DMatrix::from_fn(rows, 4, |r, c| s.a[r][c]);
    let b = DVector::from_vec(s.b);
    let x = if rows > 4 {
        let at = a.transpose();
        let atb = &at * b;
        (at * a).try_inverse()? * atb
    } else {
        a.try_inverse()? * b
    };
    Some([x[0], x[1], x[2], x[3]])
}

fn invert(t: Mat3<f32>) -> Option<Mat3<f32>> {
    let m = Matrix3::new(
        t[0][0], t[0][1], t[0][2], t[1][0], t[1][1], t[1][2], t[2][0], t[2][1], t[2][2],
    );
    let i = m.try_inverse()?;
    Some([
        [i[(0, 0)], i[(0, 1)], i[(0, 2)]],
        [i[(1, 0)], i[(1, 1)], i[(1, 2)]],
        [i[(2, 0)], i[(2, 1)], i[(2, 2)]],
    ])
}

#[test]
fn test_conv2d_sep() {
    let img = picture();
    let out = gaussian_blur(&img, 11, bell(11, 0f32), lower);
    assert_eq!(out.size(), (150, 120));
}

#[test]
fn test_resize() {
    let img = picture();

    let dst = resize_nearest(&img, 600, 400);
    assert_eq!(dst.width(), 600);
    assert_eq!(dst.height(), 400);

    let dst = bilinear(&img, 600, 400);
    assert_eq!(dst.width(), 600);
    assert_eq!(dst.height(), 400);
}

#[test]
fn test_warp() {
    let img = picture();
    let src = vec![Pointf::new(0f32, 0f32), Pointf::new(1f32, 0f32)];
    let dst = vec![Pointf::new(0f32, 0f32), Pointf::new(1f32, 1f32)];

    let aff = Affine2D::nonreflect_similarity_from_points(&src, &dst, solve, invert).unwrap();
    let place = |w: u32, h: u32| {
        let c = aff.apply_inv([w as f32, h as f32, 1f32]);
        (coord(c[0] / c[2]), coord(c[1] / c[2]))
    };
    let out = warp_perspective(&img, 200, 200, place, InterplateType::Nearest, lower);
    assert_eq!(out.size(), (200, 200));

    let out = warp_perspective(&img, 300, 300, place, InterplateType::Bilinear, lower);
    assert_eq!(out.size(), (300, 300));
}

#[test]
fn test_flip() {
    let img = picture();

    let out = flip_vertical(&img);
    assert_eq!(out[(3, 119)], img[(3, 0)]);

    let out = flip_horizontal(&img);
    assert_eq!(out[(149, 5)], img[(0, 5)]);
}

#[test]
fn test_rotate() {
    let img = picture();

    let out = rotate_cw90(&img);
    assert_eq!(out.size(), (120, 150));
    assert_eq!(out[(119, 0)], img[(0, 0)]);

    let out = rotate_cw180(&img);
    assert_eq!(out.size(), (150, 120));
    assert_eq!(out[(149, 119)], img[(0, 0)]);

    let out = rotate_cw270(&img);
    assert_eq!(out.size(), (120, 150));
    assert_eq!(out[(0, 149)], img[(0, 0)]);
}
