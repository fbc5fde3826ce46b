use imageproc::conv::{conv1d, conv2d_sep};
use imageproc::image::{Bgr, Gray, Image, ImageBgr, ImageGray};

#[test]
fn test_conv1d() {
    let src: Vec<f32> = vec![1.0, 1.0, 1.0, 2.0, 2.0, 2.0];
    let kern: Vec<f32> = vec![1.0, 2.0, 1.0];
    let res: Vec<f32> = vec![4.0, 4.0, 5.0, 7.0, 8.0, 8.0];
    let mut out = [0f32; 6];
    conv1d(&src, &mut out, &kern);
    assert_eq!(res, out);
}

#[test]
fn conv1d_of_bytes_in_integers() {
    let src: Vec<u8> = vec![1, 1, 1, 2, 2, 2];
    let kern: Vec<u32> = vec![1, 2, 1];
    let mut out = [0u32; 6];
    conv1d(&src, &mut out, &kern);
    assert_eq!(out, [4, 4, 5, 7, 8, 8]);
}

#[test]
fn conv1d_repeats_the_ends() {
    // a kernel that reads only the sample two places to the left
    let src: Vec<u8> = vec![10, 20, 30, 40];
    let mut out = [0u16; 4];
    conv1d(&src, &mut out, &[1u16, 0, 0, 0, 0]);
    assert_eq!(out, [10, 10, 10, 20]);
    // and two places to the right
    conv1d(&src, &mut out, &[0u16, 0, 0, 0, 1]);
    assert_eq!(out, [30, 40, 40, 40]);
}

#[test]
fn conv1d_with_even_kernel() {
    // two taps: the sample to the left and the sample itself
    let src: Vec<u8> = vec![1, 2, 3];
    let mut out = [0u32; 3];
    conv1d(&src, &mut out, &[10u32, 1]);
    assert_eq!(out, [11, 12, 23]);
}

#[test]
fn conv1d_leaves_the_rest_of_out() {
    let src: Vec<u8> = vec![1, 2];
    let mut out = [7u32; 4];
    conv1d(&src, &mut out, &[2u32]);
    assert_eq!(out, [2, 4, 7, 7]);
}

#[test]
fn conv1d_with_no_taps_is_zero() {
    let src: Vec<u8> = vec![1, 2];
    let mut out = [7u32; 2];
    let none: [u32; 0] = [];
    conv1d(&src, &mut out, &none);
    assert_eq!(out, [0, 0]);
}

#[test]
fn conv1d_of_nothing() {
    let src: Vec<u8> = Vec::new();
    let mut out = [7u32; 2];
    conv1d(&src, &mut out, &[1u32, 2, 1]);
    assert_eq!(out, [7, 7]);
}

fn narrow(v: u32) -> u8 {
    if v > 255 {
        255
    } else {
        v as u8
    }
}

#[test]
fn conv2d_sep_with_unit_kernels_is_identity() {
    let mut src = ImageBgr::new(3, 2);
    src.raw_mut(&[1, 2, 3, 4, 5, 6, 7, 8, 9, 10, 11, 12, 13, 14, 15, 16, 17, 18]);
    let out = conv2d_sep(&src, &[1u32], &[1u32], narrow);
    assert_eq!(out.size(), (3, 2));
    assert_eq!(out.raw(), src.raw());
}

#[test]
fn conv2d_sep_box_in_integers() {
    // 1 2 3
    // 4 5 6
    // 7 8 9
    let mut src = ImageGray::new(3, 3);
    src.raw_mut(&[1, 2, 3, 4, 5, 6, 7, 8, 9]);
    let ones = [1u32, 1, 1];
    let out = conv2d_sep(&src, &ones, &ones, narrow);
    // with the edges repeated, the sum over the 3x3 neighbourhood
    assert_eq!(out.raw(), vec![21, 27, 33, 39, 45, 51, 57, 63, 69]);
}

#[test]
fn conv2d_sep_passes_are_independent() {
    let mut src = ImageGray::new(3, 2);
    src.raw_mut(&[1, 2, 3, 4, 5, 6]);
    // horizontal only: left neighbour plus twice the pixel
    let out = conv2d_sep(&src, &[1u32, 2, 0], &[1u32], narrow);
    assert_eq!(out.raw(), vec![3, 5, 8, 12, 14, 17]);
    // vertical only: upper neighbour plus twice the pixel
    let out = conv2d_sep(&src, &[1u32], &[1u32, 2, 0], narrow);
    assert_eq!(out.raw(), vec![3, 6, 9, 9, 12, 15]);
}

#[test]
fn conv2d_sep_lowers_only_the_last_sum() {
    let mut src = ImageGray::new(2, 1);
    src.raw_mut(&[200, 100]);
    // the vertical pass gives 400 and 200, which no byte holds; the horizontal pass halves nothing
    let out = conv2d_sep(&src, &[1u32], &[2u32], narrow);
    assert_eq!(out.raw(), vec![255, 200]);
}

#[test]
fn conv2d_sep_in_floats() {
    let mut src = ImageGray::new(3, 1);
    src.raw_mut(&[10, 20, 60]);
    let k = [0.25f32, 0.5, 0.25];
    let out = conv2d_sep(&src, &k, &[1.0f32], |v: f32| v as u8);
    // 0.25 * 10 + 0.5 * 10 + 0.25 * 20 = 12.5; 2.5 + 10 + 15 = 27.5; 5 + 30 + 15 = 50
    assert_eq!(out.raw(), vec![12, 27, 50]);
}

#[test]
fn conv2d_sep_each_channel_by_itself() {
    let mut src = ImageBgr::new(2, 1);
    src.put(0, 0, Bgr([1, 10, 100]));
    src.put(1, 0, Bgr([2, 20, 200]));
    let out = conv2d_sep(&src, &[1u32, 1, 0], &[1u32], narrow);
    assert_eq!(out.get(0, 0), Bgr([2, 20, 200]));
    assert_eq!(out.get(1, 0), Bgr([3, 30, 255]));
}

#[test]
fn conv2d_sep_of_empty_image() {
    let src: Image<Gray<u8>> = Image::new(0, 3);
    let out = conv2d_sep(&src, &[1u32, 1, 1], &[1u32, 1, 1], narrow);
    assert_eq!(out.size(), (0, 3));
}

fn bell(sigma: f32) -> impl Fn(usize) -> f32 {
    move |t: usize| {
        let t = t as f32;
        (-t * t / 2.0 / (sigma * sigma)).exp()
    }
}

#[test]
fn gaussian_kernel_sums_to_one() {
    for w in 1..12usize {
        for sigma in [0.5f32, 0.8, 1.0, 2.5, 10.0] {
            let k = imageproc::conv::gaussian_kernel(w, bell(sigma));
            assert_eq!(k.len(), w);
            let sum: f32 = k.iter().sum();
            assert!((sum - 1.0).abs() < 1e-5);
        }
    }
}

#[test]
fn gaussian_kernel_is_symmetric() {
    for w in 1..9usize {
        let k = imageproc::conv::gaussian_kernel(w, bell(1.5));
        for i in 0..w {
            assert_eq!(k[i], k[w - 1 - i]);
        }
    }
}

#[test]
fn gaussian_kernel_values() {
    // three taps in proportion to the weights at the distances 2, 1 and 2
    let k = imageproc::conv::gaussian_kernel(3, bell(1.0));
    let far = (-2.0f32).exp();
    let near = (-0.5f32).exp();
    let sum = far + near + far;
    assert_eq!(k, vec![far / sum, near / sum, far / sum]);
    // in whole numbers: the weights 3, 6, 6, 3 over their sum 18
    let k = imageproc::conv::gaussian_kernel(4, |t: usize| 54 / (9 * t as u32));
    assert_eq!(k, vec![0, 0, 0, 0]);
    let k = imageproc::conv::gaussian_kernel(1, |_t: usize| 7u32);
    assert_eq!(k, vec![1]);
    let none: Vec<u32> = imageproc::conv::gaussian_kernel(0, |_t: usize| 7u32);
    assert_eq!(none.len(), 0);
}

#[test]
fn gaussian_blur_keeps_a_flat_image() {
    let mut src = ImageGray::new(5, 4);
    src.fill(&Gray([80]));
    let out = imageproc::conv::gaussian_blur(&src, 5, bell(1.2), |v: f32| v.round() as u8);
    assert_eq!(out.size(), (5, 4));
    assert_eq!(out.raw(), src.raw());
}

#[test]
fn gaussian_blur_spreads_a_point() {
    let mut src = ImageGray::new(5, 5);
    src.put(2, 2, Gray([200]));
    let out = imageproc::conv::gaussian_blur(&src, 3, bell(1.0), |v: f32| v.round() as u8);
    let k = imageproc::conv::gaussian_kernel(3, bell(1.0));
    for y in 0..5u32 {
        for x in 0..5u32 {
            let (dx, dy) = ((x as i32 - 2).abs(), (y as i32 - 2).abs());
            let expected = if dx > 1 || dy > 1 {
                0.0
            } else {
                // the kernel is mirrored, so the order of its taps does not show
                200.0 * k[(1 + dy) as usize] * k[(1 + dx) as usize]
            };
            assert_eq!(out.get(x, y), Gray([expected.round() as u8]));
        }
    }
}
