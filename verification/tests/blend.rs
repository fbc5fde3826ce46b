use imageproc::image::{blend, blend4, Bgr, Gray};

fn narrow(v: u32) -> u8 {
    if v > 255 {
        255
    } else {
        v as u8
    }
}

fn cut(v: f32) -> u8 {
    v as u8
}

#[test]
fn blend_in_floats() {
    let a = Bgr([100u8, 0, 255]);
    let b = Bgr([0u8, 100, 255]);
    assert_eq!(blend(a, b, 1.0f32, &cut), a);
    assert_eq!(blend(a, b, 0.0f32, &cut), b);
    assert_eq!(blend(a, b, 0.25f32, &cut), Bgr([25, 75, 255]));
    // 0.5 * 7 + 0.5 * 8 = 7.5, of which the fraction is cut off
    assert_eq!(blend(Gray([7u8]), Gray([8u8]), 0.5f32, &cut), Gray([7]));
}

#[test]
fn blend_in_integers() {
    let a = Gray([9u8]);
    let b = Gray([200u8]);
    assert_eq!(blend(a, b, 1u32, &narrow), a);
    assert_eq!(blend(a, b, 0u32, &narrow), b);
}

#[test]
fn blend4_weights() {
    let a = Gray([10u8]);
    let b = Gray([20u8]);
    let c = Gray([30u8]);
    let d = Gray([40u8]);
    // the shares are u v, (1 - u) v, u (1 - v) and (1 - u) (1 - v)
    assert_eq!(blend4(a, b, c, d, 1.0f32, 1.0f32, &cut), a);
    assert_eq!(blend4(a, b, c, d, 0.0f32, 1.0f32, &cut), b);
    assert_eq!(blend4(a, b, c, d, 1.0f32, 0.0f32, &cut), c);
    assert_eq!(blend4(a, b, c, d, 0.0f32, 0.0f32, &cut), d);
    assert_eq!(blend4(a, b, c, d, 0.5f32, 0.5f32, &cut), Gray([25]));
    // 0.75 * 0.25 * 10 + 0.25 * 0.25 * 20 + 0.75 * 0.75 * 30 + 0.25 * 0.75 * 40 = 27.5
    assert_eq!(blend4(a, b, c, d, 0.75f32, 0.25f32, &cut), Gray([27]));
}

#[test]
fn blend4_in_integers() {
    let a = Bgr([1u8, 2, 3]);
    let b = Bgr([4u8, 5, 6]);
    let c = Bgr([7u8, 8, 9]);
    let d = Bgr([10u8, 11, 12]);
    assert_eq!(blend4(a, b, c, d, 1u32, 1u32, &narrow), a);
    assert_eq!(blend4(a, b, c, d, 0u32, 1u32, &narrow), b);
    assert_eq!(blend4(a, b, c, d, 1u32, 0u32, &narrow), c);
    assert_eq!(blend4(a, b, c, d, 0u32, 0u32, &narrow), d);
}
