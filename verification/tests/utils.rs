use imageproc::math::utils::clip;
use imageproc::traits::Primitive;

#[test]
fn clip_limits_to_the_interval() {
    assert_eq!(clip(5, 0, 3), 3);
    assert_eq!(clip(-5, 0, 3), 0);
    assert_eq!(clip(2, 0, 3), 2);
    assert_eq!(clip(0, 0, 3), 0);
    assert_eq!(clip(3, 0, 3), 3);
    assert_eq!(clip(1.5f32, 0.0, 1.0), 1.0);
}

#[test]
fn clip_of_empty_interval_prefers_lower_bound() {
    assert_eq!(clip(-1, 4, 2), 4);
    assert_eq!(clip(3, 4, 2), 4);
    assert_eq!(clip(5, 4, 2), 2);
}

#[test]
fn primitive_bounds() {
    assert_eq!(<u8 as Primitive>::max_value(), 255);
    assert_eq!(<u8 as Primitive>::min_value(), 0);
    assert_eq!(<i8 as Primitive>::min_value(), -128);
    assert_eq!(<i16 as Primitive>::max_value(), 32767);
    assert_eq!(<u32 as Primitive>::max_value(), 4294967295);
    assert_eq!(<i64 as Primitive>::zero(), 0);
    assert_eq!(<usize as Primitive>::max_value(), usize::MAX);
    assert_eq!(<isize as Primitive>::min_value(), isize::MIN);
}

#[test]
fn primitive_saturating_arithmetic() {
    assert_eq!(Primitive::saturating_add(250u8, 10u8), 255);
    assert_eq!(Primitive::saturating_add(25u8, 10u8), 35);
    assert_eq!(Primitive::saturating_sub(5u8, 10u8), 0);
    assert_eq!(Primitive::saturating_add(120i8, 10i8), 127);
    assert_eq!(Primitive::saturating_add(-120i8, -10i8), -128);
    assert_eq!(Primitive::saturating_sub(-120i8, 10i8), -128);
    assert_eq!(Primitive::saturating_sub(120i8, -10i8), 127);
    assert_eq!(Primitive::saturating_sub(12i32, -10i32), 22);
    assert_eq!(Primitive::saturating_add(i64::MAX, 1i64), i64::MAX);
    assert_eq!(Primitive::saturating_sub(i64::MIN, 1i64), i64::MIN);
}
