use imageproc::geo::types::NumMinMax;
use imageproc::geo::{Point, Pointi, Rect, Recti};

#[test]
fn point_test_ops() {
    let p1 = Point::new(1, 4);
    let p2 = Point::new(2, 3);
    let out = p1 + p2;
    assert_eq!(out.x, 3);
    assert_eq!(out.y, 7);
}

#[test]
fn rect_test_ops() {
    let r1 = Rect::new(1f32, 1f32, 5f32, 6f32);
    let r2 = Rect::new(2f32, 3f32, 7f32, 7f32);
    let out = r1.intersect(&r2);
    assert_eq!(out, Rect::new(2f32, 3f32, 4f32, 4f32));
}

#[test]
fn point_sub_neg_mul_div() {
    let p: Pointi = Point::new(6, -4);
    let q: Pointi = Point::new(1, 2);
    assert_eq!(p - q, Point::new(5, -6));
    assert_eq!(-p, Point::new(-6, 4));
    assert_eq!(p * 3, Point::new(18, -12));
    assert_eq!(p / 2, Point::new(3, -2));
}

#[test]
fn rect_corners_and_area() {
    let r: Recti = Rect::new(1, 2, 5, 6);
    assert_eq!(r.tl(), Point::new(1, 2));
    assert_eq!(r.br(), Point::new(6, 8));
    assert_eq!(r.area(), 30);
}

#[test]
fn rect_contains_is_half_open() {
    let r: Recti = Rect::new(1, 1, 5, 6);
    assert!(r.contains(&Point::new(1, 1)));
    assert!(r.contains(&Point::new(5, 6)));
    assert!(!r.contains(&Point::new(6, 6)));
    assert!(!r.contains(&Point::new(5, 7)));
    assert!(!r.contains(&Point::new(0, 1)));
}

#[test]
fn rect_intersect_of_integers() {
    let r1: Recti = Rect::new(1, 1, 5, 6);
    let r2: Recti = Rect::new(2, 3, 7, 7);
    assert_eq!(r1.intersect(&r2), Rect::new(2, 3, 4, 4));
    assert_eq!(r2.intersect(&r1), Rect::new(2, 3, 4, 4));
}

#[test]
fn rect_intersect_of_disjoint_is_empty() {
    let r1: Recti = Rect::new(1, 1, 5, 6);
    let r2: Recti = Rect::new(20, 3, 7, 7);
    assert_eq!(r1.intersect(&r2), Rect::new(20, 3, 0, 0));
}

#[test]
fn rect_intersect_touching_has_no_area() {
    let r1: Recti = Rect::new(0, 0, 2, 2);
    let r2: Recti = Rect::new(2, 0, 2, 2);
    assert_eq!(r1.intersect(&r2), Rect::new(2, 0, 0, 2));
}

#[test]
fn min_max_of_two() {
    assert_eq!(NumMinMax::min(3i32, 5), 3);
    assert_eq!(NumMinMax::max(3i32, 5), 5);
    assert_eq!(NumMinMax::min(2.5f32, -1.0), -1.0);
    assert_eq!(NumMinMax::max(2.5f32, -1.0), 2.5);
}
