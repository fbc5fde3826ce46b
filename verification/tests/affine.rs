use imageproc::geo::Point;
use imageproc::math::affine::{Affine2D, LinearSystem, Mat3};
use nalgebra::{DMatrix, DVector, Matrix3};

type Pointf = Point<f32>;

fn solve<const N: usize>(s: LinearSystem<f32, N>) -> Option<[f32; N]> {
    let rows = s.a.len();
    let a = DMatrix::from_fn(rows, N, |r, c| s.a[r][c]);
    let b = DVector::from_vec(s.b);
    let x = if rows > N {
        let at = a.transpose();
        let atb = &at * b;
        (at * a).try_inverse()? * atb
    } else {
        a.try_inverse()? * b
    };
    let mut out = [0f32; N];
    for i in 0..N {
        out[i] = x[i];
    }
    Some(out)
}

fn invert(t: Mat3<f32>) -> Option<Mat3<f32>> {
    let m = Matrix3::new(
        t[0][0], t[0][1], t[0][2], t[1][0], t[1][1], t[1][2], t[2][0], t[2][1], t[2][2],
    );
    let i = m.try_inverse()?;
    Some([
        [i[(0, 0)], i[(0, 1)], i[(0, 2)]],
        [i[(1, 0)], i[(1, 1)], i[(1, 2)]],
        [i[(2, 0)], i[(2, 1)], i[(2, 2)]],
    ])
}

fn close(a: Pointf, b: Pointf) -> bool {
    (a.x - b.x).abs() < 1e-4 && (a.y - b.y).abs() < 1e-4
}

#[test]
fn test_affine() {
    let src = vec![Pointf::new(0f32, 0f32), Pointf::new(1f32, 0f32), Pointf::new(0f32, 1f32)];
    let dst = vec![Pointf::new(1f32, 0f32), Pointf::new(1f32, 1f32), Pointf::new(0f32, 0f32)];
    let aff1 = Affine2D::affine_from_points(&src, &dst, solve::<6>, invert).unwrap();
    assert_eq!(aff1.map_point(src[0].clone()), dst[0]);
    assert_eq!(aff1.map_point_inv(dst[0].clone()), src[0]);
}

#[test]
fn affine_recovers_every_point() {
    let src = vec![Pointf::new(0.0, 0.0), Pointf::new(1.0, 0.0), Pointf::new(0.0, 1.0)];
    let dst = vec![Pointf::new(1.0, 0.0), Pointf::new(1.0, 1.0), Pointf::new(0.0, 0.0)];
    let aff = Affine2D::affine_from_points(&src, &dst, solve::<6>, invert).unwrap();
    for i in 0..3 {
        assert!(close(aff.map_point(src[i]), dst[i]));
        assert!(close(aff.map_point_inv(dst[i]), src[i]));
    }
    for p in [Pointf::new(3.5, -2.0), Pointf::new(-7.0, 11.25), Pointf::new(0.0, 0.0)] {
        assert!(close(aff.map_point_inv(aff.map_point(p)), p));
        assert!(close(aff.map_point(aff.map_point_inv(p)), p));
    }
}

#[test]
fn affine_from_more_points_than_needed() {
    // twice as large, then shifted by (3, -1)
    let src = vec![
        Pointf::new(0.0, 0.0),
        Pointf::new(1.0, 0.0),
        Pointf::new(0.0, 1.0),
        Pointf::new(1.0, 1.0),
        Pointf::new(2.0, 3.0),
    ];
    let dst: Vec<Pointf> = src.iter().map(|p| Pointf::new(2.0 * p.x + 3.0, 2.0 * p.y - 1.0)).collect();
    let aff = Affine2D::affine_from_points(&src, &dst, solve::<6>, invert).unwrap();
    for i in 0..src.len() {
        assert!(close(aff.map_point(src[i]), dst[i]));
    }
    assert!(close(aff.map_point(Pointf::new(10.0, 10.0)), Pointf::new(23.0, 19.0)));
    assert_eq!(aff.t[2], [0.0, 0.0, 1.0]);
}

#[test]
fn affine_needs_three_pairs() {
    let two = vec![Pointf::new(0.0, 0.0), Pointf::new(1.0, 0.0)];
    assert!(Affine2D::affine_from_points(&two, &two, solve::<6>, invert).is_none());
    let three = vec![Pointf::new(0.0, 0.0), Pointf::new(1.0, 0.0), Pointf::new(0.0, 1.0)];
    assert!(Affine2D::affine_from_points(&three, &two, solve::<6>, invert).is_none());
    assert!(Affine2D::affine_from_points(&two, &three, solve::<6>, invert).is_none());
    let none: Vec<Pointf> = Vec::new();
    assert!(Affine2D::affine_from_points(&none, &none, solve::<6>, invert).is_none());
}

#[test]
fn affine_of_collinear_points_fails() {
    let src = vec![Pointf::new(0.0, 0.0), Pointf::new(1.0, 1.0), Pointf::new(2.0, 2.0)];
    let dst = vec![Pointf::new(0.0, 0.0), Pointf::new(1.0, 0.0), Pointf::new(0.0, 1.0)];
    assert!(Affine2D::affine_from_points(&src, &dst, solve::<6>, invert).is_none());
    let more = vec![
        Pointf::new(0.0, 0.0),
        Pointf::new(1.0, 1.0),
        Pointf::new(2.0, 2.0),
        Pointf::new(3.0, 3.0),
    ];
    let to = vec![
        Pointf::new(0.0, 0.0),
        Pointf::new(1.0, 0.0),
        Pointf::new(0.0, 1.0),
        Pointf::new(5.0, 1.0),
    ];
    assert!(Affine2D::affine_from_points(&more, &to, solve::<6>, invert).is_none());
}

#[test]
fn from_mat_of_singular_matrix_fails() {
    let flat: Mat3<f32> = [[1.0, 2.0, 3.0], [2.0, 4.0, 6.0], [0.0, 0.0, 1.0]];
    assert!(Affine2D::from_mat(flat, invert).is_none());
    let zero: Mat3<f32> = [[0.0; 3]; 3];
    assert!(Affine2D::from_mat(zero, invert).is_none());
    let shift: Mat3<f32> = [[1.0, 0.0, 5.0], [0.0, 1.0, -2.0], [0.0, 0.0, 1.0]];
    let a = Affine2D::from_mat(shift, invert).unwrap();
    assert_eq!(a.t, shift);
    assert_eq!(a.t_inv, [[1.0, 0.0, -5.0], [0.0, 1.0, 2.0], [0.0, 0.0, 1.0]]);
}

#[test]
fn affine_fails_where_no_solution_is_found() {
    let three = vec![Pointf::new(0.0, 0.0), Pointf::new(1.0, 0.0), Pointf::new(0.0, 1.0)];
    let r = Affine2D::affine_from_points(
        &three,
        &three,
        |_s: LinearSystem<f32, 6>| None::<[f32; 6]>,
        invert,
    );
    assert!(r.is_none());
    let r = Affine2D::affine_from_points(&three, &three, solve::<6>, |_t: Mat3<f32>| None);
    assert!(r.is_none());
}

#[test]
fn affine_system_layout() {
    let src = vec![Point::new(1i64, 2), Point::new(3, 4), Point::new(5, 6)];
    let dst = vec![Point::new(10i64, 20), Point::new(30, 40), Point::new(50, 60)];
    let r = Affine2D::affine_from_points(
        &src,
        &dst,
        |s: LinearSystem<i64, 6>| {
            assert_eq!(
                s.a,
                vec![
                    [1, 2, 1, 0, 0, 0],
                    [3, 4, 1, 0, 0, 0],
                    [5, 6, 1, 0, 0, 0],
                    [0, 0, 0, 1, 2, 1],
                    [0, 0, 0, 3, 4, 1],
                    [0, 0, 0, 5, 6, 1],
                ]
            );
            assert_eq!(s.b, vec![10, 30, 50, 20, 40, 60]);
            Some([7, 8, 9, 10, 11, 12])
        },
        |t: Mat3<i64>| {
            assert_eq!(t, [[7, 8, 9], [10, 11, 12], [0, 0, 1]]);
            Some([[1, 0, 0], [0, 1, 0], [0, 0, 1]])
        },
    )
    .unwrap();
    assert_eq!(r.t, [[7, 8, 9], [10, 11, 12], [0, 0, 1]]);
    assert_eq!(r.t_inv, [[1, 0, 0], [0, 1, 0], [0, 0, 1]]);
}

#[test]
fn similarity_system_layout() {
    let src = vec![Point::new(1i64, 2), Point::new(3, 4)];
    let dst = vec![Point::new(10i64, 20), Point::new(30, 40)];
    let r = Affine2D::nonreflect_similarity_from_points(
        &src,
        &dst,
        |s: LinearSystem<i64, 4>| {
            assert_eq!(s.a, vec![[1, 2, 1, 0], [3, 4, 1, 0], [2, -1, 0, 1], [4, -3, 0, 1]]);
            assert_eq!(s.b, vec![10, 30, 20, 40]);
            Some([7, 8, 9, 10])
        },
        |t: Mat3<i64>| {
            assert_eq!(t, [[7, 8, 9], [-8, 7, 10], [0, 0, 1]]);
            Some([[1, 0, 0], [0, 1, 0], [0, 0, 1]])
        },
    )
    .unwrap();
    assert_eq!(r.t, [[7, 8, 9], [-8, 7, 10], [0, 0, 1]]);
}

#[test]
fn similarity_of_two_points() {
    let src = vec![Pointf::new(0f32, 0f32), Pointf::new(1f32, 0f32)];
    let dst = vec![Pointf::new(0f32, 0f32), Pointf::new(0f32, 2f32)];
    let aff = Affine2D::nonreflect_similarity_from_points(&src, &dst, solve::<4>, invert).unwrap();
    assert!(close(aff.map_point(src[1].clone()), dst[1]));
    assert!(close(aff.map_point_inv(dst[1].clone()), src[1]));
    assert!(close(aff.map_point(src[0].clone()), dst[0]));
    // the turn keeps on turning: from the right to below, that is from (2, 0) to ...
    let to = aff.map_point(Pointf::new(2f32, 0f32));
    assert!(close(to, Pointf::new(0f32, 4f32)) || close(to, Pointf::new(0f32, -4f32)));
}

#[test]
fn similarity_needs_two_pairs() {
    let one = vec![Pointf::new(0.0, 0.0)];
    let two = vec![Pointf::new(0.0, 0.0), Pointf::new(1.0, 0.0)];
    assert!(Affine2D::nonreflect_similarity_from_points(&one, &one, solve::<4>, invert).is_none());
    assert!(Affine2D::nonreflect_similarity_from_points(&two, &one, solve::<4>, invert).is_none());
    assert!(Affine2D::nonreflect_similarity_from_points(&two, &two, solve::<4>, invert).is_some());
}

#[test]
fn similarity_of_one_point_twice_fails() {
    let src = vec![Pointf::new(1.0, 1.0), Pointf::new(1.0, 1.0)];
    let dst = vec![Pointf::new(0.0, 0.0), Pointf::new(2.0, 2.0)];
    assert!(Affine2D::nonreflect_similarity_from_points(&src, &dst, solve::<4>, invert).is_none());
}

#[test]
fn map_point_and_apply() {
    let a = Affine2D { t: [[2i32, 0, 3], [0, 2, -1], [0, 0, 1]], t_inv: [[1, 0, -3], [0, 1, 1], [0, 0, 1]] };
    assert_eq!(a.map_point(Point::new(5, 7)), Point::new(13, 13));
    assert_eq!(a.map_point_inv(Point::new(5, 7)), Point::new(2, 8));
    assert_eq!(a.apply([5, 7, 1]), [13, 13, 1]);
    assert_eq!(a.apply([5, 7, 2]), [16, 12, 2]);
    assert_eq!(a.apply_inv([5, 7, 1]), [2, 8, 1]);
    let p = Affine2D { t: [[1i32, 2, 3], [4, 5, 6], [7, 8, 9]], t_inv: [[0, 0, 0], [0, 0, 0], [0, 0, 0]] };
    assert_eq!(p.apply([1, 10, 100]), [321, 654, 987]);
}
