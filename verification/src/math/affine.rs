//! Transforms of the plane in homogeneous coordinates, and the fitting of
//! a transform to pairs of points.
use vstd::prelude::*;
use std::ops::Neg;
use crate::geo::types::GeoScalar;
use crate::geo::Point;
use crate::math::arith::{can_add, can_multiply, can_negate, is_negative, is_product, is_sum};

verus! {

/// A matrix of three rows and three columns, row after row.
pub type Mat3<F> = [[F; 3]; 3];

/// A transform of the plane in homogeneous coordinates, together with the
/// transform that undoes it. The two are made together and belong together:
/// `t_inv` is what the inversion handed to `from_mat` gave for `t`.
#[derive(Debug, Clone, Copy)]
pub struct Affine2D<F> {
    pub t: Mat3<F>,
    pub t_inv: Mat3<F>,
}

/// A system of linear equations `a x = b` in `N` unknowns: `a` holds the
/// coefficients of each equation, `b` its right-hand side.
#[derive(Debug, Clone)]
pub struct LinearSystem<F, const N: usize> {
    pub a: Vec<[F; N]>,
    pub b: Vec<F>,
}

impl<F, const N: usize> LinearSystem<F, N> {
    /// The number of equations.
    pub open spec fn rows(self) -> nat {
        self.a@.len()
    }

    /// The coefficient of unknown `c` in equation `r`.
    pub open spec fn at(self, r: int, c: int) -> F {
        self.a@[r]@[c]
    }

    /// There is a right-hand side for each equation.
    pub open spec fn wf(self) -> bool {
        self.b@.len() == self.a@.len()
    }
}

/// Whether `v` is the number `n` as a value of `F`: what `F::from(n)` returns.
pub open spec fn is_number<F: From<i8>>(v: F, n: i8) -> bool {
    call_ensures(<F as From<i8>>::from, (n,), v)
}

/// Whether `r` is one coordinate of the point that a transform takes `p`
/// to, for the row `row` of the transform: `row[0] * p.x + row[1] * p.y +
/// row[2]`, added up from the left.
pub open spec fn is_row_point<F: GeoScalar>(row: Seq<F>, p: Point<F>, r: F) -> bool {
    exists|a: F, b: F, s: F|
        #![trigger is_sum(a, b, s), is_sum(s, row[2], r)]
        {
            &&& is_product(row[0], p.x, a)
            &&& is_product(row[1], p.y, b)
            &&& is_sum(a, b, s)
            &&& is_sum(s, row[2], r)
        }
}

/// Whether the products and sums of `is_row_point` can be computed,
/// whatever the steps before have given.
pub open spec fn row_point_ok<F: GeoScalar>(row: Seq<F>, p: Point<F>) -> bool {
    &&& can_multiply(row[0], p.x)
    &&& can_multiply(row[1], p.y)
    &&& forall|a: F, b: F|
        #![trigger is_product(row[0], p.x, a), is_product(row[1], p.y, b)]
        is_product(row[0], p.x, a) && is_product(row[1], p.y, b) ==> can_add(a, b)
    &&& forall|a: F, b: F, s: F| #[trigger]
        is_sum(a, b, s) && is_product(row[0], p.x, a) && is_product(row[1], p.y, b) ==> can_add(
            s,
            row[2],
        )
}

/// Whether `q` is the point that the transform `m` takes `p` to: the first
/// two coordinates of `m` times the column `(p.x, p.y, 1)`, for a transform
/// whose last row is `(0, 0, 1)`.
pub open spec fn is_mapped<F: GeoScalar>(m: Mat3<F>, p: Point<F>, q: Point<F>) -> bool {
    is_row_point(m@[0]@, p, q.x) && is_row_point(m@[1]@, p, q.y)
}

/// Whether the point that `m` takes `p` to can be computed.
pub open spec fn map_ok<F: GeoScalar>(m: Mat3<F>, p: Point<F>) -> bool {
    row_point_ok(m@[0]@, p) && row_point_ok(m@[1]@, p)
}

/// Whether `r` is one coordinate of a matrix times a column: `row[0] * v[0]
/// + row[1] * v[1] + row[2] * v[2]`, added up from the left.
pub open spec fn is_row_dot<F: GeoScalar>(row: Seq<F>, v: Seq<F>, r: F) -> bool {
    exists|a: F, b: F, c: F, s: F|
        #![trigger is_sum(a, b, s), is_sum(s, c, r)]
        {
            &&& is_product(row[0], v[0], a)
            &&& is_product(row[1], v[1], b)
            &&& is_product(row[2], v[2], c)
            &&& is_sum(a, b, s)
            &&& is_sum(s, c, r)
        }
}

/// Whether the products and sums of `is_row_dot` can be computed, whatever
/// the steps before have given.
pub open spec fn row_dot_ok<F: GeoScalar>(row: Seq<F>, v: Seq<F>) -> bool {
    &&& can_multiply(row[0], v[0])
    &&& can_multiply(row[1], v[1])
    &&& can_multiply(row[2], v[2])
    &&& forall|a: F, b: F|
        #![trigger is_product(row[0], v[0], a), is_product(row[1], v[1], b)]
        is_product(row[0], v[0], a) && is_product(row[1], v[1], b) ==> can_add(a, b)
    &&& forall|a: F, b: F, c: F, s: F|
        #![trigger is_sum(a, b, s), is_product(row[2], v[2], c)]
        is_sum(a, b, s) && is_product(row[0], v[0], a) && is_product(row[1], v[1], b)
            && is_product(row[2], v[2], c) ==> can_add(s, c)
}

/// Whether `r` is the matrix `m` times the column `v`.
pub open spec fn is_applied<F: GeoScalar>(m: Mat3<F>, v: [F; 3], r: [F; 3]) -> bool {
    &&& is_row_dot(m@[0]@, v@, r@[0])
    &&& is_row_dot(m@[1]@, v@, r@[1])
    &&& is_row_dot(m@[2]@, v@, r@[2])
}

/// Whether the matrix `m` times the column `v` can be computed.
pub open spec fn apply_ok<F: GeoScalar>(m: Mat3<F>, v: [F; 3]) -> bool {
    &&& row_dot_ok(m@[0]@, v@)
    &&& row_dot_ok(m@[1]@, v@)
    &&& row_dot_ok(m@[2]@, v@)
}

/// One coordinate of the point that a transform takes `p` to.
fn row_point<F: GeoScalar>(row: &[F; 3], p: Point<F>) -> (r: F)
    requires
        row_point_ok(row@, p),
    ensures
        is_row_point(row@, p, r),
{
    let a = row[0] * p.x;
    let b = row[1] * p.y;
    proof {
        assert(is_product(row@[0], p.x, a));
        assert(is_product(row@[1], p.y, b));
    }
    let s = a + b;
    proof {
        assert(is_sum(a, b, s));
    }
    let r = s + row[2];
    proof {
        assert(is_sum(s, row@[2], r));
    }
    r
}

/// One coordinate of a matrix times a column.
fn row_dot<F: GeoScalar>(row: &[F; 3], v: &[F; 3]) -> (r: F)
    requires
        row_dot_ok(row@, v@),
    ensures
        is_row_dot(row@, v@, r),
{
    let a = row[0] * v[0];
    let b = row[1] * v[1];
    proof {
        assert(is_product(row@[0], v@[0], a));
        assert(is_product(row@[1], v@[1], b));
    }
    let s = a + b;
    let c = row[2] * v[2];
    proof {
        assert(is_sum(a, b, s));
        assert(is_product(row@[2], v@[2], c));
    }
    let r = s + c;
    proof {
        assert(is_sum(s, c, r));
    }
    r
}

/// `m` applied to the point `p`.
fn map_by<F: GeoScalar>(m: &Mat3<F>, p: Point<F>) -> (q: Point<F>)
    requires
        map_ok(*m, p),
    ensures
        is_mapped(*m, p, q),
{
    Point { x: row_point(&m[0], p), y: row_point(&m[1], p) }
}

/// `m` times the column `v`.
fn apply_by<F: GeoScalar>(m: &Mat3<F>, v: [F; 3]) -> (r: [F; 3])
    requires
        apply_ok(*m, v),
    ensures
        is_applied(*m, v, r),
{
    [row_dot(&m[0], &v), row_dot(&m[1], &v), row_dot(&m[2], &v)]
}

impl<F: GeoScalar> Affine2D<F> {
    /// The transform `t` with what undoes it, where `invert` finds that;
    /// `None` where `invert` finds that `t` cannot be undone.
    pub fn from_mat<I>(t: Mat3<F>, invert: I) -> (r: Option<Affine2D<F>>) where
        I: Fn(Mat3<F>) -> Option<Mat3<F>>,

        requires
            call_requires(invert, (t,)),
        ensures
            match r {
                Some(a) => a.t == t && call_ensures(invert, (t,), Some(a.t_inv)),
                None => call_ensures(invert, (t,), None::<Mat3<F>>),
            },
    {
        match invert(t) {
            Some(ti) => Some(Affine2D { t, t_inv: ti }),
            None => None,
        }
    }

    /// The point that the transform takes `src` to.
    pub fn map_point(&self, src: Point<F>) -> (dst: Point<F>)
        requires
            map_ok(self.t, src),
        ensures
            is_mapped(self.t, src, dst),
    {
        map_by(&self.t, src)
    }

    /// The point that the transform takes to `src`.
    pub fn map_point_inv(&self, src: Point<F>) -> (dst: Point<F>)
        requires
            map_ok(self.t_inv, src),
        ensures
            is_mapped(self.t_inv, src, dst),
    {
        map_by(&self.t_inv, src)
    }

    /// The matrix of the transform times the column `raw`.
    pub fn apply(&self, raw: [F; 3]) -> (m: [F; 3])
        requires
            apply_ok(self.t, raw),
        ensures
            is_applied(self.t, raw, m),
    {
        apply_by(&self.t, raw)
    }

    /// The matrix of what undoes the transform times the column `raw`.
    pub fn apply_inv(&self, raw: [F; 3]) -> (m: [F; 3])
        requires
            apply_ok(self.t_inv, raw),
        ensures
            is_applied(self.t_inv, raw, m),
    {
        apply_by(&self.t_inv, raw)
    }
}

/// Whether there are as many points to map to as to map from, and at least
/// `least` of them.
pub open spec fn enough_points<F: GeoScalar>(
    src: Seq<Point<F>>,
    dst: Seq<Point<F>>,
    least: nat,
) -> bool {
    src.len() == dst.len() && src.len() >= least
}

/// Whether `s` is the system of equations whose solution is the six
/// coefficients of a transform that takes each point of `src` to the point
/// of `dst` at the same place: for point `i`, equation `i` says
/// `x0 * src.x + x1 * src.y + x2 = dst.x` and equation `n + i` says
/// `x3 * src.x + x4 * src.y + x5 = dst.y`.
pub open spec fn is_affine_system<F: GeoScalar + From<i8>>(
    s: LinearSystem<F, 6>,
    src: Seq<Point<F>>,
    dst: Seq<Point<F>>,
) -> bool {
    let n = src.len() as int;
    &&& s.wf()
    &&& s.rows() == 2 * n
    &&& forall|i: int|
        0 <= i < n ==> {
            let row = #[trigger] s.a@[i]@;
            &&& row[0] == src[i].x
            &&& row[1] == src[i].y
            &&& is_number(row[2], 1)
            &&& is_number(row[3], 0)
            &&& is_number(row[4], 0)
            &&& is_number(row[5], 0)
            &&& s.b@[i] == dst[i].x
        }
    &&& forall|i: int|
        n <= i < 2 * n ==> {
            let row = #[trigger] s.a@[i]@;
            &&& is_number(row[0], 0)
            &&& is_number(row[1], 0)
            &&& is_number(row[2], 0)
            &&& row[3] == src[i - n].x
            &&& row[4] == src[i - n].y
            &&& is_number(row[5], 1)
            &&& s.b@[i] == dst[i - n].y
        }
}

/// Whether the row of coefficients `row` holds the values `values`.
pub open spec fn is_row<F>(row: Seq<F>, values: Seq<F>) -> bool {
    row.len() == values.len() && forall|c: int| 0 <= c < row.len() ==> row[c] == values[c]
}

/// Whether `t` is the transform with the six coefficients `x`: they are its
/// first two rows, and its last row is `(0, 0, 1)`.
pub open spec fn is_affine_matrix<F: GeoScalar + From<i8>>(t: Mat3<F>, x: [F; 6]) -> bool {
    &&& t@[0]@ == seq![x@[0], x@[1], x@[2]]
    &&& t@[1]@ == seq![x@[3], x@[4], x@[5]]
    &&& is_number(t@[2]@[0], 0)
    &&& is_number(t@[2]@[1], 0)
    &&& is_number(t@[2]@[2], 1)
}

/// Whether `r` is what comes of the transform `t`: nothing where `invert`
/// finds that it cannot be undone, else the transform with what undoes it.
pub open spec fn is_inverted<F: GeoScalar, I: Fn(Mat3<F>) -> Option<Mat3<F>>>(
    r: Option<Affine2D<F>>,
    t: Mat3<F>,
    invert: I,
) -> bool {
    match r {
        Some(a) => a.t == t && call_ensures(invert, (t,), Some(a.t_inv)),
        None => call_ensures(invert, (t,), None::<Mat3<F>>),
    }
}

/// Whether `r` is what comes of the solution `x` of the system for a
/// transform with six coefficients: nothing where there is no solution,
/// else what comes of the transform with these coefficients.
pub open spec fn is_affine_estimate<F: GeoScalar + From<i8>, I: Fn(Mat3<F>) -> Option<Mat3<F>>>(
    r: Option<Affine2D<F>>,
    x: Option<[F; 6]>,
    invert: I,
) -> bool {
    match x {
        None => r is None,
        Some(x) => exists|t: Mat3<F>| #[trigger] is_affine_matrix(t, x) && is_inverted(r, t, invert),
    }
}

impl<F: GeoScalar + From<i8>> Affine2D<F> {
    /// The transform that takes each point of `src` to the point of `dst` at
    /// the same place, as nearly as a transform with six free coefficients
    /// can: `solve` is handed the system of equations that says so and `invert`
    /// the transform that its solution stands for.
    ///
    /// There is no result where the points are fewer than three or not as
    /// many in `dst` as in `src`, where `solve` finds no solution, or where
    /// `invert` finds that the transform cannot be undone.
    pub fn affine_from_points<S, I>(
        src: &[Point<F>],
        dst: &[Point<F>],
        solve: S,
        invert: I,
    ) -> (r: Option<Affine2D<F>>) where
        S: Fn(LinearSystem<F, 6>) -> Option<[F; 6]>,
        I: Fn(Mat3<F>) -> Option<Mat3<F>>,

        requires
            src@.len() * 2 <= usize::MAX,
            forall|s: LinearSystem<F, 6>|
                is_affine_system(s, src@, dst@) ==> call_requires(solve, (s,)),
            forall|t: Mat3<F>| call_requires(invert, (t,)),
        ensures
            !enough_points(src@, dst@, 3) ==> r is None,
            enough_points(src@, dst@, 3) ==> exists|s: LinearSystem<F, 6>, x: Option<[F; 6]>|
                {
                    &&& is_affine_system(s, src@, dst@)
                    &&& #[trigger] call_ensures(solve, (s,), x)
                    &&& is_affine_estimate(r, x, invert)
                },
    {
        if src.len() != dst.len() || src.len() < 3 {
            return None;
        }
        let n = src.len();
        let zero = F::from(0i8);
        let one = F::from(1i8);
        let mut a: Vec<[F; 6]> = Vec::with_capacity(2 * n);
        let mut b: Vec<F> = Vec::with_capacity(2 * n);
        let mut i: usize = 0;
        while i < n
            invariant
                0 <= i <= n,
                n == src@.len(),
                n == dst@.len(),
                is_number(zero, 0),
                is_number(one, 1),
                a@.len() == i,
                b@.len() == i,
                forall|k: int|
                    0 <= k < i ==> is_row(
                        (#[trigger] a@[k])@,
                        seq![src@[k].x, src@[k].y, one, zero, zero, zero],
                    ) && b@[k] == dst@[k].x,
            decreases n - i,
        {
            let row = [src[i].x, src[i].y, one, zero, zero, zero];

            a.push(row);
            b.push(dst[i].x);
            i += 1;
        }
        let mut i: usize = 0;
        while i < n
            invariant
                0 <= i <= n,
                n == src@.len(),
                n == dst@.len(),
                n * 2 <= usize::MAX,
                is_number(zero, 0),
                is_number(one, 1),
                a@.len() == n + i,
                b@.len() == n + i,
                forall|k: int|
                    0 <= k < n ==> is_row(
                        (#[trigger] a@[k])@,
                        seq![src@[k].x, src@[k].y, one, zero, zero, zero],
                    ) && b@[k] == dst@[k].x,
                forall|k: int|
                    n <= k < n + i ==> is_row(
                        (#[trigger] a@[k])@,
                        seq![zero, zero, zero, src@[k - n].x, src@[k - n].y, one],
                    ) && b@[k] == dst@[k - n].y,
            decreases n - i,
        {
            let row = [zero, zero, zero, src[i].x, src[i].y, one];

            a.push(row);
            b.push(dst[i].y);
            i += 1;
        }
        let system = LinearSystem { a, b };
        proof {
            assert(is_affine_system(system, src@, dst@));
        }
        match solve(system) {
            Some(x) => {
                let t: Mat3<F> = [[x[0], x[1], x[2]], [x[3], x[4], x[5]], [zero, zero, one]];
                let r = Affine2D::from_mat(t, invert);
                proof {
                    assert(t@[0]@ =~= seq![x@[0], x@[1], x@[2]]);
                    assert(t@[1]@ =~= seq![x@[3], x@[4], x@[5]]);
                    assert(is_affine_matrix(t, x));
                    assert(is_inverted(r, t, invert));
                    assert(call_ensures(solve, (system,), Some(x)));
                    assert(is_affine_estimate(r, Some(x), invert));
                }
                r
            },
            None => {
                proof {
                    assert(call_ensures(solve, (system,), None::<[F; 6]>));
                    assert(is_affine_estimate(None::<Affine2D<F>>, None::<[F; 6]>, invert));
                }
                None
            },
        }
    }
}

/// Whether `s` is the system of equations whose solution is the four
/// coefficients of a turn with scaling and shift that takes each point of
/// `src` to the point of `dst` at the same place: for point `i`, equation
/// `i` says `x0 * src.x + x1 * src.y + x2 = dst.x` and equation `n + i` says
/// `x0 * src.y - x1 * src.x + x3 = dst.y`.
pub open spec fn is_similarity_system<F: GeoScalar + From<i8>>(
    s: LinearSystem<F, 4>,
    src: Seq<Point<F>>,
    dst: Seq<Point<F>>,
) -> bool {
    let n = src.len() as int;
    &&& s.wf()
    &&& s.rows() == 2 * n
    &&& forall|i: int|
        0 <= i < n ==> {
            let row = #[trigger] s.a@[i]@;
            &&& row[0] == src[i].x
            &&& row[1] == src[i].y
            &&& is_number(row[2], 1)
            &&& is_number(row[3], 0)
            &&& s.b@[i] == dst[i].x
        }
    &&& forall|i: int|
        n <= i < 2 * n ==> {
            let row = #[trigger] s.a@[i]@;
            &&& row[0] == src[i - n].y
            &&& is_negative(src[i - n].x, row[1])
            &&& is_number(row[2], 0)
            &&& is_number(row[3], 1)
            &&& s.b@[i] == dst[i - n].y
        }
}

/// Whether `t` is the turn with scaling and shift that has the four
/// coefficients `x`: its rows are `(x0, x1, x2)`, `(-x1, x0, x3)` and
/// `(0, 0, 1)`.
pub open spec fn is_similarity_matrix<F: GeoScalar + From<i8>>(t: Mat3<F>, x: [F; 4]) -> bool {
    &&& t@[0]@ == seq![x@[0], x@[1], x@[2]]
    &&& is_negative(x@[1], t@[1]@[0])
    &&& t@[1]@[1] == x@[0]
    &&& t@[1]@[2] == x@[3]
    &&& is_number(t@[2]@[0], 0)
    &&& is_number(t@[2]@[1], 0)
    &&& is_number(t@[2]@[2], 1)
}

/// Whether `r` is what comes of the solution `x` of the system for a turn
/// with scaling and shift: nothing where there is no solution, else what
/// comes of the transform with these coefficients.
pub open spec fn is_similarity_estimate<
    F: GeoScalar + From<i8>,
    I: Fn(Mat3<F>) -> Option<Mat3<F>>,
>(r: Option<Affine2D<F>>, x: Option<[F; 4]>, invert: I) -> bool {
    match x {
        None => r is None,
        Some(x) => exists|t: Mat3<F>| #[trigger]
            is_similarity_matrix(t, x) && is_inverted(r, t, invert),
    }
}

impl<F: GeoScalar + From<i8>> Affine2D<F> {
    /// The turn with scaling and shift, without mirroring, that takes each
    /// point of `src` to the point of `dst` at the same place, as nearly as
    /// such a transform can: `solve` is handed the system of equations that
    /// says so and `invert` the transform that its solution stands for.
    ///
    /// There is no result where the points are fewer than two or not as
    /// many in `dst` as in `src`, where `solve` finds no solution, or where
    /// `invert` finds that the transform cannot be undone.
    pub fn nonreflect_similarity_from_points<S, I>(
        src: &[Point<F>],
        dst: &[Point<F>],
        solve: S,
        invert: I,
    ) -> (r: Option<Affine2D<F>>) where
        S: Fn(LinearSystem<F, 4>) -> Option<[F; 4]>,
        I: Fn(Mat3<F>) -> Option<Mat3<F>>,

        requires
            src@.len() * 2 <= usize::MAX,
            forall|i: int| 0 <= i < src@.len() ==> can_negate((#[trigger] src@[i]).x),
            forall|s: LinearSystem<F, 4>|
                is_similarity_system(s, src@, dst@) ==> call_requires(solve, (s,)),
            forall|s: LinearSystem<F, 4>, x: [F; 4]| #[trigger]
                call_ensures(solve, (s,), Some(x)) ==> can_negate(x@[1]),
            forall|t: Mat3<F>| call_requires(invert, (t,)),
        ensures
            !enough_points(src@, dst@, 2) ==> r is None,
            enough_points(src@, dst@, 2) ==> exists|s: LinearSystem<F, 4>, x: Option<[F; 4]>|
                {
                    &&& is_similarity_system(s, src@, dst@)
                    &&& #[trigger] call_ensures(solve, (s,), x)
                    &&& is_similarity_estimate(r, x, invert)
                },
    {
        if src.len() != dst.len() || src.len() < 2 {
            return None;
        }
        let n = src.len();
        let zero = F::from(0i8);
        let one = F::from(1i8);
        let mut a: Vec<[F; 4]> = Vec::with_capacity(2 * n);
        let mut b: Vec<F> = Vec::with_capacity(2 * n);
        let mut i: usize = 0;
        while i < n
            invariant
                0 <= i <= n,
                n == src@.len(),
                n == dst@.len(),
                is_number(zero, 0),
                is_number(one, 1),
                a@.len() == i,
                b@.len() == i,
                forall|k: int|
                    0 <= k < i ==> is_row(
                        (#[trigger] a@[k])@,
                        seq![src@[k].x, src@[k].y, one, zero],
                    ) && b@[k] == dst@[k].x,
            decreases n - i,
        {
            let row = [src[i].x, src[i].y, one, zero];
            a.push(row);
            b.push(dst[i].x);
            i += 1;
        }
        let mut i: usize = 0;
        while i < n
            invariant
                0 <= i <= n,
                n == src@.len(),
                n == dst@.len(),
                n * 2 <= usize::MAX,
                is_number(zero, 0),
                is_number(one, 1),
                forall|k: int| 0 <= k < src@.len() ==> can_negate((#[trigger] src@[k]).x),
                a@.len() == n + i,
                b@.len() == n + i,
                forall|k: int|
                    0 <= k < n ==> is_row(
                        (#[trigger] a@[k])@,
                        seq![src@[k].x, src@[k].y, one, zero],
                    ) && b@[k] == dst@[k].x,
                forall|k: int|
                    n <= k < n + i ==> {
                        let row = (#[trigger] a@[k])@;
                        &&& row[0] == src@[k - n].y
                        &&& is_negative(src@[k - n].x, row[1])
                        &&& row[2] == zero
                        &&& row[3] == one
                        &&& b@[k] == dst@[k - n].y
                    },
            decreases n - i,
        {
            assert(can_negate(src@[i as int].x));
            let row = [src[i].y, src[i].x.neg(), zero, one];
            a.push(row);
            b.push(dst[i].y);
            i += 1;
        }
        let system = LinearSystem { a, b };
        proof {
            assert(is_similarity_system(system, src@, dst@));
        }
        match solve(system) {
            Some(x) => {
                let t: Mat3<F> = [[x[0], x[1], x[2]], [x[1].neg(), x[0], x[3]], [zero, zero, one]];
                let r = Affine2D::from_mat(t, invert);
                proof {
                    assert(t@[0]@ =~= seq![x@[0], x@[1], x@[2]]);
                    assert(is_similarity_matrix(t, x));
                    assert(is_inverted(r, t, invert));
                    assert(call_ensures(solve, (system,), Some(x)));
                    assert(is_similarity_estimate(r, Some(x), invert));
                }
                r
            },
            None => {
                proof {
                    assert(call_ensures(solve, (system,), None::<[F; 4]>));
                    assert(is_similarity_estimate(None::<Affine2D<F>>, None::<[F; 4]>, invert));
                }
                None
            },
        }
    }
}

/// The point that a transform in whole numbers takes the point `(x, y)` to,
/// in numbers without bounds.
pub open spec fn spec_map_whole(m: Mat3<i64>, x: int, y: int) -> (int, int) {
    (m@[0]@[0] * x + m@[0]@[1] * y + m@[0]@[2], m@[1]@[0] * x + m@[1]@[1] * y + m@[1]@[2])
}

/// Whether a number fits in 64 bits.
pub open spec fn fits(v: int) -> bool {
    i64::MIN <= v <= i64::MAX
}

/// Whether the products and sums on the way to the point that `m` takes `p`
/// to fit in 64 bits.
pub open spec fn map_fits(m: Mat3<i64>, p: Point<i64>) -> bool {
    &&& fits(m@[0]@[0] * p.x) && fits(m@[0]@[1] * p.y) && fits(m@[0]@[0] * p.x + m@[0]@[1] * p.y)
    &&& fits(m@[1]@[0] * p.x) && fits(m@[1]@[1] * p.y) && fits(m@[1]@[0] * p.x + m@[1]@[1] * p.y)
    &&& fits(spec_map_whole(m, p.x as int, p.y as int).0)
    &&& fits(spec_map_whole(m, p.x as int, p.y as int).1)
}

/// In whole numbers that fit, the point that `map_point` gives is the point
/// that the transform takes the point to.
pub proof fn lemma_map_point_whole(m: Mat3<i64>, p: Point<i64>, q: Point<i64>)
    requires
        map_fits(m, p),
        is_mapped(m, p, q),
    ensures
        (q.x as int, q.y as int) == spec_map_whole(m, p.x as int, p.y as int),
{
}

/// Whether `x` solves the system `s` of equations in whole numbers: in each
/// equation the coefficients times the unknowns add up to the right-hand
/// side.
pub open spec fn solves(s: LinearSystem<i64, 6>, x: [i64; 6]) -> bool {
    forall|r: int|
        0 <= r < s.rows() ==> s.at(r, 0) * x@[0] + s.at(r, 1) * x@[1] + s.at(r, 2) * x@[2] + s.at(
            r,
            3,
        ) * x@[3] + s.at(r, 4) * x@[4] + s.at(r, 5) * x@[5] == #[trigger] s.b@[r]
}

/// A transform made of a solution of the system for some pairs of points
/// takes each of the points to its partner.
pub proof fn lemma_solution_maps_points(
    src: Seq<Point<i64>>,
    dst: Seq<Point<i64>>,
    s: LinearSystem<i64, 6>,
    x: [i64; 6],
    t: Mat3<i64>,
    i: int,
)
    requires
        enough_points(src, dst, 3),
        is_affine_system(s, src, dst),
        solves(s, x),
        is_affine_matrix(t, x),
        0 <= i < src.len(),
    ensures
        spec_map_whole(t, src[i].x as int, src[i].y as int) == (dst[i].x as int, dst[i].y as int),
{
    let n = src.len() as int;
    let upper = s.a@[i]@;
    let lower = s.a@[n + i]@;
    let p = src[i];
    assert(s.b@[i] == dst[i].x);
    assert(s.b@[n + i] == dst[i].y);
    assert(upper[0] == p.x && upper[1] == p.y);
    assert(upper[2] == 1 && upper[3] == 0 && upper[4] == 0 && upper[5] == 0);
    assert(lower[0] == 0 && lower[1] == 0 && lower[2] == 0 && lower[5] == 1);
    assert(lower[3] == p.x && lower[4] == p.y);
    assert(t@[0]@[0] == x@[0] && t@[0]@[1] == x@[1] && t@[0]@[2] == x@[2]);
    assert(t@[1]@[0] == x@[3] && t@[1]@[1] == x@[4] && t@[1]@[2] == x@[5]);
    let (x0, x1, x2) = (x@[0] as int, x@[1] as int, x@[2] as int);
    let (x3, x4, x5) = (x@[3] as int, x@[4] as int, x@[5] as int);
    let (px, py) = (p.x as int, p.y as int);
    assert(px * x0 + py * x1 + 1 * x2 + 0 * x3 + 0 * x4 + 0 * x5 == dst[i].x as int) by {
        assert(s.at(i, 0) * x@[0] + s.at(i, 1) * x@[1] + s.at(i, 2) * x@[2] + s.at(i, 3) * x@[3]
            + s.at(i, 4) * x@[4] + s.at(i, 5) * x@[5] == s.b@[i]);
    }
    assert(0 * x0 + 0 * x1 + 0 * x2 + px * x3 + py * x4 + 1 * x5 == dst[i].y as int) by {
        assert(s.at(n + i, 0) * x@[0] + s.at(n + i, 1) * x@[1] + s.at(n + i, 2) * x@[2] + s.at(
            n + i,
            3,
        ) * x@[3] + s.at(n + i, 4) * x@[4] + s.at(n + i, 5) * x@[5] == s.b@[n + i]);
    }
    let (dx, dy) = (dst[i].x as int, dst[i].y as int);
    assert(x0 * px + x1 * py + x2 == dx) by (nonlinear_arith)
        requires
            px * x0 + py * x1 + 1 * x2 + 0 * x3 + 0 * x4 + 0 * x5 == dx,
    ;
    assert(x3 * px + x4 * py + x5 == dy) by (nonlinear_arith)
        requires
            0 * x0 + 0 * x1 + 0 * x2 + px * x3 + py * x4 + 1 * x5 == dy,
    ;
}

/// What a transform applied after another does to a point: the products of
/// the rows of the one with the columns of the other.
proof fn lemma_row_after(
    p: int,
    q: int,
    r: int,
    a: int,
    b: int,
    c: int,
    d: int,
    e: int,
    f: int,
    x: int,
    y: int,
)
    ensures
        p * (a * x + b * y + c) + q * (d * x + e * y + f) + r == (p * a + q * d) * x + (p * b + q
            * e) * y + (p * c + q * f + r),
{
    assert(p * (a * x + b * y + c) == p * (a * x) + p * (b * y) + p * c) by (nonlinear_arith);
    assert(q * (d * x + e * y + f) == q * (d * x) + q * (e * y) + q * f) by (nonlinear_arith);
    assert(p * (a * x) == (p * a) * x) by (nonlinear_arith);
    assert(p * (b * y) == (p * b) * y) by (nonlinear_arith);
    assert(q * (d * x) == (q * d) * x) by (nonlinear_arith);
    assert(q * (e * y) == (q * e) * y) by (nonlinear_arith);
    assert((p * a + q * d) * x == (p * a) * x + (q * d) * x) by (nonlinear_arith);
    assert((p * b + q * e) * y == (p * b) * y + (q * e) * y) by (nonlinear_arith);
}

/// Whether the transform `u`, applied after `t`, leaves every point where
/// it was, for transforms in whole numbers whose last row is `(0, 0, 1)`.
pub open spec fn undoes(u: Mat3<i64>, t: Mat3<i64>) -> bool {
    let (a, b, c) = (t@[0]@[0] as int, t@[0]@[1] as int, t@[0]@[2] as int);
    let (d, e, f) = (t@[1]@[0] as int, t@[1]@[1] as int, t@[1]@[2] as int);
    let (p, q, r) = (u@[0]@[0] as int, u@[0]@[1] as int, u@[0]@[2] as int);
    let (s, v, w) = (u@[1]@[0] as int, u@[1]@[1] as int, u@[1]@[2] as int);
    &&& p * a + q * d == 1
    &&& p * b + q * e == 0
    &&& p * c + q * f + r == 0
    &&& s * a + v * d == 0
    &&& s * b + v * e == 1
    &&& s * c + v * f + w == 0
}

/// Where the one transform undoes the other, mapping a point and mapping it
/// back gives the point.
pub proof fn lemma_map_point_there_and_back(a: Affine2D<i64>, x: int, y: int)
    requires
        undoes(a.t_inv, a.t),
    ensures
        ({
            let there = spec_map_whole(a.t, x, y);
            spec_map_whole(a.t_inv, there.0, there.1) == (x, y)
        }),
{
    let t = a.t;
    let u = a.t_inv;
    let (ta, tb, tc) = (t@[0]@[0] as int, t@[0]@[1] as int, t@[0]@[2] as int);
    let (td, te, tf) = (t@[1]@[0] as int, t@[1]@[1] as int, t@[1]@[2] as int);
    let (up, uq, ur) = (u@[0]@[0] as int, u@[0]@[1] as int, u@[0]@[2] as int);
    let (us, uv, uw) = (u@[1]@[0] as int, u@[1]@[1] as int, u@[1]@[2] as int);
    lemma_row_after(up, uq, ur, ta, tb, tc, td, te, tf, x, y);
    lemma_row_after(us, uv, uw, ta, tb, tc, td, te, tf, x, y);
    assert((up * ta + uq * td) * x == x) by (nonlinear_arith)
        requires
            up * ta + uq * td == 1,
    ;
    assert((up * tb + uq * te) * y == 0) by (nonlinear_arith)
        requires
            up * tb + uq * te == 0,
    ;
    assert((us * ta + uv * td) * x == 0) by (nonlinear_arith)
        requires
            us * ta + uv * td == 0,
    ;
    assert((us * tb + uv * te) * y == y) by (nonlinear_arith)
        requires
            us * tb + uv * te == 1,
    ;
}

} // verus!
