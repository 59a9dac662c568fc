//! Homogeneous points and 4x4 matrices in the row-vector convention.
//!
//! A point is a row vector `[x y z w]`; it is transformed by multiplying a
//! matrix on the right, `p * M`, and matrices compose as `A * B` in that
//! order. Entries are fixed-point integers: an entry `e` produced by the
//! `translate` / `scale` / `rotate_*` constructors stands for the real number
//! `e / FP_ONE`. The integer products below are exact and never rescale, so a
//! product of `k` such factors carries the scale `FP_ONE^k`; the projection
//! step divides two like-scaled quantities, which cancels the scale.
//! `identity` is the neutral element of the exact product itself.

use vstd::prelude::*;

verus! {

/// The fixed-point unit: the integer that stands for the real number one
/// in matrix entries built by the transform constructors.
pub const FP_ONE: i64 = 4096;

/// Magnitude cap on the operands of the executable products, so that each
/// 4-term dot product fits in `i128` intermediates.
pub const MAX_MAG: i64 = 0x2000_0000_0000;

/// A homogeneous 3D point `[x y z w]`, fixed-point.
#[derive(Clone, Copy, Debug, PartialEq, Eq, Structural)]
pub struct Point3D {
    pub x: i64,
    pub y: i64,
    pub z: i64,
    pub w: i64,
}

/// An integer screen coordinate, produced only by projection.
#[derive(Clone, Copy, Debug, PartialEq, Eq, Structural)]
pub struct Point2D {
    pub x: u32,
    pub y: u32,
}

/// A 4x4 matrix, row-major, used as the right-hand operand of `p * M`.
#[derive(Clone, Copy, Debug)]
pub struct Matrix {
    pub data: [[i64; 4]; 4],
}

/// The mathematical value of a point: the row vector of its components.
pub open spec fn pview(p: Point3D) -> Seq<int> {
    seq![p.x as int, p.y as int, p.z as int, p.w as int]
}

/// The mathematical value of a matrix: four rows of four integers.
pub open spec fn mview(m: Matrix) -> Seq<Seq<int>> {
    Seq::new(4, |r: int| Seq::new(4, |c: int| m.data[r][c] as int))
}

/// The dot product of a row vector with column `c` of a matrix:
/// `sum over i of v[i] * m[i][c]`.
pub open spec fn dot4(v: Seq<int>, m: Seq<Seq<int>>, c: int) -> int {
    v[0] * m[0][c] + v[1] * m[1][c] + v[2] * m[2][c] + v[3] * m[3][c]
}

/// Row vector times matrix: `r[c] = sum over i of v[i] * m[i][c]`.
pub open spec fn vec_mat_mul(v: Seq<int>, m: Seq<Seq<int>>) -> Seq<int> {
    Seq::new(4, |c: int| dot4(v, m, c))
}

/// Matrix times matrix: `r[r][c] = sum over i of a[r][i] * b[i][c]`.
pub open spec fn mat_mat_mul(a: Seq<Seq<int>>, b: Seq<Seq<int>>) -> Seq<Seq<int>> {
    Seq::new(4, |r: int| Seq::new(4, |c: int| dot4(a[r], b, c)))
}

/// The identity matrix, the neutral element of the exact product.
pub open spec fn mat_identity() -> Seq<Seq<int>> {
    Seq::new(4, |r: int| Seq::new(4, |c: int| if r == c { 1int } else { 0int }))
}

/// The translation matrix: a fixed-point identity block with the offsets in
/// the bottom row, as the row-vector convention places them.
pub open spec fn mat_translate(x: int, y: int, z: int) -> Seq<Seq<int>> {
    Seq::new(4, |r: int| Seq::new(4, |c: int|
        if r == 3 {
            if c == 0 { x } else if c == 1 { y } else if c == 2 { z } else { FP_ONE as int }
        } else if r == c {
            FP_ONE as int
        } else {
            0int
        }))
}

/// The scaling matrix: the three factors on the diagonal.
pub open spec fn mat_scale(x: int, y: int, z: int) -> Seq<Seq<int>> {
    Seq::new(4, |r: int| Seq::new(4, |c: int|
        if r != c {
            0int
        } else if r == 0 {
            x
        } else if r == 1 {
            y
        } else if r == 2 {
            z
        } else {
            FP_ONE as int
        }))
}

/// The right-handed rotation about the x axis, from a fixed-point sine and
/// cosine of the angle.
pub open spec fn mat_rotate_x(sin_a: int, cos_a: int) -> Seq<Seq<int>> {
    Seq::new(4, |r: int| Seq::new(4, |c: int|
        if r == 0 {
            if c == 0 { FP_ONE as int } else { 0int }
        } else if r == 1 {
            if c == 1 { cos_a } else if c == 2 { sin_a } else { 0int }
        } else if r == 2 {
            if c == 1 { -sin_a } else if c == 2 { cos_a } else { 0int }
        } else {
            if c == 3 { FP_ONE as int } else { 0int }
        }))
}

/// The right-handed rotation about the y axis.
pub open spec fn mat_rotate_y(sin_a: int, cos_a: int) -> Seq<Seq<int>> {
    Seq::new(4, |r: int| Seq::new(4, |c: int|
        if r == 0 {
            if c == 0 { cos_a } else if c == 2 { -sin_a } else { 0int }
        } else if r == 1 {
            if c == 1 { FP_ONE as int } else { 0int }
        } else if r == 2 {
            if c == 0 { sin_a } else if c == 2 { cos_a } else { 0int }
        } else {
            if c == 3 { FP_ONE as int } else { 0int }
        }))
}

/// The right-handed rotation about the z axis.
pub open spec fn mat_rotate_z(sin_a: int, cos_a: int) -> Seq<Seq<int>> {
    Seq::new(4, |r: int| Seq::new(4, |c: int|
        if r == 0 {
            if c == 0 { cos_a } else if c == 1 { sin_a } else { 0int }
        } else if r == 1 {
            if c == 0 { -sin_a } else if c == 1 { cos_a } else { 0int }
        } else if r == 2 {
            if c == 2 { FP_ONE as int } else { 0int }
        } else {
            if c == 3 { FP_ONE as int } else { 0int }
        }))
}

/// True when every component of the point is at most `MAX_MAG` in magnitude.
pub open spec fn pt_small(p: Point3D) -> bool {
    &&& -MAX_MAG <= p.x <= MAX_MAG
    &&& -MAX_MAG <= p.y <= MAX_MAG
    &&& -MAX_MAG <= p.z <= MAX_MAG
    &&& -MAX_MAG <= p.w <= MAX_MAG
}

/// True when every entry of the matrix is at most `MAX_MAG` in magnitude.
pub open spec fn mat_small(m: Matrix) -> bool {
    forall|r: int, c: int|
        0 <= r < 4 && 0 <= c < 4 ==> -MAX_MAG <= #[trigger] mview(m)[r][c] <= MAX_MAG
}

/// True when each component of `v * m` fits in an `i64`.
pub open spec fn vec_mat_fits(v: Seq<int>, m: Seq<Seq<int>>) -> bool {
    forall|c: int| 0 <= c < 4 ==> i64::MIN <= #[trigger] dot4(v, m, c) <= i64::MAX
}

/// True when each entry of `a * b` fits in an `i64`.
pub open spec fn mat_mat_fits(a: Seq<Seq<int>>, b: Seq<Seq<int>>) -> bool {
    forall|r: int, c: int|
        0 <= r < 4 && 0 <= c < 4 ==> i64::MIN <= #[trigger] dot4(a[r], b, c) <= i64::MAX
}

/// The product of two integers bounded by `m` is bounded by `m * m`.
proof fn lemma_mul_bound(a: int, b: int, m: int)
    by (nonlinear_arith)
    requires
        -m <= a <= m,
        -m <= b <= m,
        0 <= m,
    ensures
        -(m * m) <= a * b <= m * m,
{
}

/// Multiplication distributes over a four-term sum.
proof fn lemma_mul_distrib4(x: int, t0: int, t1: int, t2: int, t3: int)
    by (nonlinear_arith)
    ensures
        x * (t0 + t1 + t2 + t3) == x * t0 + x * t1 + x * t2 + x * t3,
{
}

/// Multiplication of three factors associates.
proof fn lemma_mul_assoc3(x: int, y: int, z: int)
    by (nonlinear_arith)
    ensures
        x * (y * z) == x * y * z,
{
}

/// One term of a dot product stays within `MAX_MAG * MAX_MAG`.
proof fn lemma_term_bound(a: int, b: int)
    requires
        -MAX_MAG <= a <= MAX_MAG,
        -MAX_MAG <= b <= MAX_MAG,
    ensures
        -(MAX_MAG as int * MAX_MAG as int) <= a * b <= MAX_MAG as int * MAX_MAG as int,
{
    lemma_mul_bound(a, b, MAX_MAG as int);
}

/// The exact dot product of the row `p` with column `c` of `m`, computed in
/// 128-bit intermediates.
fn dot_col(p: &Point3D, m: &Matrix, c: usize) -> (res: i64)
    requires
        c < 4,
        pt_small(*p),
        mat_small(*m),
        i64::MIN <= dot4(pview(*p), mview(*m), c as int) <= i64::MAX,
    ensures
        res as int == dot4(pview(*p), mview(*m), c as int),
{
    proof {
        lemma_term_bound(p.x as int, mview(*m)[0][c as int]);
        lemma_term_bound(p.y as int, mview(*m)[1][c as int]);
        lemma_term_bound(p.z as int, mview(*m)[2][c as int]);
        lemma_term_bound(p.w as int, mview(*m)[3][c as int]);
    }
    let s: i128 = (p.x as i128) * (m.data[0][c] as i128)
        + (p.y as i128) * (m.data[1][c] as i128)
        + (p.z as i128) * (m.data[2][c] as i128)
        + (p.w as i128) * (m.data[3][c] as i128);
    s as i64
}

/// The exact dot product of row `r` of `a` with column `c` of `b`, computed
/// in 128-bit intermediates.
fn dot_row_col(a: &Matrix, b: &Matrix, r: usize, c: usize) -> (res: i64)
    requires
        r < 4,
        c < 4,
        mat_small(*a),
        mat_small(*b),
        i64::MIN <= dot4(mview(*a)[r as int], mview(*b), c as int) <= i64::MAX,
    ensures
        res as int == dot4(mview(*a)[r as int], mview(*b), c as int),
{
    proof {
        lemma_term_bound(mview(*a)[r as int][0], mview(*b)[0][c as int]);
        lemma_term_bound(mview(*a)[r as int][1], mview(*b)[1][c as int]);
        lemma_term_bound(mview(*a)[r as int][2], mview(*b)[2][c as int]);
        lemma_term_bound(mview(*a)[r as int][3], mview(*b)[3][c as int]);
    }
    let s: i128 = (a.data[r][0] as i128) * (b.data[0][c] as i128)
        + (a.data[r][1] as i128) * (b.data[1][c] as i128)
        + (a.data[r][2] as i128) * (b.data[2][c] as i128)
        + (a.data[r][3] as i128) * (b.data[3][c] as i128);
    s as i64
}

impl Point3D {
    /// A point from its three coordinates, with the homogeneous component
    /// set to the fixed-point one.
    pub fn new(x: i64, y: i64, z: i64) -> (p: Point3D)
        ensures
            pview(p) == seq![x as int, y as int, z as int, FP_ONE as int],
    {
        let p = Point3D { x, y, z, w: FP_ONE };
        proof {
            assert(pview(p) =~= seq![x as int, y as int, z as int, FP_ONE as int]);
        }
        p
    }

    /// The point transformed by a matrix on the right: `r = self * m`,
    /// exactly, component by component.
    pub fn transform(&self, m: &Matrix) -> (r: Point3D)
        requires
            pt_small(*self),
            mat_small(*m),
            vec_mat_fits(pview(*self), mview(*m)),
        ensures
            pview(r) == vec_mat_mul(pview(*self), mview(*m)),
    {
        let r = Point3D {
            x: dot_col(self, m, 0),
            y: dot_col(self, m, 1),
            z: dot_col(self, m, 2),
            w: dot_col(self, m, 3),
        };
        proof {
            assert(pview(r) =~= vec_mat_mul(pview(*self), mview(*m)));
        }
        r
    }
}

impl Matrix {
    /// The 4x4 identity matrix.
    pub fn identity() -> (m: Matrix)
        ensures
            mview(m) == mat_identity(),
    {
        let m = Matrix {
            data: [
                [1, 0, 0, 0],
                [0, 1, 0, 0],
                [0, 0, 1, 0],
                [0, 0, 0, 1],
            ],
        };
        proof {
            assert(mview(m) =~~= mat_identity());
        }
        m
    }

    /// The translation by `(x, y, z)`, given as fixed-point values.
    pub fn translate(x: i64, y: i64, z: i64) -> (m: Matrix)
        ensures
            mview(m) == mat_translate(x as int, y as int, z as int),
    {
        let m = Matrix {
            data: [
                [FP_ONE, 0, 0, 0],
                [0, FP_ONE, 0, 0],
                [0, 0, FP_ONE, 0],
                [x, y, z, FP_ONE],
            ],
        };
        proof {
            assert(mview(m) =~~= mat_translate(x as int, y as int, z as int));
        }
        m
    }

    /// The scaling by `(x, y, z)`, given as fixed-point factors.
    pub fn scale(x: i64, y: i64, z: i64) -> (m: Matrix)
        ensures
            mview(m) == mat_scale(x as int, y as int, z as int),
    {
        let m = Matrix {
            data: [
                [x, 0, 0, 0],
                [0, y, 0, 0],
                [0, 0, z, 0],
                [0, 0, 0, FP_ONE],
            ],
        };
        proof {
            assert(mview(m) =~~= mat_scale(x as int, y as int, z as int));
        }
        m
    }

    /// The rotation about the x axis, from the fixed-point sine and cosine
    /// of the angle that the host's trigonometry provider looked up.
    pub fn rotate_x(sin_a: i64, cos_a: i64) -> (m: Matrix)
        requires
            -FP_ONE <= sin_a <= FP_ONE,
            -FP_ONE <= cos_a <= FP_ONE,
        ensures
            mview(m) == mat_rotate_x(sin_a as int, cos_a as int),
    {
        let m = Matrix {
            data: [
                [FP_ONE, 0, 0, 0],
                [0, cos_a, sin_a, 0],
                [0, -sin_a, cos_a, 0],
                [0, 0, 0, FP_ONE],
            ],
        };
        proof {
            assert(mview(m) =~~= mat_rotate_x(sin_a as int, cos_a as int));
        }
        m
    }

    /// The rotation about the y axis, from the fixed-point sine and cosine.
    pub fn rotate_y(sin_a: i64, cos_a: i64) -> (m: Matrix)
        requires
            -FP_ONE <= sin_a <= FP_ONE,
            -FP_ONE <= cos_a <= FP_ONE,
        ensures
            mview(m) == mat_rotate_y(sin_a as int, cos_a as int),
    {
        let m = Matrix {
            data: [
                [cos_a, 0, -sin_a, 0],
                [0, FP_ONE, 0, 0],
                [sin_a, 0, cos_a, 0],
                [0, 0, 0, FP_ONE],
            ],
        };
        proof {
            assert(mview(m) =~~= mat_rotate_y(sin_a as int, cos_a as int));
        }
        m
    }

    /// The rotation about the z axis, from the fixed-point sine and cosine.
    pub fn rotate_z(sin_a: i64, cos_a: i64) -> (m: Matrix)
        requires
            -FP_ONE <= sin_a <= FP_ONE,
            -FP_ONE <= cos_a <= FP_ONE,
        ensures
            mview(m) == mat_rotate_z(sin_a as int, cos_a as int),
    {
        let m = Matrix {
            data: [
                [cos_a, sin_a, 0, 0],
                [-sin_a, cos_a, 0, 0],
                [0, 0, FP_ONE, 0],
                [0, 0, 0, FP_ONE],
            ],
        };
        proof {
            assert(mview(m) =~~= mat_rotate_z(sin_a as int, cos_a as int));
        }
        m
    }

    /// The product `self * rhs`, exactly, entry by entry.
    pub fn multiply(&self, rhs: &Matrix) -> (r: Matrix)
        requires
            mat_small(*self),
            mat_small(*rhs),
            mat_mat_fits(mview(*self), mview(*rhs)),
        ensures
            mview(r) == mat_mat_mul(mview(*self), mview(*rhs)),
    {
        let r = Matrix {
            data: [
                [
                    dot_row_col(self, rhs, 0, 0),
                    dot_row_col(self, rhs, 0, 1),
                    dot_row_col(self, rhs, 0, 2),
                    dot_row_col(self, rhs, 0, 3),
                ],
                [
                    dot_row_col(self, rhs, 1, 0),
                    dot_row_col(self, rhs, 1, 1),
                    dot_row_col(self, rhs, 1, 2),
                    dot_row_col(self, rhs, 1, 3),
                ],
                [
                    dot_row_col(self, rhs, 2, 0),
                    dot_row_col(self, rhs, 2, 1),
                    dot_row_col(self, rhs, 2, 2),
                    dot_row_col(self, rhs, 2, 3),
                ],
                [
                    dot_row_col(self, rhs, 3, 0),
                    dot_row_col(self, rhs, 3, 1),
                    dot_row_col(self, rhs, 3, 2),
                    dot_row_col(self, rhs, 3, 3),
                ],
            ],
        };
        proof {
            assert(mview(r) =~~= mat_mat_mul(mview(*self), mview(*rhs)));
        }
        r
    }
}

/// Multiplying a row vector through two matrices in turn equals multiplying
/// it once by their product: `(v * a) * b == v * (a * b)`.
pub proof fn lemma_vec_mat_assoc(v: Seq<int>, a: Seq<Seq<int>>, b: Seq<Seq<int>>)
    ensures
        vec_mat_mul(vec_mat_mul(v, a), b) == vec_mat_mul(v, mat_mat_mul(a, b)),
{
    let l = vec_mat_mul(vec_mat_mul(v, a), b);
    let r = vec_mat_mul(v, mat_mat_mul(a, b));
    assert forall|c: int| 0 <= c < 4 implies l[c] == r[c] by {
        let v0: int = v[0];
        let v1: int = v[1];
        let v2: int = v[2];
        let v3: int = v[3];
        let a00: int = a[0][0];
        let a01: int = a[0][1];
        let a02: int = a[0][2];
        let a03: int = a[0][3];
        let a10: int = a[1][0];
        let a11: int = a[1][1];
        let a12: int = a[1][2];
        let a13: int = a[1][3];
        let a20: int = a[2][0];
        let a21: int = a[2][1];
        let a22: int = a[2][2];
        let a23: int = a[2][3];
        let a30: int = a[3][0];
        let a31: int = a[3][1];
        let a32: int = a[3][2];
        let a33: int = a[3][3];
        let b0: int = b[0][c];
        let b1: int = b[1][c];
        let b2: int = b[2][c];
        let b3: int = b[3][c];
        assert(l[c] == (v0 * a00 + v1 * a10 + v2 * a20 + v3 * a30) * b0
            + (v0 * a01 + v1 * a11 + v2 * a21 + v3 * a31) * b1
            + (v0 * a02 + v1 * a12 + v2 * a22 + v3 * a32) * b2
            + (v0 * a03 + v1 * a13 + v2 * a23 + v3 * a33) * b3);
        assert(r[c] == v0 * (a00 * b0 + a01 * b1 + a02 * b2 + a03 * b3)
            + v1 * (a10 * b0 + a11 * b1 + a12 * b2 + a13 * b3)
            + v2 * (a20 * b0 + a21 * b1 + a22 * b2 + a23 * b3)
            + v3 * (a30 * b0 + a31 * b1 + a32 * b2 + a33 * b3));
        assert((v0 * a00 + v1 * a10 + v2 * a20 + v3 * a30) * b0
            == v0 * a00 * b0 + v1 * a10 * b0 + v2 * a20 * b0 + v3 * a30 * b0) by (nonlinear_arith);
        assert((v0 * a01 + v1 * a11 + v2 * a21 + v3 * a31) * b1
            == v0 * a01 * b1 + v1 * a11 * b1 + v2 * a21 * b1 + v3 * a31 * b1) by (nonlinear_arith);
        assert((v0 * a02 + v1 * a12 + v2 * a22 + v3 * a32) * b2
            == v0 * a02 * b2 + v1 * a12 * b2 + v2 * a22 * b2 + v3 * a32 * b2) by (nonlinear_arith);
        assert((v0 * a03 + v1 * a13 + v2 * a23 + v3 * a33) * b3
            == v0 * a03 * b3 + v1 * a13 * b3 + v2 * a23 * b3 + v3 * a33 * b3) by (nonlinear_arith);
        lemma_mul_distrib4(v0, a00 * b0, a01 * b1, a02 * b2, a03 * b3);
        lemma_mul_distrib4(v1, a10 * b0, a11 * b1, a12 * b2, a13 * b3);
        lemma_mul_distrib4(v2, a20 * b0, a21 * b1, a22 * b2, a23 * b3);
        lemma_mul_distrib4(v3, a30 * b0, a31 * b1, a32 * b2, a33 * b3);
        lemma_mul_assoc3(v0, a00, b0);
        lemma_mul_assoc3(v0, a01, b1);
        lemma_mul_assoc3(v0, a02, b2);
        lemma_mul_assoc3(v0, a03, b3);
        lemma_mul_assoc3(v1, a10, b0);
        lemma_mul_assoc3(v1, a11, b1);
        lemma_mul_assoc3(v1, a12, b2);
        lemma_mul_assoc3(v1, a13, b3);
        lemma_mul_assoc3(v2, a20, b0);
        lemma_mul_assoc3(v2, a21, b1);
        lemma_mul_assoc3(v2, a22, b2);
        lemma_mul_assoc3(v2, a23, b3);
        lemma_mul_assoc3(v3, a30, b0);
        lemma_mul_assoc3(v3, a31, b1);
        lemma_mul_assoc3(v3, a32, b2);
        lemma_mul_assoc3(v3, a33, b3);
    }
    assert(l =~= r);
}

/// The identity matrix is neutral: `v * identity == v` for every row vector
/// of four components.
pub proof fn lemma_vec_mat_identity(v: Seq<int>)
    requires
        v.len() == 4,
    ensures
        vec_mat_mul(v, mat_identity()) == v,
{
    let r = vec_mat_mul(v, mat_identity());
    assert(dot4(v, mat_identity(), 0) == v[0] * 1 + v[1] * 0 + v[2] * 0 + v[3] * 0);
    assert(dot4(v, mat_identity(), 1) == v[0] * 0 + v[1] * 1 + v[2] * 0 + v[3] * 0);
    assert(dot4(v, mat_identity(), 2) == v[0] * 0 + v[1] * 0 + v[2] * 1 + v[3] * 0);
    assert(dot4(v, mat_identity(), 3) == v[0] * 0 + v[1] * 0 + v[2] * 0 + v[3] * 1);
    assert(r =~= v);
}

} // verus!
