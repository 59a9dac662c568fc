//! The polygonal mesh: a fixed vertex list and polygon topology, plus the
//! per-frame `transformed` and `projected` arrays that `apply` and
//! `project` overwrite in place.

use vstd::prelude::*;

use crate::gfx::{line_pixels, Screen, COORD_LIMIT};
use crate::math::{
    mat_identity, mat_small, mview, pt_small, pview, vec_mat_fits, vec_mat_mul,
    lemma_vec_mat_identity, Matrix, Point2D, Point3D, FP_ONE,
};
use vstd::arithmetic::div_mod::{lemma_div_nonincreasing, lemma_div_pos_is_pos};

verus! {

/// A polygon: an ordered list of indices into the mesh's vertex array,
/// closed implicitly from the last index back to the first.
pub type Polygon = Vec<usize>;

/// Cap on the projection factor handed to `project`.
pub const FOCAL_LIMIT: i64 = 0x100_0000;

/// Cap on the magnitude of the intermediate projection numerators.
const NUM_CAP: i128 = 0x1000_0000_0000_0000_0000_0000_0000_0000;

/// Truncating division for a positive divisor, as the hardware divides:
/// the quotient is rounded toward zero.
pub open spec fn tdiv(n: int, d: int) -> int {
    if n >= 0 {
        n / d
    } else {
        -((-n) / d)
    }
}

/// Clamp an integer into the `u32` range.
pub open spec fn clamp_u32(v: int) -> int {
    if v < 0 {
        0
    } else if v > u32::MAX {
        u32::MAX as int
    } else {
        v
    }
}

/// The projected screen x of a transformed point `(px, _, pz)`: the real
/// formula `(x * (w / h) * focal / z) * (w / 2) + w / 2`, with `px` and
/// `pz` sharing a scale that cancels in the ratio and `focal` carrying one
/// factor of `FP_ONE`, carried out exactly over the common denominator
/// `pz * h * FP_ONE` and truncated once, at the end, as the cast to an
/// unsigned integer truncates; then clamped into the `u32` range.
pub open spec fn project_x(px: int, pz: int, w: int, h: int, focal: int) -> int {
    clamp_u32(tdiv(px * w * focal * (w / 2) + (w / 2) * pz * h * FP_ONE, pz * h * FP_ONE))
}

/// The projected screen y of a transformed point `(_, py, pz)`: the real
/// formula `(y * focal / z) * (h / 2) + h / 2`, carried out exactly over
/// the common denominator `pz * FP_ONE` and truncated once, at the end,
/// then clamped into the `u32` range.
pub open spec fn project_y(py: int, pz: int, h: int, focal: int) -> int {
    clamp_u32(tdiv(py * focal * (h / 2) + (h / 2) * pz * FP_ONE, pz * FP_ONE))
}

/// Vertex `i` of the cube of the given size, as a homogeneous row: every
/// coordinate is plus or minus half the size, in fixed-point.
pub open spec fn cube_vertex(size: int, i: int) -> Seq<int> {
    let d = size * (FP_ONE as int) / 2;
    if i == 0 {
        seq![-d, d, d, FP_ONE as int]
    } else if i == 1 {
        seq![d, d, d, FP_ONE as int]
    } else if i == 2 {
        seq![d, -d, d, FP_ONE as int]
    } else if i == 3 {
        seq![-d, -d, d, FP_ONE as int]
    } else if i == 4 {
        seq![-d, d, -d, FP_ONE as int]
    } else if i == 5 {
        seq![d, d, -d, FP_ONE as int]
    } else if i == 6 {
        seq![d, -d, -d, FP_ONE as int]
    } else {
        seq![-d, -d, -d, FP_ONE as int]
    }
}

/// The truncating quotient `num / den` for a positive divisor, computed
/// with unsigned division on the magnitudes.
fn scaled_ratio(num: i128, den: i128) -> (q: i128)
    requires
        1 <= den,
        -NUM_CAP <= num <= NUM_CAP,
    ensures
        q == tdiv(num as int, den as int),
        -NUM_CAP <= q <= NUM_CAP,
{
    if num >= 0 {
        let qq: u128 = (num as u128) / (den as u128);
        proof {
            lemma_div_nonincreasing(num as int, den as int);
            lemma_div_pos_is_pos(num as int, den as int);
        }
        qq as i128
    } else {
        let mag: u128 = (-num) as u128;
        let qq: u128 = mag / (den as u128);
        proof {
            lemma_div_nonincreasing(mag as int, den as int);
            lemma_div_pos_is_pos(mag as int, den as int);
        }
        -(qq as i128)
    }
}

/// A quad polygon from four vertex indices.
fn quad(a: usize, b: usize, c: usize, d: usize) -> (p: Polygon)
    ensures
        p@ == seq![a, b, c, d],
        forall|i: int|
            0 <= i < p@.len() ==> (#[trigger] p@[i] == a || p@[i] == b || p@[i] == c || p@[i]
                == d),
{
    let mut p: Polygon = Vec::new();
    p.push(a);
    p.push(b);
    p.push(c);
    p.push(d);
    proof {
        assert(p@ =~= seq![a, b, c, d]);
    }
    p
}

/// The pixels of edge `e` of a polygon outline: the line between the
/// projected points of index `e` and of the next index, wrapping from the
/// last back to the first.
pub open spec fn edge_pixels(poly: Seq<usize>, pts: Seq<Point2D>, e: int) -> Seq<(int, int)> {
    let a = pts[poly[e] as int];
    let b = pts[poly[if e + 1 == poly.len() { 0int } else { e + 1 }] as int];
    line_pixels(a.x as int, a.y as int, b.x as int, b.y as int)
}

/// The pixels of the first `e` edges of a polygon outline, concatenated in
/// drawing order.
pub open spec fn edges_pixels_upto(poly: Seq<usize>, pts: Seq<Point2D>, e: int) -> Seq<(int, int)>
    decreases e,
{
    if e <= 0 {
        Seq::empty()
    } else {
        edges_pixels_upto(poly, pts, e - 1) + edge_pixels(poly, pts, e - 1)
    }
}

/// All pixels of a polygon's outline: one line per index, each to the next,
/// the last one closing the loop.
pub open spec fn polygon_pixels(poly: Seq<usize>, pts: Seq<Point2D>) -> Seq<(int, int)> {
    edges_pixels_upto(poly, pts, poly.len() as int)
}

/// The outline pixels of the first `j` polygons, concatenated in drawing
/// order.
pub open spec fn outlines_pixels_upto(polys: Seq<Polygon>, pts: Seq<Point2D>, j: int) -> Seq<
    (int, int),
>
    decreases j,
{
    if j <= 0 {
        Seq::empty()
    } else {
        outlines_pixels_upto(polys, pts, j - 1) + polygon_pixels(polys[j - 1]@, pts)
    }
}

/// All outline pixels of a mesh's polygons, in drawing order.
pub open spec fn outlines_pixels(polys: Seq<Polygon>, pts: Seq<Point2D>) -> Seq<(int, int)> {
    outlines_pixels_upto(polys, pts, polys.len() as int)
}

/// Painting one pixel run after another paints their concatenation: if
/// `mid` is `old_buf` with the on-surface bytes of `a` painted, and
/// `new_buf` is `mid` with those of `b` painted, then `new_buf` is
/// `old_buf` with those of `a + b` painted.
proof fn lemma_paint_append(
    s: Screen,
    old_buf: Seq<u8>,
    mid_buf: Seq<u8>,
    new_buf: Seq<u8>,
    a: Seq<(int, int)>,
    b: Seq<(int, int)>,
)
    requires
        mid_buf.len() == old_buf.len(),
        new_buf.len() == old_buf.len(),
        forall|k: int|
            0 <= k < old_buf.len() ==> mid_buf[k] == (if s.covered(a, k) {
                0xffu8
            } else {
                old_buf[k]
            }),
        forall|k: int|
            0 <= k < old_buf.len() ==> new_buf[k] == (if s.covered(b, k) {
                0xffu8
            } else {
                mid_buf[k]
            }),
    ensures
        forall|k: int|
            0 <= k < old_buf.len() ==> new_buf[k] == (if s.covered(a + b, k) {
                0xffu8
            } else {
                old_buf[k]
            }),
{
    assert forall|k: int| 0 <= k < old_buf.len() implies new_buf[k] == (if s.covered(a + b, k) {
        0xffu8
    } else {
        old_buf[k]
    }) by {
        if s.covered(b, k) {
            let i = choose|i: int| #[trigger] s.covers_at(b, i, k);
            assert((a + b)[a.len() + i] == b[i]);
            assert(s.covers_at(a + b, a.len() + i, k));
        } else if s.covered(a, k) {
            let i = choose|i: int| #[trigger] s.covers_at(a, i, k);
            assert((a + b)[i] == a[i]);
            assert(s.covers_at(a + b, i, k));
        } else {
            if s.covered(a + b, k) {
                let i = choose|i: int| #[trigger] s.covers_at(a + b, i, k);
                if i < a.len() {
                    assert((a + b)[i] == a[i]);
                    assert(s.covers_at(a, i, k));
                } else {
                    assert((a + b)[i] == b[i - a.len()]);
                    assert(s.covers_at(b, i - a.len(), k));
                }
                assert(false);
            }
        }
    }
}

/// The mesh: `vertices` and `polygons` are fixed at construction;
/// `transformed` and `projected` are overwritten every frame and always
/// have as many entries as `vertices`.
pub struct SimpleObject {
    pub vertices: Vec<Point3D>,
    pub transformed: Vec<Point3D>,
    pub projected: Vec<Point2D>,
    pub polygons: Vec<Polygon>,
}

impl SimpleObject {
    /// Well-formed: the three parallel arrays have equal length and every
    /// polygon index points at a vertex.
    pub open spec fn wf(&self) -> bool {
        &&& self.transformed@.len() == self.vertices@.len()
        &&& self.projected@.len() == self.vertices@.len()
        &&& forall|j: int, i: int|
            0 <= j < self.polygons@.len() && 0 <= i < self.polygons@[j]@.len() ==> (
            #[trigger] self.polygons@[j]@[i]) < self.vertices@.len()
    }

    /// The cube of the given size, centered on the origin: eight vertices
    /// with every coordinate at plus or minus half the size, six quad
    /// faces, and zeroed per-frame arrays of matching length.
    ///
    /// ```text
    ///     4 _____________5
    ///      /.           /|
    ///     / .          / |
    ///    /__._________/  |
    ///  0|   .        |1  |
    ///   |   ........ |...|
    ///   |  . 7       |  /6
    ///   | .          | /
    ///   |____________|/
    ///   3            2
    /// ```
    pub fn cube(size: u32) -> (o: SimpleObject)
        ensures
            o.wf(),
            o.vertices@.len() == 8,
            forall|i: int|
                0 <= i < 8 ==> pview(#[trigger] o.vertices@[i]) == cube_vertex(size as int, i),
            o.transformed@.len() == 8,
            forall|i: int|
                0 <= i < 8 ==> pview(#[trigger] o.transformed@[i]) == seq![0int, 0, 0, 0],
            o.projected@.len() == 8,
            forall|i: int| 0 <= i < 8 ==> (#[trigger] o.projected@[i]) == (Point2D { x: 0, y: 0 }),
            o.polygons@.len() == 6,
            o.polygons@[0]@ == seq![0usize, 1, 2, 3],
            o.polygons@[1]@ == seq![0usize, 4, 7, 3],
            o.polygons@[2]@ == seq![4usize, 5, 6, 7],
            o.polygons@[3]@ == seq![1usize, 5, 6, 2],
            o.polygons@[4]@ == seq![0usize, 4, 5, 1],
            o.polygons@[5]@ == seq![3usize, 7, 6, 2],
    {
        let d: i64 = (size as i64) * (FP_ONE / 2);

        let mut vertices: Vec<Point3D> = Vec::new();
        // front (+z) square from the top-left corner, clockwise, then the
        // same square behind (-z)
        vertices.push(Point3D::new(-d, d, d));
        vertices.push(Point3D::new(d, d, d));
        vertices.push(Point3D::new(d, -d, d));
        vertices.push(Point3D::new(-d, -d, d));
        vertices.push(Point3D::new(-d, d, -d));
        vertices.push(Point3D::new(d, d, -d));
        vertices.push(Point3D::new(d, -d, -d));
        vertices.push(Point3D::new(-d, -d, -d));

        let mut transformed: Vec<Point3D> = Vec::new();
        let mut projected: Vec<Point2D> = Vec::new();
        let mut i: usize = 0;
        while i < 8
            invariant
                i <= 8,
                transformed@.len() == i,
                projected@.len() == i,
                forall|j: int|
                    0 <= j < i ==> pview(#[trigger] transformed@[j]) == seq![0int, 0, 0, 0],
                forall|j: int| 0 <= j < i ==> (#[trigger] projected@[j]) == (Point2D { x: 0, y: 0 }),
            decreases 8 - i,
        {
            let t = Point3D { x: 0, y: 0, z: 0, w: 0 };
            proof {
                assert(pview(t) =~= seq![0int, 0, 0, 0]);
            }
            transformed.push(t);
            projected.push(Point2D { x: 0, y: 0 });
            i = i + 1;
        }

        let mut polygons: Vec<Polygon> = Vec::new();
        polygons.push(quad(0, 1, 2, 3));  // front
        polygons.push(quad(0, 4, 7, 3));  // left
        polygons.push(quad(4, 5, 6, 7));  // back
        polygons.push(quad(1, 5, 6, 2));  // right
        polygons.push(quad(0, 4, 5, 1));  // top
        polygons.push(quad(3, 7, 6, 2));  // bottom

        let o = SimpleObject { vertices, transformed, projected, polygons };
        proof {
            assert forall|i2: int| 0 <= i2 < 8 implies pview(#[trigger] o.vertices@[i2])
                == cube_vertex(size as int, i2) by {
                assert(d == size * (FP_ONE as int) / 2);
                if i2 == 0 {
                    assert(pview(o.vertices@[0]) =~= cube_vertex(size as int, 0));
                } else if i2 == 1 {
                    assert(pview(o.vertices@[1]) =~= cube_vertex(size as int, 1));
                } else if i2 == 2 {
                    assert(pview(o.vertices@[2]) =~= cube_vertex(size as int, 2));
                } else if i2 == 3 {
                    assert(pview(o.vertices@[3]) =~= cube_vertex(size as int, 3));
                } else if i2 == 4 {
                    assert(pview(o.vertices@[4]) =~= cube_vertex(size as int, 4));
                } else if i2 == 5 {
                    assert(pview(o.vertices@[5]) =~= cube_vertex(size as int, 5));
                } else if i2 == 6 {
                    assert(pview(o.vertices@[6]) =~= cube_vertex(size as int, 6));
                } else {
                    assert(pview(o.vertices@[7]) =~= cube_vertex(size as int, 7));
                }
            }
        }
        o
    }

    /// A snapshot copy of the model-space vertices.
    #[verifier::loop_isolation(false)]
    pub fn get_vertices(&self) -> (r: Vec<Point3D>)
        ensures
            r@ == self.vertices@,
    {
        let mut r: Vec<Point3D> = Vec::new();
        let mut i: usize = 0;
        while i < self.vertices.len()
            invariant
                i <= self.vertices@.len(),
                r@ == self.vertices@.take(i as int),
            decreases self.vertices@.len() - i,
        {
            r.push(self.vertices[i]);
            proof {
                assert(self.vertices@.take(i as int).push(self.vertices@[i as int]) =~= self
                    .vertices@
                    .take(i + 1));
            }
            i = i + 1;
        }
        proof {
            assert(self.vertices@.take(self.vertices@.len() as int) =~= self.vertices@);
        }
        r
    }

    /// A snapshot copy of the per-frame transformed vertices.
    #[verifier::loop_isolation(false)]
    pub fn get_transformed(&self) -> (r: Vec<Point3D>)
        ensures
            r@ == self.transformed@,
    {
        let mut r: Vec<Point3D> = Vec::new();
        let mut i: usize = 0;
        while i < self.transformed.len()
            invariant
                i <= self.transformed@.len(),
                r@ == self.transformed@.take(i as int),
            decreases self.transformed@.len() - i,
        {
            r.push(self.transformed[i]);
            proof {
                assert(self.transformed@.take(i as int).push(self.transformed@[i as int]) =~= self
                    .transformed@
                    .take(i + 1));
            }
            i = i + 1;
        }
        proof {
            assert(self.transformed@.take(self.transformed@.len() as int) =~= self.transformed@);
        }
        r
    }

    /// A snapshot copy of the per-frame projected screen points.
    #[verifier::loop_isolation(false)]
    pub fn get_projected(&self) -> (r: Vec<Point2D>)
        ensures
            r@ == self.projected@,
    {
        let mut r: Vec<Point2D> = Vec::new();
        let mut i: usize = 0;
        while i < self.projected.len()
            invariant
                i <= self.projected@.len(),
                r@ == self.projected@.take(i as int),
            decreases self.projected@.len() - i,
        {
            r.push(self.projected[i]);
            proof {
                assert(self.projected@.take(i as int).push(self.projected@[i as int]) =~= self
                    .projected@
                    .take(i + 1));
            }
            i = i + 1;
        }
        proof {
            assert(self.projected@.take(self.projected@.len() as int) =~= self.projected@);
        }
        r
    }

    /// A snapshot copy of the polygon topology: the copy holds the same
    /// index lists, in the same order.
    #[verifier::loop_isolation(false)]
    pub fn get_polygons(&self) -> (r: Vec<Polygon>)
        ensures
            r@.len() == self.polygons@.len(),
            forall|j: int| 0 <= j < r@.len() ==> (#[trigger] r@[j])@ == self.polygons@[j]@,
    {
        let mut r: Vec<Polygon> = Vec::new();
        let mut j: usize = 0;
        while j < self.polygons.len()
            invariant
                j <= self.polygons@.len(),
                r@.len() == j,
                forall|j2: int| 0 <= j2 < j ==> (#[trigger] r@[j2])@ == self.polygons@[j2]@,
            decreases self.polygons@.len() - j,
        {
            let src: &Polygon = &self.polygons[j];
            let mut p: Polygon = Vec::new();
            let mut i: usize = 0;
            while i < src.len()
                invariant
                    i <= src@.len(),
                    p@ == src@.take(i as int),
                decreases src@.len() - i,
            {
                p.push(src[i]);
                proof {
                    assert(src@.take(i as int).push(src@[i as int]) =~= src@.take(i + 1));
                }
                i = i + 1;
            }
            proof {
                assert(src@.take(src@.len() as int) =~= src@);
            }
            r.push(p);
            j = j + 1;
        }
        r
    }

    /// Overwrite the whole `transformed` array: for every vertex index
    /// `i`, `transformed[i] = vertices[i] * mat`, exactly. The vertices,
    /// polygons and projected points are untouched.
    #[verifier::loop_isolation(false)]
    pub fn apply(&mut self, mat: &Matrix)
        requires
            old(self).wf(),
            mat_small(*mat),
            forall|i: int|
                0 <= i < old(self).vertices@.len() ==> pt_small(#[trigger] old(self).vertices@[i]),
            forall|i: int|
                0 <= i < old(self).vertices@.len() ==> vec_mat_fits(
                    pview(#[trigger] old(self).vertices@[i]),
                    mview(*mat),
                ),
        ensures
            final(self).wf(),
            final(self).vertices@ == old(self).vertices@,
            final(self).projected@ == old(self).projected@,
            final(self).polygons@ == old(self).polygons@,
            final(self).transformed@.len() == old(self).vertices@.len(),
            forall|i: int|
                0 <= i < old(self).vertices@.len() ==> pview(#[trigger] final(self).transformed@[i])
                    == vec_mat_mul(pview(old(self).vertices@[i]), mview(*mat)),
    {
        let n = self.vertices.len();
        let mut i: usize = 0;
        while i < n
            invariant
                i <= n,
                self.vertices@ == old(self).vertices@,
                self.projected@ == old(self).projected@,
                self.polygons@ == old(self).polygons@,
                self.transformed@.len() == n,
                forall|j: int|
                    0 <= j < i ==> pview(#[trigger] self.transformed@[j]) == vec_mat_mul(
                        pview(old(self).vertices@[j]),
                        mview(*mat),
                    ),
            decreases n - i,
        {
            let t = self.vertices[i].transform(mat);
            self.transformed[i] = t;
            i = i + 1;
        }
    }

    /// Overwrite the whole `projected` array with the perspective
    /// projection of the transformed points, per `project_x` / `project_y`:
    /// for each point, screen x is `(x * (w/h) * focal / z) * (w/2) + w/2`
    /// and screen y is `(y * focal / z) * (h/2) + h/2`, each carried out
    /// exactly over one common denominator, truncated once at the end, and
    /// clamped to the `u32` range. `focal` is the fixed-point
    /// `1 / tan(fov / 2)` that the host computed for its field of view;
    /// every transformed point must lie in front of the viewer (`z > 0`),
    /// since the formula divides by z.
    #[verifier::loop_isolation(false)]
    pub fn project(&mut self, win_width: usize, win_height: usize, focal: i64)
        requires
            old(self).wf(),
            1 <= win_width <= 65536,
            1 <= win_height <= 65536,
            0 < focal <= FOCAL_LIMIT,
            forall|i: int|
                0 <= i < old(self).transformed@.len() ==> pt_small(
                    #[trigger] old(self).transformed@[i],
                ),
            forall|i: int|
                0 <= i < old(self).transformed@.len() ==> (#[trigger] old(
                    self,
                ).transformed@[i]).z > 0,
        ensures
            final(self).wf(),
            final(self).vertices@ == old(self).vertices@,
            final(self).transformed@ == old(self).transformed@,
            final(self).polygons@ == old(self).polygons@,
            final(self).projected@.len() == old(self).transformed@.len(),
            forall|i: int|
                0 <= i < old(self).transformed@.len() ==> {
                    let t = old(self).transformed@[i];
                    &&& (#[trigger] final(self).projected@[i]).x as int == project_x(
                        t.x as int,
                        t.z as int,
                        win_width as int,
                        win_height as int,
                        focal as int,
                    )
                    &&& final(self).projected@[i].y as int == project_y(
                        t.y as int,
                        t.z as int,
                        win_height as int,
                        focal as int,
                    )
                },
    {
        let half_w: usize = win_width / 2;
        let half_h: usize = win_height / 2;
        let n = self.transformed.len();
        let mut i: usize = 0;
        while i < n
            invariant
                i <= n,
                n == self.transformed@.len(),
                self.vertices@ == old(self).vertices@,
                self.transformed@ == old(self).transformed@,
                self.polygons@ == old(self).polygons@,
                self.projected@.len() == n,
                forall|j: int|
                    0 <= j < i ==> {
                        let t = old(self).transformed@[j];
                        &&& (#[trigger] self.projected@[j]).x as int == project_x(
                            t.x as int,
                            t.z as int,
                            win_width as int,
                            win_height as int,
                            focal as int,
                        )
                        &&& self.projected@[j].y as int == project_y(
                            t.y as int,
                            t.z as int,
                            win_height as int,
                            focal as int,
                        )
                    },
            decreases n - i,
        {
            let t = self.transformed[i];
            proof {
                let tx: int = t.x as int;
                let ty: int = t.y as int;
                let tz: int = t.z as int;
                let w: int = win_width as int;
                let h: int = win_height as int;
                let f: int = focal as int;
                let fp: int = FP_ONE as int;
                let hw: int = half_w as int;
                let hh: int = half_h as int;
                assert((-0x10_0000_0000_0000_0000_0000_0000 <= tx * w <= 0x10_0000_0000_0000_0000_0000_0000)
                    && (-0x10_0000_0000_0000_0000_0000_0000 <= tx * w * f <= 0x10_0000_0000_0000_0000_0000_0000)
                    && (-0x10_0000_0000_0000_0000_0000_0000 <= tx * w * f * hw <= 0x10_0000_0000_0000_0000_0000_0000))
                    by (nonlinear_arith)
                    requires
                        -0x2000_0000_0000 <= tx <= 0x2000_0000_0000,
                        0 <= w <= 0x1_0000,
                        0 < f <= 0x100_0000,
                        0 <= hw <= 0x8000,
                ;
                assert((0 <= hw * tz <= 0x10_0000_0000_0000_0000_0000_0000)
                    && (0 <= hw * tz * h <= 0x10_0000_0000_0000_0000_0000_0000)
                    && (0 <= hw * tz * h * fp <= 0x10_0000_0000_0000_0000_0000_0000))
                    by (nonlinear_arith)
                    requires
                        0 <= hw <= 0x8000,
                        1 <= tz <= 0x2000_0000_0000,
                        1 <= h <= 0x1_0000,
                        fp == 0x1000,
                ;
                assert((-0x10_0000_0000_0000_0000_0000_0000 <= ty * f <= 0x10_0000_0000_0000_0000_0000_0000)
                    && (-0x10_0000_0000_0000_0000_0000_0000 <= ty * f * hh <= 0x10_0000_0000_0000_0000_0000_0000))
                    by (nonlinear_arith)
                    requires
                        -0x2000_0000_0000 <= ty <= 0x2000_0000_0000,
                        0 < f <= 0x100_0000,
                        0 <= hh <= 0x8000,
                ;
                assert((0 <= hh * tz <= 0x10_0000_0000_0000_0000_0000_0000)
                    && (0 <= hh * tz * fp <= 0x10_0000_0000_0000_0000_0000_0000))
                    by (nonlinear_arith)
                    requires
                        0 <= hh <= 0x8000,
                        1 <= tz <= 0x2000_0000_0000,
                        fp == 0x1000,
                ;
                assert((1 <= tz * h && tz * h <= 0x2000_0000_0000_0000)
                    && (1 <= tz * h * fp && tz * h * fp <= 0x2000_0000_0000_0000_0000))
                    by (nonlinear_arith)
                    requires
                        1 <= tz <= 0x2000_0000_0000,
                        1 <= h <= 0x1_0000,
                        fp == 0x1000,
                ;
                assert(1 <= tz * fp <= 0x200_0000_0000_0000) by (nonlinear_arith)
                    requires
                        1 <= tz <= 0x2000_0000_0000,
                        fp == 0x1000,
                ;
            }
            let num_x: i128 = (t.x as i128) * (win_width as i128) * (focal as i128) * (half_w
                as i128) + (half_w as i128) * (t.z as i128) * (win_height as i128) * (FP_ONE
                as i128);
            let den_x: i128 = (t.z as i128) * (win_height as i128) * (FP_ONE as i128);
            let num_y: i128 = (t.y as i128) * (focal as i128) * (half_h as i128) + (half_h
                as i128) * (t.z as i128) * (FP_ONE as i128);
            let den_y: i128 = (t.z as i128) * (FP_ONE as i128);
            let sx_i = scaled_ratio(num_x, den_x);
            let sy_i = scaled_ratio(num_y, den_y);
            let px: u32 = if sx_i < 0 {
                0
            } else if sx_i > (u32::MAX as i128) {
                u32::MAX
            } else {
                sx_i as u32
            };
            let py: u32 = if sy_i < 0 {
                0
            } else if sy_i > (u32::MAX as i128) {
                u32::MAX
            } else {
                sy_i as u32
            };
            self.projected[i] = Point2D { x: px, y: py };
            proof {
                assert(px as int == project_x(
                    t.x as int,
                    t.z as int,
                    win_width as int,
                    win_height as int,
                    focal as int,
                ));
                assert(py as int == project_y(
                    t.y as int,
                    t.z as int,
                    win_height as int,
                    focal as int,
                ));
            }
            i = i + 1;
        }
    }

    /// Rasterize every polygon outline into the surface: for each polygon,
    /// a line between each consecutive pair of its projected points, closed
    /// from the last index back to the first, in drawing order. Exactly the
    /// on-surface bytes of those lines are painted white; every other byte
    /// is left unchanged.
    #[verifier::loop_isolation(false)]
    #[verifier::rlimit(60)]
    pub fn draw(&self, screen: &mut Screen)
        requires
            self.wf(),
            old(screen).wf(),
            forall|i: int|
                0 <= i < self.projected@.len() ==> (#[trigger] self.projected@[i]).x <= COORD_LIMIT
                    && self.projected@[i].y <= COORD_LIMIT,
        ensures
            final(screen).wf(),
            final(screen).same_layout(old(screen)),
            forall|k: int|
                0 <= k < old(screen).buffer@.len() ==> final(screen).buffer@[k] == (if old(
                    screen,
                ).covered(outlines_pixels(self.polygons@, self.projected@), k) {
                    0xffu8
                } else {
                    old(screen).buffer@[k]
                }),
    {
        let mut j: usize = 0;
        while j < self.polygons.len()
            invariant
                j <= self.polygons@.len(),
                screen.wf(),
                screen.same_layout(old(screen)),
                forall|k: int|
                    0 <= k < old(screen).buffer@.len() ==> screen.buffer@[k] == (if old(
                        screen,
                    ).covered(outlines_pixels_upto(self.polygons@, self.projected@, j as int), k) {
                        0xffu8
                    } else {
                        old(screen).buffer@[k]
                    }),
            decreases self.polygons@.len() - j,
        {
            let poly: &Polygon = &self.polygons[j];
            let ghost pre = outlines_pixels_upto(self.polygons@, self.projected@, j as int);
            let mut i: usize = 0;
            while i < poly.len()
                invariant
                    i <= poly@.len(),
                    screen.wf(),
                    screen.same_layout(old(screen)),
                    forall|k: int|
                        0 <= k < old(screen).buffer@.len() ==> screen.buffer@[k] == (if old(
                            screen,
                        ).covered(pre + edges_pixels_upto(poly@, self.projected@, i as int), k) {
                            0xffu8
                        } else {
                            old(screen).buffer@[k]
                        }),
                decreases poly@.len() - i,
            {
                let ai = poly[i];
                let ni = if i + 1 == poly.len() {
                    0
                } else {
                    i + 1
                };
                let bi = poly[ni];
                let a = self.projected[ai];
                let b = self.projected[bi];
                let ghost prev_scr = *screen;
                screen.line(a.x as usize, a.y as usize, b.x as usize, b.y as usize);
                proof {
                    let lp = edge_pixels(poly@, self.projected@, i as int);
                    assert(lp == line_pixels(a.x as int, a.y as int, b.x as int, b.y as int));
                    assert forall|k: int| 0 <= k < old(screen).buffer@.len() implies screen
                        .buffer@[k] == (if old(screen).covered(lp, k) {
                        0xffu8
                    } else {
                        prev_scr.buffer@[k]
                    }) by {
                        crate::gfx::lemma_covered_same_layout(prev_scr, *old(screen), lp, k);
                    }
                    lemma_paint_append(
                        *old(screen),
                        old(screen).buffer@,
                        prev_scr.buffer@,
                        screen.buffer@,
                        pre + edges_pixels_upto(poly@, self.projected@, i as int),
                        lp,
                    );
                    assert((pre + edges_pixels_upto(poly@, self.projected@, i as int)) + lp =~= pre
                        + edges_pixels_upto(poly@, self.projected@, i as int + 1));
                }
                i = i + 1;
            }
            proof {
                assert(pre + edges_pixels_upto(poly@, self.projected@, poly@.len() as int)
                    =~= outlines_pixels_upto(self.polygons@, self.projected@, j as int + 1));
            }
            j = j + 1;
        }
    }
}

/// Applying the identity matrix moves every vertex to itself: for any mesh,
/// the row that `apply` writes for vertex `i` equals the vertex's own row.
pub proof fn lemma_apply_identity(o: SimpleObject, m: Matrix)
    requires
        mview(m) == mat_identity(),
    ensures
        forall|i: int|
            0 <= i < o.vertices@.len() ==> vec_mat_mul(pview(#[trigger] o.vertices@[i]), mview(m))
                == pview(o.vertices@[i]),
{
    assert forall|i: int| 0 <= i < o.vertices@.len() implies vec_mat_mul(
        pview(#[trigger] o.vertices@[i]),
        mview(m),
    ) == pview(o.vertices@[i]) by {
        lemma_vec_mat_identity(pview(o.vertices@[i]));
    }
}

} // verus!
