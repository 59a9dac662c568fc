//! The pixel surface: point plotting and Bresenham line drawing into a
//! packed byte buffer.

use vstd::prelude::*;

verus! {

/// Cap on line endpoint coordinates, so that the signed arithmetic of the
/// rasterizer stays well inside `i64` and fits every `usize`.
pub const COORD_LIMIT: usize = 0x4000_0000;

/// The Bresenham stepping state `(x, y, error)` after `m` steps of a line
/// whose major axis is x: each step moves x by `dir`, and moves y up by one
/// exactly when the accumulated error is nonnegative.
pub open spec fn bx_state(sx: int, sy: int, dir: int, dx: int, dy: int, m: nat) -> (int, int, int)
    decreases m,
{
    if m == 0 {
        (sx, sy, 2 * dy - dx)
    } else {
        let p = bx_state(sx, sy, dir, dx, dy, (m - 1) as nat);
        if p.2 >= 0 {
            (p.0 + dir, p.1 + 1, p.2 + 2 * dy - 2 * dx)
        } else {
            (p.0 + dir, p.1, p.2 + 2 * dy)
        }
    }
}

/// The Bresenham stepping state `(x, y, error)` after `m` steps of a line
/// whose major axis is y: each step moves y up by one, and moves x by `dir`
/// exactly when the accumulated error is nonnegative.
pub open spec fn by_state(sx: int, sy: int, dir: int, dx: int, dy: int, m: nat) -> (int, int, int)
    decreases m,
{
    if m == 0 {
        (sx, sy, 2 * dx - dy)
    } else {
        let p = by_state(sx, sy, dir, dx, dy, (m - 1) as nat);
        if p.2 >= 0 {
            (p.0 + dir, p.1 + 1, p.2 + 2 * dx - 2 * dy)
        } else {
            (p.0, p.1 + 1, p.2 + 2 * dx)
        }
    }
}

/// The `dx + 1` pixels of an x-major line, in plotting order.
pub open spec fn bx_pixels(sx: int, sy: int, dir: int, dx: int, dy: int) -> Seq<(int, int)> {
    Seq::new((dx + 1) as nat, |i: int| {
        let s = bx_state(sx, sy, dir, dx, dy, i as nat);
        (s.0, s.1)
    })
}

/// The `dy + 1` pixels of a y-major line, in plotting order.
pub open spec fn by_pixels(sx: int, sy: int, dir: int, dx: int, dy: int) -> Seq<(int, int)> {
    Seq::new((dy + 1) as nat, |i: int| {
        let s = by_state(sx, sy, dir, dx, dy, i as nat);
        (s.0, s.1)
    })
}

/// The pixels that `Screen::line` plots between two endpoints: the endpoints
/// are swapped so the line runs top to bottom, then the axis with the larger
/// delta drives the stepping.
pub open spec fn line_pixels(x1: int, y1: int, x2: int, y2: int) -> Seq<(int, int)> {
    let sx1 = if y1 > y2 { x2 } else { x1 };
    let sy1 = if y1 > y2 { y2 } else { y1 };
    let sx2 = if y1 > y2 { x1 } else { x2 };
    let sy2 = if y1 > y2 { y1 } else { y2 };
    let dy = sy2 - sy1;
    let dir: int = if sx2 - sx1 > 0 { 1 } else { -1 };
    let dx = if sx2 - sx1 > 0 { sx2 - sx1 } else { sx1 - sx2 };
    if dx > dy {
        bx_pixels(sx1, sy1, dir, dx, dy)
    } else {
        by_pixels(sx1, sy1, dir, dx, dy)
    }
}

/// The x-major stepping invariant: after `m` steps the major coordinate has
/// advanced `m` pixels, the minor coordinate lies between the endpoints, and
/// the error term carries its closed form within its fixed bounds.
pub proof fn lemma_bx_props(sx: int, sy: int, dir: int, dx: int, dy: int, m: nat)
    requires
        0 <= dy < dx,
        dir == 1 || dir == -1,
        m <= dx,
    ensures
        ({
            let s = bx_state(sx, sy, dir, dx, dy, m);
            &&& s.0 == sx + m * dir
            &&& sy <= s.1 <= sy + dy
            &&& s.1 - sy <= m
            &&& s.2 == 2 * (m + 1) * dy - dx - 2 * (s.1 - sy) * dx
            &&& 2 * dy - 2 * dx <= s.2 <= 2 * dy - 1
        }),
    decreases m,
{
    let s = bx_state(sx, sy, dir, dx, dy, m);
    let q: int = s.1 - sy;
    if m == 0 {
        assert(s.0 == sx + m * dir) by (nonlinear_arith)
            requires
                m == 0,
                s.0 == sx,
        ;
    } else {
        lemma_bx_props(sx, sy, dir, dx, dy, (m - 1) as nat);
        let p = bx_state(sx, sy, dir, dx, dy, (m - 1) as nat);
        let q0: int = p.1 - sy;
        assert(s.0 == sx + m * dir) by (nonlinear_arith)
            requires
                s.0 == sx + (m - 1) * dir + dir,
                m >= 1,
        ;
        assert(2 * (m + 1) * dy == 2 * m * dy + 2 * dy) by (nonlinear_arith);
        assert(2 * (q0 + 1) * dx == 2 * q0 * dx + 2 * dx) by (nonlinear_arith);
        assert(s.2 == 2 * (m + 1) * dy - dx - 2 * q * dx);
        // the minor coordinate never overshoots: q stays at most dy
        assert(2 * q * dx <= 2 * m * dy + dx);
        assert(q <= dy) by (nonlinear_arith)
            requires
                2 * q * dx <= 2 * m * dy + dx,
                m <= dx,
                0 <= dy < dx,
        ;
    }
}

/// The last pixel of an x-major line is the far endpoint: after `dx` steps
/// the minor coordinate has advanced exactly `dy`.
pub proof fn lemma_bx_last(sx: int, sy: int, dir: int, dx: int, dy: int)
    requires
        0 <= dy < dx,
        dir == 1 || dir == -1,
    ensures
        ({
            let s = bx_state(sx, sy, dir, dx, dy, dx as nat);
            s.0 == sx + dx * dir && s.1 == sy + dy
        }),
{
    lemma_bx_props(sx, sy, dir, dx, dy, dx as nat);
    let s = bx_state(sx, sy, dir, dx, dy, dx as nat);
    let q: int = s.1 - sy;
    assert(2 * (dx + 1) * dy == 2 * dx * dy + 2 * dy) by (nonlinear_arith);
    assert(2 * q * dx >= 2 * dx * dy - dx + 1);
    assert(q >= dy) by (nonlinear_arith)
        requires
            2 * q * dx >= 2 * dx * dy - dx + 1,
            0 <= dy < dx,
    ;
}

/// The y-major stepping invariant, the mirror image of `lemma_bx_props`:
/// the major (y) coordinate advances one pixel per step and the minor (x)
/// coordinate has moved `(s.0 - sx) * dir` pixels, at most `dx`.
pub proof fn lemma_by_props(sx: int, sy: int, dir: int, dx: int, dy: int, m: nat)
    requires
        0 <= dx <= dy,
        1 <= dy,
        dir == 1 || dir == -1,
        m <= dy,
    ensures
        ({
            let s = by_state(sx, sy, dir, dx, dy, m);
            let q = (s.0 - sx) * dir;
            &&& s.1 == sy + m
            &&& 0 <= q <= dx
            &&& q <= m
            &&& s.2 == 2 * (m + 1) * dx - dy - 2 * q * dy
            &&& 2 * dx - 2 * dy <= s.2 <= 2 * dx - 1
        }),
    decreases m,
{
    let s = by_state(sx, sy, dir, dx, dy, m);
    let q: int = (s.0 - sx) * dir;
    if m == 0 {
        assert(q == 0) by (nonlinear_arith)
            requires
                s.0 == sx,
                q == (s.0 - sx) * dir,
        ;
        assert(2 * q * dy == 0) by (nonlinear_arith)
            requires
                q == 0,
        ;
    } else {
        lemma_by_props(sx, sy, dir, dx, dy, (m - 1) as nat);
        let p = by_state(sx, sy, dir, dx, dy, (m - 1) as nat);
        let q0: int = (p.0 - sx) * dir;
        if p.2 >= 0 {
            assert(q == q0 + 1) by (nonlinear_arith)
                requires
                    s.0 == p.0 + dir,
                    dir == 1 || dir == -1,
                    q == (s.0 - sx) * dir,
                    q0 == (p.0 - sx) * dir,
            ;
        } else {
            assert(q == q0);
        }
        assert(2 * (m + 1) * dx == 2 * m * dx + 2 * dx) by (nonlinear_arith);
        assert(2 * (q0 + 1) * dy == 2 * q0 * dy + 2 * dy) by (nonlinear_arith);
        assert(s.2 == 2 * (m + 1) * dx - dy - 2 * q * dy);
        // the minor coordinate never overshoots: q stays at most dx
        assert(2 * q * dy <= 2 * m * dx + dy);
        assert(q <= dx) by (nonlinear_arith)
            requires
                2 * q * dy <= 2 * m * dx + dy,
                m <= dy,
                0 <= dx <= dy,
                1 <= dy,
        ;
    }
}

/// The last pixel of a y-major line is the far endpoint: after `dy` steps
/// the minor coordinate has advanced exactly `dx`.
pub proof fn lemma_by_last(sx: int, sy: int, dir: int, dx: int, dy: int)
    requires
        0 <= dx <= dy,
        1 <= dy,
        dir == 1 || dir == -1,
    ensures
        ({
            let s = by_state(sx, sy, dir, dx, dy, dy as nat);
            s.0 == sx + dx * dir && s.1 == sy + dy
        }),
{
    lemma_by_props(sx, sy, dir, dx, dy, dy as nat);
    let s = by_state(sx, sy, dir, dx, dy, dy as nat);
    let q: int = (s.0 - sx) * dir;
    assert(2 * (dy + 1) * dx == 2 * dy * dx + 2 * dx) by (nonlinear_arith);
    assert(2 * q * dy >= 2 * dy * dx - dy + 1);
    assert(q >= dx) by (nonlinear_arith)
        requires
            2 * q * dy >= 2 * dy * dx - dy + 1,
            0 <= dx <= dy,
            1 <= dy,
    ;
    assert(s.0 == sx + dx * dir) by (nonlinear_arith)
        requires
            (s.0 - sx) * dir == dx,
            dir == 1 || dir == -1,
    ;
}

/// One step of an x-major line moves the major (x) coordinate by exactly
/// `dir` and the minor (y) coordinate by zero or one.
pub proof fn lemma_bx_step(sx: int, sy: int, dir: int, dx: int, dy: int, m: nat)
    requires
        m >= 1,
    ensures
        ({
            let p = bx_state(sx, sy, dir, dx, dy, (m - 1) as nat);
            let s = bx_state(sx, sy, dir, dx, dy, m);
            &&& s.0 == p.0 + dir
            &&& s.1 == p.1 || s.1 == p.1 + 1
        }),
{
}

/// One step of a y-major line moves the major (y) coordinate up by exactly
/// one and the minor (x) coordinate by zero or `dir`.
pub proof fn lemma_by_step(sx: int, sy: int, dir: int, dx: int, dy: int, m: nat)
    requires
        m >= 1,
    ensures
        ({
            let p = by_state(sx, sy, dir, dx, dy, (m - 1) as nat);
            let s = by_state(sx, sy, dir, dx, dy, m);
            &&& s.1 == p.1 + 1
            &&& s.0 == p.0 || s.0 == p.0 + dir
        }),
{
}

/// The Bresenham error bound for an x-major line: at every step `m`, the
/// minor coordinate `q = y - sy` is within half a pixel of the ideal line,
/// `|q - m * dy / dx| <= 1/2`, stated over integers as
/// `|2 * m * dy - 2 * q * dx| <= dx`.
pub proof fn lemma_bx_fidelity(sx: int, sy: int, dir: int, dx: int, dy: int, m: nat)
    requires
        0 <= dy < dx,
        dir == 1 || dir == -1,
        m <= dx,
    ensures
        ({
            let s = bx_state(sx, sy, dir, dx, dy, m);
            let q = s.1 - sy;
            -dx <= 2 * m * dy - 2 * q * dx <= dx
        }),
{
    lemma_bx_props(sx, sy, dir, dx, dy, m);
    assert(2 * (m + 1) * dy == 2 * m * dy + 2 * dy) by (nonlinear_arith);
}

/// The Bresenham error bound for a y-major line: at every step `m`, the
/// minor coordinate `q = (x - sx) * dir` is within half a pixel of the
/// ideal line, stated over integers as `|2 * m * dx - 2 * q * dy| <= dy`.
pub proof fn lemma_by_fidelity(sx: int, sy: int, dir: int, dx: int, dy: int, m: nat)
    requires
        0 <= dx <= dy,
        1 <= dy,
        dir == 1 || dir == -1,
        m <= dy,
    ensures
        ({
            let s = by_state(sx, sy, dir, dx, dy, m);
            let q = (s.0 - sx) * dir;
            -dy <= 2 * m * dx - 2 * q * dy <= dy
        }),
{
    lemma_by_props(sx, sy, dir, dx, dy, m);
    assert(2 * (m + 1) * dx == 2 * m * dx + 2 * dx) by (nonlinear_arith);
}

/// A degenerate line is a single pixel: the line from a point to itself
/// plots exactly that point.
pub proof fn lemma_line_pixels_point(x: int, y: int)
    ensures
        line_pixels(x, y, x, y) == seq![(x, y)],
{
    let lp = line_pixels(x, y, x, y);
    assert(lp.len() == 1);
    assert(lp[0] == (x, y));
    assert(lp =~= seq![(x, y)]);
}

/// The shape of a drawn line: exactly `max(|dx|, |dy|) + 1` pixels, the
/// first one at the upper endpoint and the last one at the lower endpoint,
/// both endpoints included.
pub proof fn lemma_line_pixels_shape(x1: int, y1: int, x2: int, y2: int)
    ensures
        ({
            let lp = line_pixels(x1, y1, x2, y2);
            let dx = if x2 >= x1 { x2 - x1 } else { x1 - x2 };
            let dy = if y2 >= y1 { y2 - y1 } else { y1 - y2 };
            &&& lp.len() == (if dx > dy { dx } else { dy }) + 1
            &&& lp[0] == (if y1 > y2 { (x2, y2) } else { (x1, y1) })
            &&& lp[lp.len() - 1] == (if y1 > y2 { (x1, y1) } else { (x2, y2) })
        }),
{
    let lp = line_pixels(x1, y1, x2, y2);
    let sx1 = if y1 > y2 { x2 } else { x1 };
    let sy1 = if y1 > y2 { y2 } else { y1 };
    let sx2 = if y1 > y2 { x1 } else { x2 };
    let sy2 = if y1 > y2 { y1 } else { y2 };
    let dy = sy2 - sy1;
    let dir: int = if sx2 - sx1 > 0 { 1 } else { -1 };
    let dx = if sx2 - sx1 > 0 { sx2 - sx1 } else { sx1 - sx2 };
    if dx > dy {
        lemma_bx_last(sx1, sy1, dir, dx, dy);
        if sx2 - sx1 > 0 {
            assert(dx * dir == dx) by (nonlinear_arith)
                requires
                    dir == 1,
            ;
        } else {
            assert(dx * dir == -dx) by (nonlinear_arith)
                requires
                    dir == -1,
            ;
        }
        assert(lp[lp.len() - 1] == (sx2, sy2));
    } else {
        if dy >= 1 {
            lemma_by_last(sx1, sy1, dir, dx, dy);
            if sx2 - sx1 > 0 {
                assert(dx * dir == dx) by (nonlinear_arith)
                    requires
                        dir == 1,
                ;
            } else {
                assert(dx * dir == -dx) by (nonlinear_arith)
                    requires
                        dir == -1,
                ;
            }
            assert(lp[lp.len() - 1] == (sx2, sy2));
        } else {
            assert(lp[0] == (sx1, sy1));
            assert(lp[lp.len() - 1] == (sx2, sy2));
        }
    }
}

/// Byte coverage depends only on the surface layout: two screens with the
/// same dimensions and stride cover the same bytes with the same pixels.
pub proof fn lemma_covered_same_layout(s1: Screen, s2: Screen, ps: Seq<(int, int)>, k: int)
    requires
        s1.width == s2.width,
        s1.height == s2.height,
        s1.bytes_per_pixel == s2.bytes_per_pixel,
        s1.bytes_per_line == s2.bytes_per_line,
    ensures
        s1.covered(ps, k) == s2.covered(ps, k),
{
    if s1.covered(ps, k) {
        let i = choose|i: int| #[trigger] s1.covers_at(ps, i, k);
        assert(s2.covers_at(ps, i, k));
    }
    if s2.covered(ps, k) {
        let i = choose|i: int| #[trigger] s2.covers_at(ps, i, k);
        assert(s1.covers_at(ps, i, k));
    }
}

/// One plotting step extends the painted bytes from the first `m` pixels of
/// `ps` to the first `m + 1`: if `mid` is `old_buf` with the on-surface
/// bytes of the first `m` pixels painted and `new_buf` is `mid` with pixel
/// `ps[m]` painted, then `new_buf` is `old_buf` with the first `m + 1`
/// pixels painted.
proof fn lemma_paint_step(
    s: Screen,
    old_buf: Seq<u8>,
    mid_buf: Seq<u8>,
    new_buf: Seq<u8>,
    ps: Seq<(int, int)>,
    m: int,
)
    requires
        0 <= m < ps.len(),
        mid_buf.len() == old_buf.len(),
        new_buf.len() == old_buf.len(),
        forall|k: int|
            0 <= k < old_buf.len() ==> mid_buf[k] == (if s.covered(ps.take(m), k) {
                0xffu8
            } else {
                old_buf[k]
            }),
        s.on_screen(ps[m].0, ps[m].1) ==> forall|k: int|
            0 <= k < old_buf.len() ==> new_buf[k] == (if s.pix_byte(ps[m].0, ps[m].1, k) {
                0xffu8
            } else {
                mid_buf[k]
            }),
        !s.on_screen(ps[m].0, ps[m].1) ==> new_buf == mid_buf,
    ensures
        forall|k: int|
            0 <= k < old_buf.len() ==> new_buf[k] == (if s.covered(ps.take(m + 1), k) {
                0xffu8
            } else {
                old_buf[k]
            }),
{
    let p = ps[m];
    assert forall|k: int| 0 <= k < old_buf.len() implies new_buf[k] == (if s.covered(
        ps.take(m + 1),
        k,
    ) {
        0xffu8
    } else {
        old_buf[k]
    }) by {
        assert(ps.take(m + 1)[m] == p);
        if s.on_screen(p.0, p.1) && s.pix_byte(p.0, p.1, k) {
            assert(s.covers_at(ps.take(m + 1), m, k));
            assert(s.covered(ps.take(m + 1), k));
        } else {
            assert(new_buf[k] == mid_buf[k]);
            if s.covered(ps.take(m), k) {
                let i = choose|i: int| #[trigger] s.covers_at(ps.take(m), i, k);
                assert(ps.take(m + 1)[i] == ps.take(m)[i]);
                assert(s.covers_at(ps.take(m + 1), i, k));
            } else {
                if s.covered(ps.take(m + 1), k) {
                    let i = choose|i: int| #[trigger] s.covers_at(ps.take(m + 1), i, k);
                    if i < m {
                        assert(ps.take(m)[i] == ps.take(m + 1)[i]);
                        assert(s.covers_at(ps.take(m), i, k));
                    }
                    assert(false);
                }
            }
        }
    }
}

/// A pixel surface over a packed byte buffer: `width * height` pixels of
/// `bytes_per_pixel` bytes, one row every `bytes_per_line` bytes (the stride
/// may exceed `width * bytes_per_pixel` by padding).
pub struct Screen {
    pub buffer: Vec<u8>,
    pub width: usize,
    pub height: usize,
    pub bytes_per_pixel: usize,
    pub bytes_per_line: usize,
}

impl Screen {
    /// Well-formed: three bytes per pixel, rows that hold `width` pixels,
    /// and a buffer that covers `height` rows.
    pub open spec fn wf(&self) -> bool {
        &&& self.bytes_per_pixel == 3
        &&& self.bytes_per_line >= self.width * self.bytes_per_pixel
        &&& self.buffer@.len() >= self.height * self.bytes_per_line
    }

    /// The surface metadata and buffer length of `other`, unchanged.
    pub open spec fn same_layout(&self, other: &Screen) -> bool {
        &&& self.width == other.width
        &&& self.height == other.height
        &&& self.bytes_per_pixel == other.bytes_per_pixel
        &&& self.bytes_per_line == other.bytes_per_line
        &&& self.buffer@.len() == other.buffer@.len()
    }

    /// The byte offset of pixel `(x, y)` in the buffer.
    pub open spec fn pix_off(&self, x: int, y: int) -> int {
        y * self.bytes_per_line + x * self.bytes_per_pixel
    }

    /// True when byte `k` is one of the bytes of pixel `(x, y)`.
    pub open spec fn pix_byte(&self, x: int, y: int, k: int) -> bool {
        self.pix_off(x, y) <= k < self.pix_off(x, y) + self.bytes_per_pixel
    }

    /// True when `(x, y)` lies on the surface.
    pub open spec fn on_screen(&self, x: int, y: int) -> bool {
        0 <= x < self.width && 0 <= y < self.height
    }

    /// True when the pixel at position `i` of `ps` is on the surface and
    /// byte `k` belongs to it.
    pub open spec fn covers_at(&self, ps: Seq<(int, int)>, i: int, k: int) -> bool {
        &&& 0 <= i < ps.len()
        &&& self.on_screen(ps[i].0, ps[i].1)
        &&& self.pix_byte(ps[i].0, ps[i].1, k)
    }

    /// True when byte `k` belongs to some on-surface pixel of `ps`.
    pub open spec fn covered(&self, ps: Seq<(int, int)>, k: int) -> bool {
        exists|i: int| self.covers_at(ps, i, k)
    }

    /// Write the full-intensity pixel at `(x, y)`: its three bytes become
    /// `0xff`. Out-of-range coordinates leave the buffer unchanged; there is
    /// no error and no out-of-bounds write.
    pub fn putpixel(&mut self, x: usize, y: usize)
        requires
            old(self).wf(),
        ensures
            final(self).wf(),
            final(self).same_layout(old(self)),
            old(self).on_screen(x as int, y as int) ==> forall|k: int|
                0 <= k < old(self).buffer@.len() ==> final(self).buffer@[k] == (
                    if old(self).pix_byte(x as int, y as int, k) {
                        0xffu8
                    } else {
                        old(self).buffer@[k]
                    }),
            !old(self).on_screen(x as int, y as int) ==> final(self).buffer@ == old(
                self,
            ).buffer@,
    {
        if x < self.width && y < self.height {
            let buf_len = self.buffer.len();
            proof {
                assert(buf_len >= self.height * self.bytes_per_line);
                let w: int = self.width as int;
                let h: int = self.height as int;
                let st: int = self.bytes_per_line as int;
                assert(y * st + x * 3 + 3 <= h * st) by (nonlinear_arith)
                    requires
                        0 <= y < h,
                        0 <= x < w,
                        st >= w * 3,
                ;
            }
            let offset = y * self.bytes_per_line + x * self.bytes_per_pixel;
            self.buffer[offset] = 0xff;
            self.buffer[offset + 1] = 0xff;
            self.buffer[offset + 2] = 0xff;
        }
    }

    /// Draw the Bresenham line between `(x1, y1)` and `(x2, y2)`, both
    /// endpoints included: exactly the pixels of `line_pixels` are plotted,
    /// in order, and every byte outside them is left unchanged. Samples that
    /// fall off the surface are dropped silently, one by one.
    #[verifier::loop_isolation(false)]
    #[verifier::rlimit(80)]
    pub fn line(&mut self, x1: usize, y1: usize, x2: usize, y2: usize)
        requires
            old(self).wf(),
            x1 <= COORD_LIMIT,
            y1 <= COORD_LIMIT,
            x2 <= COORD_LIMIT,
            y2 <= COORD_LIMIT,
        ensures
            final(self).wf(),
            final(self).same_layout(old(self)),
            forall|k: int|
                0 <= k < old(self).buffer@.len() ==> final(self).buffer@[k] == (if old(
                    self,
                ).covered(line_pixels(x1 as int, y1 as int, x2 as int, y2 as int), k) {
                    0xffu8
                } else {
                    old(self).buffer@[k]
                }),
    {
        let ghost lp = line_pixels(x1 as int, y1 as int, x2 as int, y2 as int);

        // swap the endpoints so the line runs top to bottom
        let (sx1, sy1, sx2, sy2): (i64, i64, i64, i64) = if y1 > y2 {
            (x2 as i64, y2 as i64, x1 as i64, y1 as i64)
        } else {
            (x1 as i64, y1 as i64, x2 as i64, y2 as i64)
        };
        let delta_y: i64 = sy2 - sy1;
        let dx0: i64 = sx2 - sx1;
        let (direction, delta_x): (i64, i64) = if dx0 > 0 {
            (1i64, dx0)
        } else {
            (-1i64, -dx0)
        };

        let mut x: i64 = sx1;
        let mut y: i64 = sy1;

        // plot the first pixel
        let ghost buf0 = self.buffer@;
        self.putpixel(x as usize, y as usize);
        proof {
            assert(lp[0] == (x as int, y as int));
            lemma_paint_step(*old(self), buf0, buf0, self.buffer@, lp, 0);
        }

        if delta_x > delta_y {
            // major axis is the x
            let double_delta_y: i64 = delta_y + delta_y;
            let diff_double_deltas: i64 = double_delta_y - (delta_x + delta_x);
            let mut error: i64 = double_delta_y - delta_x;
            let mut m: i64 = 0;
            proof {
                assert(lp == bx_pixels(
                    sx1 as int,
                    sy1 as int,
                    direction as int,
                    delta_x as int,
                    delta_y as int,
                ));
            }
            while m < delta_x
                invariant
                    0 <= m <= delta_x,
                    (x as int, y as int, error as int) == bx_state(
                        sx1 as int,
                        sy1 as int,
                        direction as int,
                        delta_x as int,
                        delta_y as int,
                        m as nat,
                    ),
                    0 <= x <= COORD_LIMIT,
                    0 <= y <= COORD_LIMIT,
                    self.wf(),
                    self.same_layout(old(self)),
                    forall|k: int|
                        0 <= k < old(self).buffer@.len() ==> self.buffer@[k] == (if old(
                            self,
                        ).covered(lp.take(m + 1), k) {
                            0xffu8
                        } else {
                            old(self).buffer@[k]
                        }),
                decreases delta_x - m,
            {
                proof {
                    lemma_bx_props(
                        sx1 as int,
                        sy1 as int,
                        direction as int,
                        delta_x as int,
                        delta_y as int,
                        m as nat,
                    );
                }
                if error >= 0 {
                    y = y + 1;
                    error = error + diff_double_deltas;
                } else {
                    error = error + double_delta_y;
                }
                x = x + direction;
                m = m + 1;
                proof {
                    lemma_bx_props(
                        sx1 as int,
                        sy1 as int,
                        direction as int,
                        delta_x as int,
                        delta_y as int,
                        m as nat,
                    );
                    assert(0 <= x && x <= COORD_LIMIT) by (nonlinear_arith)
                        requires
                            x == sx1 + m * direction,
                            0 <= m <= delta_x,
                            direction == 1 || direction == -1,
                            direction == 1 ==> delta_x == sx2 - sx1,
                            direction == -1 ==> delta_x == sx1 - sx2,
                            0 <= sx1 <= COORD_LIMIT,
                            0 <= sx2 <= COORD_LIMIT,
                    ;
                }
                let ghost mid = self.buffer@;
                self.putpixel(x as usize, y as usize);
                proof {
                    assert(lp[m as int] == (x as int, y as int));
                    lemma_paint_step(*old(self), old(self).buffer@, mid, self.buffer@, lp, m as int);
                }
            }
            proof {
                assert(lp.take(delta_x as int + 1) =~= lp);
            }
        } else {
            // major axis is the y
            let double_delta_x: i64 = delta_x + delta_x;
            let diff_double_deltas: i64 = double_delta_x - (delta_y + delta_y);
            let mut error: i64 = double_delta_x - delta_y;
            let mut m: i64 = 0;
            proof {
                assert(lp == by_pixels(
                    sx1 as int,
                    sy1 as int,
                    direction as int,
                    delta_x as int,
                    delta_y as int,
                ));
            }
            while m < delta_y
                invariant
                    0 <= m <= delta_y,
                    (x as int, y as int, error as int) == by_state(
                        sx1 as int,
                        sy1 as int,
                        direction as int,
                        delta_x as int,
                        delta_y as int,
                        m as nat,
                    ),
                    0 <= x <= COORD_LIMIT,
                    0 <= y <= COORD_LIMIT,
                    self.wf(),
                    self.same_layout(old(self)),
                    forall|k: int|
                        0 <= k < old(self).buffer@.len() ==> self.buffer@[k] == (if old(
                            self,
                        ).covered(lp.take(m + 1), k) {
                            0xffu8
                        } else {
                            old(self).buffer@[k]
                        }),
                decreases delta_y - m,
            {
                proof {
                    lemma_by_props(
                        sx1 as int,
                        sy1 as int,
                        direction as int,
                        delta_x as int,
                        delta_y as int,
                        m as nat,
                    );
                }
                if error >= 0 {
                    x = x + direction;
                    error = error + diff_double_deltas;
                } else {
                    error = error + double_delta_x;
                }
                y = y + 1;
                m = m + 1;
                proof {
                    lemma_by_props(
                        sx1 as int,
                        sy1 as int,
                        direction as int,
                        delta_x as int,
                        delta_y as int,
                        m as nat,
                    );
                    assert(0 <= x && x <= COORD_LIMIT) by (nonlinear_arith)
                        requires
                            0 <= (x as int - sx1 as int) * (direction as int) <= delta_x,
                            direction == 1 || direction == -1,
                            direction == 1 ==> delta_x == sx2 - sx1,
                            direction == -1 ==> delta_x == sx1 - sx2,
                            0 <= sx1 <= COORD_LIMIT,
                            0 <= sx2 <= COORD_LIMIT,
                    ;
                }
                let ghost mid = self.buffer@;
                self.putpixel(x as usize, y as usize);
                proof {
                    assert(lp[m as int] == (x as int, y as int));
                    lemma_paint_step(*old(self), old(self).buffer@, mid, self.buffer@, lp, m as int);
                }
            }
            proof {
                assert(lp.take(delta_y as int + 1) =~= lp);
            }
        }
    }
}

} // verus!
