use qubular::{Matrix, Point3D, FP_ONE};

fn fx(units: i64) -> i64 {
    units * FP_ONE
}

#[test]
fn identity_entries() {
    let m = Matrix::identity();
    for r in 0..4 {
        for c in 0..4 {
            let expected = if r == c { 1 } else { 0 };
            assert_eq!(m.data[r][c], expected);
        }
    }
}

#[test]
fn translate_entries() {
    let m = Matrix::translate(fx(1), fx(2), fx(3));
    assert_eq!(m.data[0], [FP_ONE, 0, 0, 0]);
    assert_eq!(m.data[1], [0, FP_ONE, 0, 0]);
    assert_eq!(m.data[2], [0, 0, FP_ONE, 0]);
    assert_eq!(m.data[3], [fx(1), fx(2), fx(3), FP_ONE]);
}

#[test]
fn scale_entries() {
    let m = Matrix::scale(fx(2), fx(3), fx(4));
    assert_eq!(m.data[0], [fx(2), 0, 0, 0]);
    assert_eq!(m.data[1], [0, fx(3), 0, 0]);
    assert_eq!(m.data[2], [0, 0, fx(4), 0]);
    assert_eq!(m.data[3], [0, 0, 0, FP_ONE]);
}

#[test]
fn rotation_entries() {
    // a synthetic fixed-point sine and cosine pair
    let s = 1000;
    let c = 3000;
    let mx = Matrix::rotate_x(s, c);
    assert_eq!(mx.data[0], [FP_ONE, 0, 0, 0]);
    assert_eq!(mx.data[1], [0, c, s, 0]);
    assert_eq!(mx.data[2], [0, -s, c, 0]);
    assert_eq!(mx.data[3], [0, 0, 0, FP_ONE]);
    let my = Matrix::rotate_y(s, c);
    assert_eq!(my.data[0], [c, 0, -s, 0]);
    assert_eq!(my.data[1], [0, FP_ONE, 0, 0]);
    assert_eq!(my.data[2], [s, 0, c, 0]);
    assert_eq!(my.data[3], [0, 0, 0, FP_ONE]);
    let mz = Matrix::rotate_z(s, c);
    assert_eq!(mz.data[0], [c, s, 0, 0]);
    assert_eq!(mz.data[1], [-s, c, 0, 0]);
    assert_eq!(mz.data[2], [0, 0, FP_ONE, 0]);
    assert_eq!(mz.data[3], [0, 0, 0, FP_ONE]);
}

#[test]
fn matrix_multiply_exact_entries() {
    // multiplying by the neutral element on either side keeps every entry
    let a = Matrix::translate(fx(1), fx(-2), fx(3));
    let i = Matrix::identity();
    let ai = a.multiply(&i);
    let ia = i.multiply(&a);
    for r in 0..4 {
        for c in 0..4 {
            assert_eq!(ai.data[r][c], a.data[r][c]);
            assert_eq!(ia.data[r][c], a.data[r][c]);
        }
    }
    // a hand-computed entry: scale then translate composes both effects
    let s = Matrix::scale(fx(2), fx(2), fx(2));
    let t = Matrix::translate(0, 0, fx(10));
    let m = s.multiply(&t);
    // r[0][0] = 2*FP * FP = 2 * FP^2
    assert_eq!(m.data[0][0], 2 * FP_ONE * FP_ONE);
    // bottom row carries the translation scaled by FP_ONE
    assert_eq!(m.data[3][2], fx(10) * FP_ONE);
    assert_eq!(m.data[3][3], FP_ONE * FP_ONE);
}

#[test]
fn point_times_identity_is_the_point() {
    // the identity law, on a handful of points
    let pts = [
        Point3D::new(0, 0, 0),
        Point3D::new(fx(1), fx(-2), fx(3)),
        Point3D::new(-12345, 67890, -1),
    ];
    let i = Matrix::identity();
    for p in pts {
        assert_eq!(p.transform(&i), p);
    }
}

#[test]
fn transform_composition_associates() {
    // (p * a) * b == p * (a * b), exactly, for a rotation-like matrix and a
    // translation
    let p = Point3D::new(fx(2), fx(-1), fx(4));
    let a = Matrix::rotate_z(2048, 3547);
    let b = Matrix::translate(fx(1), fx(2), fx(10));
    let left = p.transform(&a).transform(&b);
    let ab = a.multiply(&b);
    let right = p.transform(&ab);
    assert_eq!(left, right);
}
