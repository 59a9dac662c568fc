use qubular::{Matrix, Point2D, Screen, SimpleObject, FP_ONE};

#[test]
fn cube_topology_and_vertices() {
    let size = 5u32;
    let c = SimpleObject::cube(size);
    let vertices = c.get_vertices();
    let d = (size as i64) * FP_ONE / 2;
    assert_eq!(vertices.len(), 8);
    let expected = [
        (-d, d, d),
        (d, d, d),
        (d, -d, d),
        (-d, -d, d),
        (-d, d, -d),
        (d, d, -d),
        (d, -d, -d),
        (-d, -d, -d),
    ];
    for (v, (x, y, z)) in vertices.iter().zip(expected) {
        assert_eq!((v.x, v.y, v.z, v.w), (x, y, z, FP_ONE));
        assert_eq!(v.x.abs(), d);
        assert_eq!(v.y.abs(), d);
        assert_eq!(v.z.abs(), d);
    }
    let polygons = c.get_polygons();
    assert_eq!(polygons.len(), 6);
    assert_eq!(polygons[0], vec![0, 1, 2, 3]);
    assert_eq!(polygons[1], vec![0, 4, 7, 3]);
    assert_eq!(polygons[2], vec![4, 5, 6, 7]);
    assert_eq!(polygons[3], vec![1, 5, 6, 2]);
    assert_eq!(polygons[4], vec![0, 4, 5, 1]);
    assert_eq!(polygons[5], vec![3, 7, 6, 2]);
    for p in &polygons {
        assert_eq!(p.len(), 4);
        for &i in p {
            assert!(i < 8);
        }
        let mut sorted = p.clone();
        sorted.sort();
        sorted.dedup();
        assert_eq!(sorted.len(), 4, "polygon indices are distinct");
    }
    // the per-frame arrays match the vertex count and start zeroed
    let transformed = c.get_transformed();
    assert_eq!(transformed.len(), 8);
    for t in &transformed {
        assert_eq!((t.x, t.y, t.z, t.w), (0, 0, 0, 0));
    }
    let projected = c.get_projected();
    assert_eq!(projected.len(), 8);
    for p in &projected {
        assert_eq!(*p, Point2D { x: 0, y: 0 });
    }
}

#[test]
fn apply_identity_keeps_vertices() {
    let mut c = SimpleObject::cube(7);
    c.apply(&Matrix::identity());
    assert_eq!(c.get_transformed(), c.get_vertices());
}

#[test]
fn apply_overwrites_previous_frame() {
    let mut c = SimpleObject::cube(2);
    c.apply(&Matrix::translate(0, 0, 3 * FP_ONE));
    let first = c.get_transformed();
    c.apply(&Matrix::identity());
    assert_ne!(c.get_transformed(), first);
    assert_eq!(c.get_transformed(), c.get_vertices());
}

#[test]
fn apply_translates_exactly() {
    let mut c = SimpleObject::cube(4);
    // translation by (0, 0, 10) units; the product with w = FP_ONE carries
    // one extra factor of FP_ONE
    c.apply(&Matrix::translate(0, 0, 10 * FP_ONE));
    let vertices = c.get_vertices();
    let transformed = c.get_transformed();
    for (v, t) in vertices.iter().zip(&transformed) {
        assert_eq!(t.x, v.x * FP_ONE);
        assert_eq!(t.y, v.y * FP_ONE);
        assert_eq!(t.z, (v.z + 10 * FP_ONE) * FP_ONE);
        assert_eq!(t.w, FP_ONE * FP_ONE);
    }
}

#[test]
fn cube_end_to_end_reference_frame() {
    // cube of size 5, rotation angle 0, translation (0, 0, 10), viewport
    // 800x600, field of view 60 degrees
    let mut c = SimpleObject::cube(5);
    let rotation = Matrix::rotate_y(0, FP_ONE);
    let translation = Matrix::translate(0, 0, 10 * FP_ONE);
    let m = rotation.multiply(&translation);
    c.apply(&m);

    // vertex 0 is (-2.5, 2.5, 2.5); after translation its depth is 12.5
    // -2.5 and 12.5 scaled by FP_ONE cubed: the composite matrix carries
    // two factors of the scale and the vertex one
    let t = c.get_transformed()[0];
    assert_eq!((t.x, t.y, t.z), (-171798691840, 171798691840, 858993459200));

    // focal = 1 / tan(30 degrees) in fixed point, truncated
    let focal = ((1.0 / (30.0f64.to_radians().tan())) * FP_ONE as f64) as i64;
    assert_eq!(focal, 7094);
    c.project(800, 600, focal);
    let projected = c.get_projected();

    // hand-computed from the projection formula, truncated once at the end:
    //   sx = trunc((-171798691840 * 800 * 7094 * 400
    //               + 400 * 858993459200 * 600 * 4096)
    //              / (858993459200 * 600 * 4096))
    //      = trunc(-184.7396 + 400) = 215
    //   sy = trunc((171798691840 * 7094 * 300 + 300 * 858993459200 * 4096)
    //              / (858993459200 * 4096))
    //      = trunc(103.9160 + 300) = 403
    assert_eq!(projected[0], Point2D { x: 215, y: 403 });

    // the remaining vertices, by the same formula
    let expected = [
        (215, 403),
        (584, 403),
        (584, 196),
        (215, 196),
        (92, 473),
        (707, 473),
        (707, 126),
        (92, 126),
    ];
    for (p, (x, y)) in projected.iter().zip(expected) {
        assert_eq!((p.x, p.y), (x, y));
    }
}

#[test]
fn projected_cube_rasterizes_into_frame() {
    // the full pipeline down to pixels: every polygon edge of the projected
    // cube lands inside the viewport and plots its endpoints
    let mut c = SimpleObject::cube(5);
    let m = Matrix::rotate_y(0, FP_ONE).multiply(&Matrix::translate(0, 0, 10 * FP_ONE));
    c.apply(&m);
    let focal = ((1.0 / (30.0f64.to_radians().tan())) * FP_ONE as f64) as i64;
    c.project(800, 600, focal);
    let projected = c.get_projected();
    let mut s = Screen {
        buffer: vec![0u8; 600 * 2400],
        width: 800,
        height: 600,
        bytes_per_pixel: 3,
        bytes_per_line: 2400,
    };
    c.draw(&mut s);
    // every projected vertex is an endpoint of some edge, so it is plotted
    for p in &projected {
        let off = (p.y as usize) * 2400 + (p.x as usize) * 3;
        assert_eq!(&s.buffer[off..off + 3], &[0xff, 0xff, 0xff]);
    }
    // the front face is axis-aligned: its top edge is a solid run
    for x in 215..=584usize {
        let off = 403 * 2400 + x * 3;
        assert_eq!(&s.buffer[off..off + 3], &[0xff, 0xff, 0xff]);
    }
    // and a byte far away from every edge stays black
    assert_eq!(s.buffer[0], 0);
}
