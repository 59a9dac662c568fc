use qubular::Screen;

fn make_screen(width: usize, height: usize, stride: usize) -> Screen {
    Screen {
        buffer: vec![0u8; height * stride],
        width,
        height,
        bytes_per_pixel: 3,
        bytes_per_line: stride,
    }
}

fn white_pixels(s: &Screen) -> Vec<(usize, usize)> {
    let mut out = Vec::new();
    for y in 0..s.height {
        for x in 0..s.width {
            let off = y * s.bytes_per_line + x * s.bytes_per_pixel;
            let white = (0..3).all(|i| s.buffer[off + i] == 0xff);
            let black = (0..3).all(|i| s.buffer[off + i] == 0x00);
            assert!(white || black, "pixel ({x},{y}) is half written");
            if white {
                out.push((x, y));
            }
        }
    }
    out
}

#[test]
fn putpixel_writes_three_bytes_at_offset() {
    let mut s = make_screen(4, 3, 16);
    s.putpixel(2, 1);
    let off = 1 * 16 + 2 * 3;
    for k in 0..s.buffer.len() {
        let expected = if k >= off && k < off + 3 { 0xff } else { 0x00 };
        assert_eq!(s.buffer[k], expected, "byte {k}");
    }
}

#[test]
fn putpixel_out_of_bounds_leaves_buffer_unchanged() {
    let mut s = make_screen(4, 3, 16);
    let before = s.buffer.clone();
    s.putpixel(4, 0);
    s.putpixel(0, 3);
    s.putpixel(100, 100);
    assert_eq!(s.buffer, before);
}

#[test]
fn line_single_point_plots_one_pixel() {
    let mut s = make_screen(8, 8, 24);
    s.line(5, 6, 5, 6);
    assert_eq!(white_pixels(&s), vec![(5, 6)]);
}

#[test]
fn line_horizontal_plots_five_pixels() {
    let mut s = make_screen(8, 8, 24);
    s.line(0, 0, 4, 0);
    assert_eq!(white_pixels(&s), vec![(0, 0), (1, 0), (2, 0), (3, 0), (4, 0)]);
}

#[test]
fn line_endpoint_order_gives_the_same_pixels() {
    let mut a = make_screen(8, 8, 24);
    let mut b = make_screen(8, 8, 24);
    a.line(0, 0, 4, 0);
    b.line(4, 0, 0, 0);
    assert_eq!(white_pixels(&a), white_pixels(&b));
    let mut c = make_screen(16, 16, 48);
    let mut d = make_screen(16, 16, 48);
    c.line(1, 2, 9, 13);
    d.line(9, 13, 1, 2);
    assert_eq!(white_pixels(&c), white_pixels(&d));
}

#[test]
fn line_y_major_plots_nine_pixels() {
    let mut s = make_screen(16, 16, 48);
    s.line(0, 0, 4, 8);
    let pixels = white_pixels(&s);
    // dy = 8 > dx = 4: y drives the loop, 9 pixels from (0,0) to (4,8)
    let expected = vec![
        (0usize, 0usize),
        (1, 1),
        (1, 2),
        (2, 3),
        (2, 4),
        (3, 5),
        (3, 6),
        (4, 7),
        (4, 8),
    ];
    assert_eq!(pixels, expected);
    // one pixel per scan line, y increasing by one, x non-decreasing
    let mut by_y = pixels.clone();
    by_y.sort_by_key(|p| p.1);
    for (m, (x, y)) in by_y.iter().enumerate() {
        assert_eq!(*y, m);
        if m > 0 {
            assert!(*x >= by_y[m - 1].0);
        }
        // the Bresenham error bound: the minor coordinate is within half a
        // pixel of the ideal line, |x - m * dx / dy| <= 1/2
        let err = 2 * (m as i64) * 4 - 2 * (*x as i64) * 8;
        assert!(err.abs() <= 8, "step {m}: error {err}");
    }
}

#[test]
fn line_diagonal_is_exact() {
    let mut s = make_screen(8, 8, 24);
    s.line(0, 0, 5, 5);
    assert_eq!(
        white_pixels(&s),
        vec![(0, 0), (1, 1), (2, 2), (3, 3), (4, 4), (5, 5)]
    );
}

#[test]
fn line_off_screen_samples_are_dropped() {
    // the segment leaves a 10-wide surface: only the on-surface samples of
    // the full run of pixels are plotted, with no error
    let mut s = make_screen(10, 4, 30);
    s.line(0, 0, 20, 0);
    let expected: Vec<(usize, usize)> = (0..10).map(|x| (x, 0)).collect();
    assert_eq!(white_pixels(&s), expected);
}

#[test]
fn line_does_not_touch_padding_bytes() {
    let mut s = make_screen(4, 4, 32);
    s.line(0, 0, 3, 3);
    for y in 0..4 {
        for k in (y * 32 + 12)..(y * 32 + 32) {
            assert_eq!(s.buffer[k], 0, "padding byte {k}");
        }
    }
}
