use mandelbrot_explorer::color::{color_for, hue_to_rgb, ColorScheme, Rgb};
use mandelbrot_explorer::escape::{escape_time, trace, IterationResult, MAX_ITER};
use mandelbrot_explorer::frame::render;

fn outside(z: &(f64, f64)) -> bool {
    z.0 * z.0 + z.1 * z.1 >= 4.0
}

fn evaluate(c: (f64, f64)) -> IterationResult {
    escape_time((0.0, 0.0), outside, move |z: &(f64, f64)| {
        (z.0 * z.0 - z.1 * z.1 + c.0, 2.0 * z.0 * z.1 + c.1)
    })
}

fn orbit(c: (f64, f64)) -> Vec<(f64, f64)> {
    trace((0.0, 0.0), outside, move |z: &(f64, f64)| {
        (z.0 * z.0 - z.1 * z.1 + c.0, 2.0 * z.0 * z.1 + c.1)
    })
}

fn to_plane(x: usize, y: usize, w: usize, h: usize, center: (f64, f64), scale: f64) -> (f64, f64) {
    let fx = x as f64 / w as f64;
    let fy = y as f64 / h as f64;
    (center.0 + (fx - 0.5) * scale, center.1 + (fy - 0.5) * scale)
}

fn rgb(r: u8, g: u8, b: u8) -> Rgb {
    Rgb { r, g, b }
}

#[test]
fn origin_is_bounded() {
    assert_eq!(evaluate((0.0, 0.0)), IterationResult::Bounded);
}

#[test]
fn far_left_point_escapes_after_one_step() {
    assert_eq!(evaluate((-2.5, 0.0)), IterationResult::Escaped(1));
}

#[test]
fn bound_is_tested_before_the_update() {
    // z_1 = -2 lies exactly on the bound, which counts as outside.
    assert_eq!(evaluate((-2.0, 0.0)), IterationResult::Escaped(1));
    // z_1 = (-0.5, -1.5) is inside, z_2 = (-2.5, 0) is outside.
    assert_eq!(evaluate((-0.5, -1.5)), IterationResult::Escaped(2));
}

#[test]
fn trace_length_agrees_with_escape_time() {
    let points = [(0.0, 0.0), (-2.5, 0.0), (-0.5, -1.5), (0.3, 0.5), (-0.75, 0.1), (0.26, 0.0), (1.0, 1.0)];
    for c in points {
        let path = orbit(c);
        assert_eq!(path[0], (0.0, 0.0));
        match evaluate(c) {
            IterationResult::Escaped(n) => {
                assert_eq!(path.len(), n as usize + 1);
                assert!(outside(&path[path.len() - 1]));
            }
            IterationResult::Bounded => assert_eq!(path.len(), MAX_ITER as usize),
        }
    }
}

#[test]
fn trace_of_escaping_point_ends_outside() {
    let path = orbit((-0.5, -1.5));
    assert_eq!(path, vec![(0.0, 0.0), (-0.5, -1.5), (-2.5, 0.0)]);
}

#[test]
fn counting_orbit_escapes_at_first_outside_iterate() {
    let r = escape_time(0u32, |z: &u32| *z >= 5, |z: &u32| *z + 1);
    assert_eq!(r, IterationResult::Escaped(5));
    let path = trace(0u32, |z: &u32| *z >= 5, |z: &u32| *z + 1);
    assert_eq!(path, vec![0, 1, 2, 3, 4, 5]);
}

#[test]
fn last_examined_iterate_is_the_ninety_ninth() {
    let r = escape_time(0u32, |z: &u32| *z >= 99, |z: &u32| *z + 1);
    assert_eq!(r, IterationResult::Escaped(99));
    assert_eq!(trace(0u32, |z: &u32| *z >= 99, |z: &u32| *z + 1).len(), 100);
    let r = escape_time(0u32, |z: &u32| *z >= 100, |z: &u32| *z + 1);
    assert_eq!(r, IterationResult::Bounded);
    let path = trace(0u32, |z: &u32| *z >= 100, |z: &u32| *z + 1);
    assert_eq!(path.len(), 100);
    assert_eq!(path[99], 99);
}

#[test]
fn linear_scheme_values() {
    assert_eq!(color_for(ColorScheme::Linear, IterationResult::Bounded), rgb(0, 0, 0));
    assert_eq!(color_for(ColorScheme::Linear, IterationResult::Escaped(0)), rgb(0, 0, 255));
    assert_eq!(color_for(ColorScheme::Linear, IterationResult::Escaped(1)), rgb(3, 0, 252));
    assert_eq!(color_for(ColorScheme::Linear, IterationResult::Escaped(2)), rgb(5, 0, 250));
    // 25.5 rounds up.
    assert_eq!(color_for(ColorScheme::Linear, IterationResult::Escaped(10)), rgb(26, 0, 229));
    assert_eq!(color_for(ColorScheme::Linear, IterationResult::Escaped(50)), rgb(128, 0, 127));
    assert_eq!(color_for(ColorScheme::Linear, IterationResult::Escaped(99)), rgb(252, 0, 3));
}

#[test]
fn spectrum_scheme_values() {
    assert_eq!(color_for(ColorScheme::Spectrum, IterationResult::Bounded), rgb(0, 0, 0));
    // Hue 360 falls in no sector.
    assert_eq!(color_for(ColorScheme::Spectrum, IterationResult::Escaped(0)), rgb(0, 0, 0));
    // Hue 356.4: sector 5, X = 0.06.
    assert_eq!(color_for(ColorScheme::Spectrum, IterationResult::Escaped(1)), rgb(255, 0, 15));
    // Hue 352.8: X = 0.12.
    assert_eq!(color_for(ColorScheme::Spectrum, IterationResult::Escaped(2)), rgb(255, 0, 31));
    // Hue 180: start of sector 3.
    assert_eq!(color_for(ColorScheme::Spectrum, IterationResult::Escaped(50)), rgb(0, 255, 255));
    // Hue 54: sector 0, X = 0.9, 229.5 rounds up.
    assert_eq!(color_for(ColorScheme::Spectrum, IterationResult::Escaped(85)), rgb(255, 230, 0));
    // Hue 3.6: sector 0, X = 0.06.
    assert_eq!(color_for(ColorScheme::Spectrum, IterationResult::Escaped(99)), rgb(255, 15, 0));
}

#[test]
fn color_is_a_function_of_the_result() {
    for scheme in [ColorScheme::Linear, ColorScheme::Spectrum] {
        for n in 0..MAX_ITER {
            let r = IterationResult::Escaped(n);
            assert_eq!(color_for(scheme, r), color_for(scheme, r));
        }
        assert_eq!(color_for(scheme, IterationResult::Bounded), color_for(scheme, IterationResult::Bounded));
    }
}

#[test]
fn hue_wheel_sectors() {
    assert_eq!(hue_to_rgb(0, 6), rgb(255, 0, 0));
    assert_eq!(hue_to_rgb(1, 6), rgb(255, 255, 0));
    assert_eq!(hue_to_rgb(2, 6), rgb(0, 255, 0));
    assert_eq!(hue_to_rgb(3, 6), rgb(0, 255, 255));
    assert_eq!(hue_to_rgb(4, 6), rgb(0, 0, 255));
    assert_eq!(hue_to_rgb(5, 6), rgb(255, 0, 255));
    assert_eq!(hue_to_rgb(6, 6), rgb(0, 0, 0));
    // Hue 30: half way through sector 0.
    assert_eq!(hue_to_rgb(1, 12), rgb(255, 128, 0));
    // Hue 270: half way through sector 4.
    assert_eq!(hue_to_rgb(9, 12), rgb(128, 0, 255));
}

#[test]
fn two_by_two_frame() {
    let center = (-0.5, 0.0);
    let scale = 3.0;
    assert_eq!(to_plane(0, 0, 2, 2, center, scale), (-2.0, -1.5));
    assert_eq!(to_plane(1, 0, 2, 2, center, scale), (-0.5, -1.5));
    assert_eq!(to_plane(0, 1, 2, 2, center, scale), (-2.0, 0.0));
    assert_eq!(to_plane(1, 1, 2, 2, center, scale), (-0.5, 0.0));
    let eval = |x: usize, y: usize| evaluate(to_plane(x, y, 2, 2, center, scale));
    assert_eq!(eval(0, 0), IterationResult::Escaped(1));
    assert_eq!(eval(1, 0), IterationResult::Escaped(2));
    assert_eq!(eval(0, 1), IterationResult::Escaped(1));
    assert_eq!(eval(1, 1), IterationResult::Bounded);
    let frame = render(2, 2, ColorScheme::Spectrum, eval);
    assert_eq!((frame.width, frame.height), (2, 2));
    assert_eq!(frame.pixels, vec![rgb(255, 0, 15), rgb(255, 0, 31), rgb(255, 0, 15), rgb(0, 0, 0)]);
    let frame = render(2, 2, ColorScheme::Linear, eval);
    assert_eq!(frame.pixels, vec![rgb(3, 0, 252), rgb(5, 0, 250), rgb(3, 0, 252), rgb(0, 0, 0)]);
    assert_eq!(frame.pixel(1, 0), rgb(5, 0, 250));
    assert_eq!(frame.pixel(1, 1), rgb(0, 0, 0));
}

#[test]
fn frame_is_row_major() {
    let frame = render(3, 2, ColorScheme::Linear, |x: usize, y: usize| {
        IterationResult::Escaped((10 * x + 50 * y) as u32)
    });
    assert_eq!(frame.pixels.len(), 6);
    let expected: Vec<Rgb> = [0u32, 10, 20, 50, 60, 70]
        .iter()
        .map(|n| color_for(ColorScheme::Linear, IterationResult::Escaped(*n)))
        .collect();
    assert_eq!(frame.pixels, expected);
    assert_eq!(frame.pixel(2, 1), rgb(179, 0, 76));
}

#[test]
fn single_pixel_frame() {
    let frame = render(1, 1, ColorScheme::Spectrum, |x: usize, y: usize| {
        evaluate(to_plane(x, y, 1, 1, (-0.5, 0.0), 3.0))
    });
    // The only pixel maps to (-2.0, -1.5).
    assert_eq!(frame.pixels, vec![rgb(255, 0, 15)]);
}
