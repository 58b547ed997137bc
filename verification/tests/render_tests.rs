use mandelbrot::colors::{color_gen, Rgb};
use mandelbrot::cplex::{add_c, mandel, pow2, sq, Complex, SCALE};
use mandelbrot::render::{
    evaluate, mandel_brot, normalize, normal_gen, power_of_two, MandelBrotSettings, RenderError,
    ESCAPE_SQ,
};

fn black() -> Rgb {
    Rgb { r: 0, g: 0, b: 0 }
}

fn settings(width: u32, height: u32, budget: usize) -> MandelBrotSettings {
    // the unshifted Mandelbrot rectangle [-2, 1] x [1, -1]
    MandelBrotSettings {
        width,
        height,
        x1: -2 * SCALE,
        x2: SCALE,
        y1: SCALE,
        y2: -SCALE,
        budget,
        speed: 5,
    }
}

#[test]
fn sq_is_the_squared_magnitude() {
    assert_eq!(sq(&Complex { re: 2 * SCALE, im: 0 }), ESCAPE_SQ);
    assert_eq!(sq(&Complex { re: 3, im: 4 }), 25);
    assert_eq!(sq(&Complex { re: -3, im: 4 }), 25);
}

#[test]
fn add_c_translates_componentwise() {
    let mut a = Complex { re: 1, im: 2 };
    add_c(&mut a, &Complex { re: 3, im: -4 });
    assert_eq!(a, Complex { re: 4, im: -2 });
}

#[test]
fn pow2_squares_in_place() {
    let mut a = Complex { re: SCALE, im: SCALE };
    pow2(&mut a);
    assert_eq!(a, Complex { re: 0, im: 2 * SCALE });
}

#[test]
fn mandel_is_square_then_translate() {
    let mut z = Complex { re: 2 * SCALE, im: 0 };
    let c = Complex { re: 2 * SCALE, im: 0 };
    mandel(&mut z, &c);
    assert_eq!(z, Complex { re: 6 * SCALE, im: 0 });

    let mut z2 = Complex { re: SCALE, im: SCALE };
    mandel(&mut z2, &Complex { re: 5, im: -7 });
    assert_eq!(z2, Complex { re: 5, im: 2 * SCALE - 7 });
}

#[test]
fn normalize_hits_the_range_ends_exactly() {
    assert_eq!(normalize(10, 10, 20, 0, 100), Ok(0));
    assert_eq!(normalize(20, 10, 20, 0, 100), Ok(100));
    assert_eq!(normalize(15, 10, 20, 0, 100), Ok(50));
}

#[test]
fn normalize_supports_descending_targets() {
    assert_eq!(normalize(0, 0, 100, 50, -50), Ok(50));
    assert_eq!(normalize(100, 0, 100, 50, -50), Ok(-50));
    assert_eq!(normalize(50, 0, 100, 50, -50), Ok(0));
}

#[test]
fn normalize_stays_inside_the_target_range() {
    for v in 0..=100i64 {
        let r: i64 = normalize(v, 0, 100, -37, 53).unwrap();
        assert!(-37 <= r && r <= 53);
        let d: i64 = normalize(v, 0, 100, 53, -37).unwrap();
        assert!(-37 <= d && d <= 53);
    }
}

#[test]
fn normalize_rejects_an_empty_source_range() {
    assert_eq!(normalize(5, 5, 5, 0, 100), Err(RenderError::Domain));
}

#[test]
fn power_of_two_doubles() {
    assert_eq!(power_of_two(0), 1);
    assert_eq!(power_of_two(3), 8);
    assert_eq!(power_of_two(4), 16);
    assert_eq!(power_of_two(5), 32);
    assert_eq!(power_of_two(24), SCALE as u64);
}

#[test]
fn from_center_zoom_halves_the_extent() {
    let s = MandelBrotSettings::from_center_zoom(640, 480, 0, 0, 1, 100, 5);
    assert_eq!(s.x1, -SCALE / 2);
    assert_eq!(s.x2, SCALE / 2);
    assert_eq!(s.y1, -SCALE / 2);
    assert_eq!(s.y2, SCALE / 2);
    assert_eq!((s.width, s.height), (640, 480));
    assert_eq!((s.budget, s.speed), (100, 5));
}

#[test]
fn from_center_zoom_exhausts_resolution() {
    // past the fractional resolution the rectangle degenerates and the
    // render refuses it
    let s = MandelBrotSettings::from_center_zoom(64, 64, 0, 0, 30, 100, 5);
    assert_eq!(s.x1, s.x2);
    assert_eq!(mandel_brot(&s), Err(RenderError::Parameter));
}

#[test]
fn evaluate_is_pure() {
    let pal = color_gen(5);
    let c = Complex { re: SCALE / 4, im: SCALE / 3 };
    let first = evaluate(c, 500, &pal);
    let second = evaluate(c, 500, &pal);
    assert_eq!(first, second);
}

#[test]
fn origin_never_escapes() {
    let pal = color_gen(5);
    for budget in [1usize, 2, 50, 500] {
        assert_eq!(evaluate(Complex { re: 0, im: 0 }, budget, &pal), black());
    }
}

#[test]
fn two_escapes_at_step_two() {
    let pal = color_gen(5);
    let c = Complex { re: 2 * SCALE, im: 0 };
    assert_eq!(evaluate(c, 500, &pal), pal[2]);
    // with the budget exhausted before the escape step, the point counts
    // as bounded
    assert_eq!(evaluate(c, 2, &pal), black());
}

#[test]
fn conjugate_points_get_the_same_colour() {
    let pal = color_gen(5);
    let samples = [
        (SCALE / 4, SCALE / 2),
        (-SCALE, SCALE / 3),
        (-3 * SCALE / 2, SCALE / 5),
        (SCALE / 3, SCALE),
    ];
    for (re, im) in samples {
        let above = evaluate(Complex { re, im }, 100, &pal);
        let below = evaluate(Complex { re, im: -im }, 100, &pal);
        assert_eq!(above, below);
    }
}

#[test]
fn render_fills_the_whole_grid() {
    let data = mandel_brot(&settings(10, 10, 50)).unwrap();
    assert_eq!(data.len(), 100);
}

#[test]
fn render_matches_the_evaluator_cell_by_cell() {
    let s = settings(10, 10, 50);
    let data = mandel_brot(&s).unwrap();
    let pal = color_gen(5);
    let (xs, ys) = normal_gen(&s);
    for y in 0..10usize {
        for x in 0..10usize {
            let c = Complex { re: xs[x], im: ys[y] };
            assert_eq!(data[y * 10 + x], evaluate(c, 50, &pal));
        }
    }
}

#[test]
fn render_rejects_bad_parameters() {
    let mut s = settings(10, 10, 50);
    s.width = 0;
    assert_eq!(mandel_brot(&s), Err(RenderError::Parameter));
    let mut s = settings(10, 10, 50);
    s.height = 0;
    assert_eq!(mandel_brot(&s), Err(RenderError::Parameter));
    let mut s = settings(10, 10, 50);
    s.x1 = s.x2;
    assert_eq!(mandel_brot(&s), Err(RenderError::Parameter));
    let mut s = settings(10, 10, 50);
    s.y2 = s.y1;
    assert_eq!(mandel_brot(&s), Err(RenderError::Parameter));
    let s = settings(10, 10, 0);
    assert_eq!(mandel_brot(&s), Err(RenderError::Parameter));
}

#[test]
fn render_interior_and_exterior_points() {
    // 100 x 100 over [-2, 1] x [1, -1] with budget 50
    let data = mandel_brot(&settings(100, 100, 50)).unwrap();
    assert_eq!(data.len(), 10000);
    // the pixel nearest plane coordinate (-1, 0) sits inside the set: the
    // bounded sentinel
    assert_eq!(data[50 * 100 + 33], black());
    // the pixel nearest (1, 1) is far outside and escapes within a few
    // steps: a palette colour, not the sentinel
    assert_ne!(data[99], black());
}
