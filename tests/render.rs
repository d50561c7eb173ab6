use mandelbrot::config::{ConfigError, RenderConfig};
use mandelbrot::escape::{escape_time, EscapeResult};
use mandelbrot::glow::{brightness, intensity};
use mandelbrot::partition::assigned_rows;
use mandelbrot::point::{infinite, ComplexPoint, ONE};
use mandelbrot::render::{assemble, compute_pixel, mandelbrotrow, render};

fn small_config(threads: usize) -> RenderConfig {
    RenderConfig::new(-2 * ONE, ONE, -2 * ONE, 2 * ONE, 8, 8, 50, 50, threads).unwrap()
}

fn point(re: i64, im: i64) -> ComplexPoint {
    ComplexPoint { re, im }
}

#[test]
fn center_pixel_is_in_set() {
    let cfg = small_config(1);
    let c = cfg.pixel_point(4, 4);
    assert_eq!(c, point(-ONE / 2, 0));
    let e = escape_time(c, cfg.iterations);
    assert!(!e.escaped);
    assert_eq!(compute_pixel(&cfg, 4, 4), 0);
}

#[test]
fn corner_pixel_escapes_early() {
    let cfg = small_config(1);
    let c = cfg.pixel_point(0, 0);
    assert_eq!(c, point(-2 * ONE, -2 * ONE));
    let e = escape_time(c, cfg.iterations);
    assert_eq!(e, EscapeResult { escaped: true, iterations: 1 });
    // floor(255 * sqrt(1 / 50))
    assert_eq!(compute_pixel(&cfg, 0, 0), 36);
    let image = render(&cfg);
    assert_eq!(image.len(), 64);
    assert_eq!(image[0], 36);
    assert_eq!(image[4 * 8 + 4], 0);
}

#[test]
fn origin_never_escapes() {
    for budget in [1u32, 2, 50, 1000] {
        assert_eq!(escape_time(point(0, 0), budget), EscapeResult { escaped: false, iterations: 0 });
    }
}

#[test]
fn two_escapes_at_second_iterate() {
    assert_eq!(escape_time(point(2 * ONE, 0), 1000), EscapeResult { escaped: true, iterations: 2 });
    assert_eq!(escape_time(point(2 * ONE, 0), 1), EscapeResult { escaped: false, iterations: 0 });
}

#[test]
fn far_points_escape_quickly() {
    let cases = [
        point(3 * ONE, 0),
        point(0, 2 * ONE),
        point(0, -2 * ONE),
        point(-2 * ONE, -2 * ONE),
        point(ONE + ONE / 2, ONE + ONE / 2),
        point(i64::MAX, i64::MIN),
    ];
    for c in cases {
        let e = escape_time(c, 100);
        assert!(e.escaped);
        assert!(e.iterations >= 1 && e.iterations <= 2);
    }
    assert_eq!(escape_time(point(3 * ONE, 0), 1).iterations, 1);
}

#[test]
fn minus_two_stays_on_the_radius() {
    assert_eq!(escape_time(point(-2 * ONE, 0), 1000), EscapeResult { escaped: false, iterations: 0 });
}

#[test]
fn zero_budget_never_escapes() {
    assert_eq!(escape_time(point(3 * ONE, 0), 0), EscapeResult { escaped: false, iterations: 0 });
}

#[test]
fn slow_escape_counts_iterations() {
    // c = 0.26 escapes slowly past the cusp at 0.25.
    let e = escape_time(point(ONE / 4 + ONE / 100, 0), 1000);
    assert!(e.escaped);
    assert!(e.iterations > 10);
}

#[test]
fn infinite_compares_squared_magnitude() {
    assert!(!infinite(2 * ONE, 0));
    assert!(infinite(2 * ONE, 1));
    assert!(infinite(-2 * ONE - 1, 0));
    assert!(!infinite(ONE, ONE));
    assert!(infinite(i64::MIN, 0));
}

#[test]
fn brightness_curve_values() {
    assert_eq!(brightness(0, 5), 0);
    assert_eq!(brightness(1, 300), 15);
    assert_eq!(brightness(75, 300), 128);
    // 255 * sqrt(4 / 9) = 170 exactly; 255 * sqrt(1 / 8) = 90.16
    assert_eq!(brightness(4, 9), 170);
    assert_eq!(brightness(1, 8), 90);
    // 255 * sqrt(1 / 2) = 180.31; 255 * sqrt(1 / 3) = 147.22; 255 * sqrt(2 / 3) = 208.2
    assert_eq!(brightness(1, 2), 180);
    assert_eq!(brightness(1, 3), 147);
    assert_eq!(brightness(2, 3), 208);
    // 255 * sqrt(1 / 30) = 46.56 rounds up
    assert_eq!(brightness(1, 30), 47);
    assert_eq!(brightness(300, 300), 255);
    assert_eq!(brightness(1000, 300), 255);
    assert_eq!(brightness(u32::MAX, 1), 255);
    assert_eq!(brightness(1, 50), 36);
}

#[test]
fn brightness_is_monotonic() {
    let mut last = 0u8;
    for k in 1..400u32 {
        let b = brightness(k, 300);
        assert!(b >= last);
        last = b;
    }
}

#[test]
fn members_are_black() {
    assert_eq!(intensity(EscapeResult { escaped: false, iterations: 0 }, 300), 0);
    assert_eq!(intensity(EscapeResult { escaped: true, iterations: 75 }, 300), 128);
}

#[test]
fn interleaved_rows() {
    assert_eq!(assigned_rows(10, 3, 0), vec![0, 3, 6, 9]);
    assert_eq!(assigned_rows(10, 3, 1), vec![1, 4, 7]);
    assert_eq!(assigned_rows(10, 3, 2), vec![2, 5, 8]);
    assert_eq!(assigned_rows(2, 4, 3), Vec::<usize>::new());
    assert_eq!(assigned_rows(0, 1, 0), Vec::<usize>::new());
}

#[test]
fn partition_covers_every_row_once() {
    for h in 0..20usize {
        for t in 1..7usize {
            let mut seen = vec![0u32; h];
            let mut sizes = Vec::new();
            for k in 0..t {
                let rows = assigned_rows(h, t, k);
                sizes.push(rows.len());
                for y in rows {
                    seen[y] += 1;
                }
            }
            assert!(seen.iter().all(|&n| n == 1));
            let max = *sizes.iter().max().unwrap();
            let min = *sizes.iter().min().unwrap();
            assert!(max - min <= 1);
            if h % t == 0 {
                assert_eq!(min, h / t);
            }
        }
    }
}

#[test]
fn worker_rows_follow_stride() {
    let cfg = RenderConfig::new(-2 * ONE, ONE, -2 * ONE, 2 * ONE, 5, 8, 50, 50, 3).unwrap();
    let rows = mandelbrotrow(&cfg, 2);
    assert_eq!(rows.len(), 2);
    for (j, row) in rows.iter().enumerate() {
        assert_eq!(row.len(), 5);
        for x in 0..5 {
            assert_eq!(row[x], compute_pixel(&cfg, x, 2 + 3 * j));
        }
    }
    assert_eq!(mandelbrotrow(&cfg, 0).len(), 3);
}

#[test]
fn assembly_matches_sequential_render() {
    let cfg = RenderConfig::new(-2 * ONE, ONE, -2 * ONE, 2 * ONE, 9, 7, 60, 50, 3).unwrap();
    let parts: Vec<Vec<Vec<u8>>> = (0..3).map(|k| mandelbrotrow(&cfg, k)).collect();
    let image = assemble(&cfg, &parts);
    assert_eq!(image, render(&cfg));
    for y in 0..7 {
        for x in 0..9 {
            assert_eq!(image[y * 9 + x], compute_pixel(&cfg, x, y));
        }
    }
}

#[test]
fn missing_rows_stay_black() {
    let cfg = RenderConfig::new(-2 * ONE, ONE, -2 * ONE, 2 * ONE, 2, 3, 50, 50, 2).unwrap();
    let parts = vec![vec![vec![7u8, 8u8]]];
    let image = assemble(&cfg, &parts);
    assert_eq!(image, vec![7, 8, 0, 0, 0, 0]);
}

#[test]
fn render_is_deterministic() {
    let a = render(&small_config(4));
    let b = render(&small_config(4));
    assert_eq!(a, b);
    assert_eq!(a, render(&small_config(1)));
    assert_eq!(a, render(&small_config(3)));
}

#[test]
fn config_errors() {
    let ok = |w: usize, h: usize, t: usize| RenderConfig::new(-2 * ONE, ONE, -ONE, ONE, w, h, 10, 10, t);
    assert_eq!(ok(0, 4, 1).unwrap_err(), ConfigError::EmptyImage);
    assert_eq!(ok(4, 0, 1).unwrap_err(), ConfigError::EmptyImage);
    assert_eq!(ok(usize::MAX, 2, 1).unwrap_err(), ConfigError::ImageTooLarge);
    assert_eq!(ok(4, 4, 0).unwrap_err(), ConfigError::NoWorkers);
    assert_eq!(
        RenderConfig::new(ONE, ONE, -ONE, ONE, 4, 4, 10, 10, 1).unwrap_err(),
        ConfigError::EmptyRealRange
    );
    assert_eq!(
        RenderConfig::new(-ONE, ONE, ONE, -ONE, 4, 4, 10, 10, 1).unwrap_err(),
        ConfigError::EmptyImaginaryRange
    );
    assert_eq!(
        RenderConfig::new(-ONE, ONE, -ONE, ONE, 4, 4, 0, 10, 1).unwrap_err(),
        ConfigError::ZeroIterations
    );
    assert_eq!(
        RenderConfig::new(-ONE, ONE, -ONE, ONE, 4, 4, 10, 0, 1).unwrap_err(),
        ConfigError::ZeroColorFactor
    );
    let cfg = ok(4, 4, 2).unwrap();
    assert_eq!(cfg.rstep, (3 * ONE / 4) as i128);
    assert_eq!(cfg.istep, (ONE / 2) as i128);
}

#[test]
fn centered_keeps_aspect_ratio() {
    let cfg = RenderConfig::centered(-2 * ONE, 2 * ONE, 0, 8, 4, 10, 10, 2).unwrap();
    assert_eq!(cfg.imin, -ONE);
    assert_eq!(cfg.imax, ONE);
    let cfg = RenderConfig::centered(-2 * ONE, 2 * ONE, ONE, 4, 4, 10, 10, 2).unwrap();
    assert_eq!((cfg.imin, cfg.imax), (-ONE, 3 * ONE));
    assert_eq!(
        RenderConfig::centered(-2 * ONE, 2 * ONE, 0, 0, 4, 10, 10, 2).unwrap_err(),
        ConfigError::EmptyImage
    );
    assert_eq!(
        RenderConfig::centered(ONE, ONE, 0, 4, 4, 10, 10, 2).unwrap_err(),
        ConfigError::EmptyRealRange
    );
    assert_eq!(
        RenderConfig::centered(i64::MIN, i64::MAX, i64::MAX, 1, 1, 10, 10, 2).unwrap_err(),
        ConfigError::ImaginaryOutOfRange
    );
    assert_eq!(
        RenderConfig::centered(0, 1, 0, 4, 1, 10, 10, 2).unwrap_err(),
        ConfigError::EmptyImaginaryRange
    );
}

#[test]
fn conjugate_points_share_verdict() {
    let cases = [
        (-ONE / 2 - 7, ONE / 3 + 11),
        (ONE / 4 + ONE / 100, 12345),
        (-ONE - ONE / 5, ONE / 7),
        (-3 * ONE / 4, ONE / 10 + 3),
        (ONE / 3, -ONE / 2 - 1),
    ];
    for (re, im) in cases {
        assert_eq!(escape_time(point(re, im), 500), escape_time(point(re, -im), 500));
    }
}

#[test]
fn first_pixel_of_default_view_rounds_up() {
    // the view 400 x 400 from -1.8 to 0.8, centered on the real axis
    let rmin = -483183821;
    let rmax = 214748365;
    let cfg = RenderConfig::centered(rmin, rmax, 0, 400, 400, 1000, 300, 8).unwrap();
    let e = escape_time(cfg.pixel_point(0, 0), cfg.iterations);
    assert_eq!(e, EscapeResult { escaped: true, iterations: 1 });
    // 255 * sqrt(1 / 300) = 14.72
    assert_eq!(compute_pixel(&cfg, 0, 0), 15);
}
