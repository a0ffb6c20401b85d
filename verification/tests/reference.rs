//! Cross-checks of the fixed-point pipeline against the floating-point
//! crates that ordinarily compute the same quantities.

use fractal::complex::CPoint;
use fractal::escape::{escape_time, EscapeResult};
use fractal::color::{cubic_in_out, ease_out, hsl_to_rgb};
use fractal::fx::SCALE;
use num_complex::Complex;

const S: i64 = SCALE;
const SF: f64 = 4294967296.0;

fn float_escape(cx: f64, cy: f64, n: usize) -> Option<usize> {
    let c = Complex::new(cx, cy);
    let mut z = Complex::new(0.0, 0.0);
    for i in 0..n {
        if z.norm() > 2.0 {
            return Some(i);
        }
        z = z * z + c;
    }
    None
}

#[test]
fn escape_indices_match_float_reference_on_clear_points() {
    let cases = [(0.0, 0.0), (5.0, 0.0), (3.0, 4.0), (-3.0, 0.0), (0.0, 2.5)];
    for &(cx, cy) in cases.iter() {
        let ours = escape_time(
            CPoint { re: (cx * SF) as i64, im: (cy * SF) as i64 },
            2,
            50,
        );
        let theirs = float_escape(cx, cy, 50);
        match (ours, theirs) {
            (EscapeResult::Escaped(i), Some(j)) => assert_eq!(i, j),
            (EscapeResult::Bounded, None) => {}
            _ => panic!("escape outcomes disagree"),
        }
    }
}

#[test]
fn cubic_easing_matches_reference_curve() {
    for t in 0..=20 {
        let c = t * (S / 20);
        let ours = cubic_in_out(c) as f64 / SF;
        let theirs = simple_easing::cubic_in_out((c as f64 / SF) as f32) as f64;
        assert!((ours - theirs).abs() < 1e-3);
    }
}

#[test]
fn quadratic_out_matches_reference_curve() {
    for t in 0..=20 {
        let c = t * (S / 20);
        let ours = ease_out(c) as f64 / SF;
        let theirs = simple_easing::quad_out((c as f64 / SF) as f32) as f64;
        assert!((ours - theirs).abs() < 1e-3);
    }
}

#[test]
fn hsl_conversion_matches_reference_crate() {
    let s = 0.8;
    let l = 0.6;
    for deg in 0..12 {
        let h = (deg * 30) as f64;
        let ours = hsl_to_rgb((h * SF) as i64, (s * SF) as i64, (l * SF) as i64);
        let theirs = hsl::HSL { h, s, l }.to_rgb();
        assert!((ours.0 as i32 - theirs.0 as i32).abs() <= 2);
        assert!((ours.1 as i32 - theirs.1 as i32).abs() <= 2);
        assert!((ours.2 as i32 - theirs.2 as i32).abs() <= 2);
    }
}

#[test]
fn grey_hsl_matches_reference_crate() {
    for ll in [0.0, 0.25, 0.5, 0.75, 1.0] {
        let ours = hsl_to_rgb(0, 0, (ll * SF) as i64);
        let theirs = hsl::HSL { h: 0.0, s: 0.0, l: ll }.to_rgb();
        assert!((ours.0 as i32 - theirs.0 as i32).abs() <= 2);
        assert!((ours.1 as i32 - theirs.1 as i32).abs() <= 2);
        assert!((ours.2 as i32 - theirs.2 as i32).abs() <= 2);
    }
}
