use fractal::complex::CPoint;
use fractal::coords::{Viewport, scale_x, scale_y, map_point};
use fractal::escape::{escape_time, EscapeResult};
use fractal::color::{log2_fx, base_of, normalize, cubic_in_out, ease_out, hue_fx, hsl_to_rgb,
    color_of, Rgba, HALF};
use fractal::fx::SCALE;

const S: i64 = SCALE;

#[test]
fn origin_is_bounded() {
    let c = CPoint { re: 0, im: 0 };
    assert_eq!(escape_time(c, 2, 100), EscapeResult::Bounded);
}

#[test]
fn far_point_escapes_at_first_check_after_update() {
    // c = 5: z0 = 0 passes the check, z1 = 5 fails it at iteration 1.
    let c = CPoint { re: 5 * S, im: 0 };
    assert_eq!(escape_time(c, 2, 100), EscapeResult::Escaped(1));
}

#[test]
fn zero_budget_is_bounded() {
    let c = CPoint { re: 5 * S, im: 0 };
    assert_eq!(escape_time(c, 2, 0), EscapeResult::Bounded);
}

#[test]
fn budget_one_reports_no_index_at_or_above_one() {
    // With one iteration only z0 = 0 is examined, so nothing escapes.
    let far = CPoint { re: 5 * S, im: 0 };
    let origin = CPoint { re: 0, im: 0 };
    assert_eq!(escape_time(far, 2, 1), EscapeResult::Bounded);
    assert_eq!(escape_time(origin, 2, 1), EscapeResult::Bounded);
}

#[test]
fn cubic_power_orbit() {
    // c = 2: orbit 0, 2, 2^3 + 2 = 10; |2| is not above the threshold, |10| is.
    let c = CPoint { re: 2 * S, im: 0 };
    assert_eq!(escape_time(c, 3, 10), EscapeResult::Escaped(2));
}

#[test]
fn linear_power_orbit() {
    // power = 1: orbit 0, 1, 2, 3; |3| > 2 at iteration 3.
    let c = CPoint { re: S, im: 0 };
    assert_eq!(escape_time(c, 1, 10), EscapeResult::Escaped(3));
}

#[test]
fn escape_is_deterministic() {
    let c = CPoint { re: -S / 2, im: S / 3 };
    let a = escape_time(c, 2, 64);
    let b = escape_time(c, 2, 64);
    assert_eq!(a, b);
}

#[test]
fn first_pixel_maps_to_corner() {
    let vp = Viewport { left: -2 * S, right: S, top: -3 * S / 2, bottom: 3 * S / 2 };
    let sx = scale_x(&vp, 2);
    let sy = scale_y(&vp, 2);
    let c = map_point(&vp, 2, 2, sx, sy, 0, 0);
    assert_eq!(c.re, -2 * S);
    assert_eq!(c.im, -3 * S / 2);
}

#[test]
fn last_pixel_stays_short_of_far_edge() {
    let vp = Viewport { left: -2 * S, right: S, top: -3 * S / 2, bottom: 3 * S / 2 };
    let sx = scale_x(&vp, 2);
    let sy = scale_y(&vp, 2);
    assert_eq!(sx, 3 * S / 2);
    assert_eq!(sy, 3 * S / 2);
    let c = map_point(&vp, 2, 2, sx, sy, 1, 1);
    assert_eq!(c.re, vp.right - sx);
    assert_eq!(c.im, vp.bottom - sy);
}

#[test]
fn scale_truncates_toward_zero() {
    let vp = Viewport { left: 0, right: 10, top: 0, bottom: 10 };
    let sx = scale_x(&vp, 4);
    assert_eq!(sx, 2);
    let c = map_point(&vp, 4, 4, sx, sx, 3, 0);
    assert_eq!(c.re, 6);
}

#[test]
fn collapsed_axis_is_defined() {
    let vp = Viewport { left: 7, right: 7, top: -S, bottom: S };
    let sx = scale_x(&vp, 5);
    let sy = scale_y(&vp, 5);
    assert_eq!(sx, 0);
    for x in 0..5 {
        let c = map_point(&vp, 5, 5, sx, sy, x, 0);
        assert_eq!(c.re, 7);
    }
}

#[test]
fn log2_fixed_point_values() {
    assert_eq!(log2_fx(1), 0);
    assert_eq!(log2_fx(2), S);
    assert_eq!(log2_fx(4), 2 * S);
    // Within an octave the fraction interpolates linearly: log2(3) ~ 1.5.
    assert_eq!(log2_fx(3), S + S / 2);
}

#[test]
fn normalize_first_count_is_zero() {
    assert_eq!(normalize(0, 100, base_of(100)), 0);
}

#[test]
fn normalize_degenerate_budgets() {
    assert_eq!(normalize(0, 1, base_of(1)), 0);
    assert_eq!(normalize(0, 2, base_of(2)), 0);
    assert_eq!(normalize(1, 2, base_of(2)), S);
}

#[test]
fn normalize_full_ratio_is_one() {
    // i + 1 == n - 1, so the logarithm ratio is exactly one.
    assert_eq!(normalize(3, 5, base_of(5)), S);
}

#[test]
fn cubic_easing_values() {
    assert_eq!(cubic_in_out(0), 0);
    assert_eq!(cubic_in_out(S), S);
    assert_eq!(cubic_in_out(HALF), HALF);
    // 4 * (1/4)^3 = 1/16.
    assert_eq!(cubic_in_out(S / 4), S / 16);
}

#[test]
fn quadratic_out_easing_values() {
    assert_eq!(ease_out(0), 0);
    assert_eq!(ease_out(S), S);
    // 2 * 1/2 - 1/4 = 3/4.
    assert_eq!(ease_out(HALF), 3 * (S / 4));
}

#[test]
fn hue_wraps_one_turn() {
    assert_eq!(hue_fx(0, 0), 0);
    // 360 * (1/2 + 1/2) wraps to zero degrees.
    assert_eq!(hue_fx(HALF, HALF), 0);
    // 360 * 1/4 = 90 degrees.
    assert_eq!(hue_fx(0, S / 4), 90 * S);
}

#[test]
fn primary_hsl_colors() {
    assert_eq!(hsl_to_rgb(0, S, HALF), (255, 0, 0));
    assert_eq!(hsl_to_rgb(120 * S, S, HALF), (0, 255, 0));
    assert_eq!(hsl_to_rgb(240 * S, S, HALF), (0, 0, 255));
    assert_eq!(hsl_to_rgb(0, S, 0), (0, 0, 0));
    assert_eq!(hsl_to_rgb(0, S, S), (255, 255, 255));
}

#[test]
fn bounded_points_are_opaque_black() {
    let p = color_of(EscapeResult::Bounded, 10, base_of(10), HALF, S / 2);
    assert_eq!(p, Rgba { r: 0, g: 0, b: 0, a: 255 });
}

#[test]
fn escaped_color_is_opaque() {
    let p = color_of(EscapeResult::Escaped(3), 10, base_of(10), HALF, S / 2);
    assert_eq!(p.a, 255);
}

#[test]
fn normalize_is_monotone() {
    let b = base_of(100);
    let mut prev: i64 = -1;
    for i in 0..100 {
        let c = normalize(i, 100, b);
        assert!(c >= prev);
        prev = c;
    }
}
