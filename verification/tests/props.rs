//! Behavior of the escape computation, the viewport transforms and the
//! gradient table on concrete values.

use julia_fractal::color::{clamp_channel, Color, ColorEncode};
use julia_fractal::fixed::{Fixed, ONE};
use julia_fractal::fractal::{Bounds, Complex, JuliaFractal};
use julia_fractal::gradient::GradientTable;
use julia_fractal::gradient::get_color_gradient;

fn half() -> Fixed {
    Fixed::from_ratio(1, 2)
}

fn square_viewport(num: i64, den: i64) -> Bounds {
    Bounds::new(
        Fixed::from_ratio(-num, den),
        Fixed::from_ratio(num, den),
        Fixed::from_int(1),
    )
}

#[test]
fn origin_never_escapes() {
    let bounds = square_viewport(2, 1);
    let julia = JuliaFractal::new(bounds);
    for max_iterations in [1u32, 2, 5, 60, 100] {
        assert_eq!(julia.get(half(), half(), max_iterations), max_iterations);
    }
}

#[test]
fn escape_count_monotone_in_budget() {
    // The far-left edge of the scenario viewport escapes after one step;
    // the count never decreases as the budget grows, and once it came in
    // under budget it stays put.
    let z0 = Complex { re: Fixed::from_ratio(-17, 10), im: Fixed::from_raw(0) };
    let add = Complex { re: Fixed::from_raw(0), im: Fixed::from_raw(0) };
    let mut last = 0u32;
    for max_iterations in 0u32..20 {
        let n = julia_fractal::fractal::escape_iterations(z0, add, max_iterations);
        assert!(n >= last);
        last = n;
    }
    let settled = julia_fractal::fractal::escape_iterations(z0, add, 5);
    assert!(settled < 5);
    assert_eq!(julia_fractal::fractal::escape_iterations(z0, add, 60), settled);
}

#[test]
fn encoding_idempotent_under_reclamping() {
    for (r, g, b) in [(-40i64, 300i64, 128i64), (0, 255, 1), (999, -1, 77)] {
        let c = Color {
            red: clamp_channel(r),
            green: clamp_channel(g),
            blue: clamp_channel(b),
        };
        let p = c.encode();
        let decoded = Color {
            red: ((p >> 16) & 0xFF) as u8,
            green: ((p >> 8) & 0xFF) as u8,
            blue: (p & 0xFF) as u8,
        };
        let again = Color {
            red: clamp_channel(decoded.red as i64),
            green: clamp_channel(decoded.green as i64),
            blue: clamp_channel(decoded.blue as i64),
        };
        assert_eq!(again.encode(), p);
    }
}

#[test]
fn lookup_build_deterministic() {
    let stops = get_color_gradient();
    let a = GradientTable::build(&stops, 37);
    let b = GradientTable::build(&stops, 37);
    assert_eq!(a, b);
    assert_eq!(a[0], 37);
}

#[test]
fn zoom_roundtrip_within_tolerance() {
    let mut bounds = square_viewport(2, 1);
    let cx = Fixed::from_ratio(1, 4);
    let cy = Fixed::from_ratio(1, 4);
    let f = Fixed::from_ratio(1, 10);
    let back = Fixed::from_raw(-f.raw);
    bounds.zoom(cx, cy, f);
    bounds.zoom(cx, cy, back);
    let span = 4i64 * ONE;
    let tolerance = span * f.raw / ONE * f.raw / ONE + 2;
    for (now, before) in [
        (bounds.x0.raw, -2 * ONE),
        (bounds.x1.raw, 2 * ONE),
        (bounds.y0.raw, -2 * ONE),
        (bounds.y1.raw, 2 * ONE),
    ] {
        assert!((now - before).abs() <= tolerance);
    }
    // The residue is deterministic; these are the exact raw corners.
    assert_eq!(bounds.x0.raw, -33386659);
    assert_eq!(bounds.x1.raw, 33051115);
}

#[test]
fn zoom_out_then_in_within_tolerance() {
    let mut bounds = square_viewport(2, 1);
    let cx = Fixed::from_ratio(1, 4);
    let cy = Fixed::from_ratio(1, 4);
    let f = Fixed::from_ratio(1, 10);
    let back = Fixed::from_raw(-f.raw);
    bounds.zoom(cx, cy, back);
    bounds.zoom(cx, cy, f);
    // The span after zooming out is larger, so measure the tolerance
    // against it.
    let span = 4i64 * ONE + 4 * ONE * f.raw / ONE;
    let tolerance = span * f.raw / ONE * f.raw / ONE + 2;
    for (now, before) in [
        (bounds.x0.raw, -2 * ONE),
        (bounds.x1.raw, 2 * ONE),
        (bounds.y0.raw, -2 * ONE),
        (bounds.y1.raw, 2 * ONE),
    ] {
        assert!((now - before).abs() <= tolerance);
    }
}

#[test]
fn viewport_scenario_center_and_edge() {
    let bounds = square_viewport(17, 10);
    let julia = JuliaFractal::new(bounds);
    assert_eq!(julia.get(half(), half(), 60), 60);
    let edge = julia.get(Fixed::from_raw(0), half(), 60);
    assert!(edge > 0);
    assert!(edge < 60);
    // Regression baseline for this implementation: -1.7 squares past the
    // escape circle after one completed step.
    assert_eq!(edge, 1);
}

#[test]
fn lookup_scenario_budget_five() {
    let stops = get_color_gradient();
    let table = GradientTable::build(&stops, 5);
    assert_eq!(table.len(), 6);
    assert_eq!(table[0], 5);
    assert_eq!(table[5], 0);
    assert_eq!(table, vec![5, 0xFFFF0000, 0xFF807F7F, 0xFF00FFFF, 0xFF5580FF, 0]);
}
