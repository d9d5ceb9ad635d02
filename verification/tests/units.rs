//! The renderers, the export conversion and the smaller pieces.

use julia_fractal::color::{Color, ColorEncode};
use julia_fractal::fixed::{Fixed, ONE};
use julia_fractal::fractal::{Bounds, JuliaFractal};
use julia_fractal::gradient::{get_color_gradient, gradient_color, GradientTable};
use julia_fractal::renderer::{index_buffer, pixel_color, to_rgb_bytes, CpuRenderer, Renderer};

fn scenario_julia() -> JuliaFractal {
    let bounds = Bounds::new(
        Fixed::from_ratio(-17, 10),
        Fixed::from_ratio(17, 10),
        Fixed::from_int(1),
    );
    JuliaFractal::new(bounds)
}

#[test]
fn fixed_constructors() {
    assert_eq!(Fixed::from_int(3).raw, 3 * ONE);
    assert_eq!(Fixed::from_ratio(1, 2).raw, ONE / 2);
    assert_eq!(Fixed::from_ratio(-17, 10).raw, -28521267);
    assert_eq!(Fixed::zero().raw, 0);
}

#[test]
fn encode_packs_argb() {
    assert_eq!(Color { red: 255, green: 0, blue: 0 }.encode(), 0xFFFF0000);
    assert_eq!(Color { red: 1, green: 2, blue: 3 }.encode(), 0xFF010203);
    assert_eq!(Color { red: 0, green: 0, blue: 0 }.encode(), 0xFF000000);
}

#[test]
fn gradient_interpolates_exactly() {
    let stops = get_color_gradient();
    assert_eq!(gradient_color(&stops, 0, 1), Color { red: 255, green: 0, blue: 0 });
    assert_eq!(gradient_color(&stops, 1, 2), Color { red: 0, green: 255, blue: 255 });
    assert_eq!(gradient_color(&stops, 1, 4), Color { red: 128, green: 127, blue: 127 });
    assert_eq!(gradient_color(&stops, 3, 4), Color { red: 85, green: 128, blue: 255 });
    // Position 1 lands exactly on the last stop.
    assert_eq!(gradient_color(&stops, 4, 4), Color { red: 170, green: 0, blue: 255 });
}

#[test]
fn lookup_cycles_for_large_budgets() {
    let stops = get_color_gradient();
    let table = GradientTable::build(&stops, 41);
    assert_eq!(table.len(), 42);
    assert_eq!(table[0], 41);
    assert_eq!(table[41], 0);
    // Slot j carries the color for progress (j - 1) % 40 over 40.
    assert_eq!(table[1], 0xFFFF0000);
    assert_eq!(table[21], 0xFF00FFFF);
    assert_eq!(table[40], Color { red: 161, green: 13, blue: 255 }.encode());
    // One full cycle later the ramp starts over.
    let longer = GradientTable::build(&stops, 90);
    assert_eq!(longer[41], longer[1]);
}

#[test]
fn lookup_smallest_budgets() {
    let stops = get_color_gradient();
    // A budget of one leaves only the header and the sentinel.
    assert_eq!(GradientTable::build(&stops, 1), vec![1, 0]);
    // A budget of two has one colored slot, pinned to the ramp start.
    assert_eq!(GradientTable::build(&stops, 2), vec![2, 0xFFFF0000, 0]);
}

#[test]
fn render_with_budget_of_one() {
    let julia = scenario_julia();
    let mut renderer = CpuRenderer::new();
    let mut buffer: Vec<u32> = vec![7; 4];
    renderer.render(&julia, 1, &mut buffer, 2, 2);
    // Only the top-left corner starts outside the escape circle; every
    // other pixel completes the single step and gets the sentinel.
    assert_eq!(buffer, vec![0xFFFF0000, 0, 0, 0]);
}

#[test]
fn gradient_table_rejects_degenerate_input() {
    let stops = get_color_gradient();
    assert!(GradientTable::new(stops.clone(), 0).is_none());
    assert!(GradientTable::new(stops.clone(), u32::MAX).is_none());
    assert!(GradientTable::new(vec![Color { red: 0, green: 0, blue: 0 }], 5).is_none());
    let table = GradientTable::new(stops, 5).unwrap();
    assert_eq!(table.lookup_buffer().len(), 6);
}

#[test]
fn gradient_table_rebuilds_in_full() {
    let stops = get_color_gradient();
    let mut table = GradientTable::new(stops, 5).unwrap();
    table.set_max_iterations(8);
    assert_eq!(table.lookup_buffer().len(), 9);
    assert_eq!(table.lookup_buffer()[0], 8);
    assert_eq!(table.lookup_buffer()[8], 0);
}

#[test]
fn parameter_follows_cursor_with_4x_magnification() {
    let mut julia = scenario_julia();
    julia.set_parameter_at_cursor(Fixed::from_ratio(3, 4), Fixed::from_ratio(1, 4));
    assert_eq!(julia.add.re.raw, ONE);
    assert_eq!(julia.add.im.raw, -ONE);
    // The parameter change leaves the viewport alone.
    assert_eq!(julia.bounds, scenario_julia().bounds);
}

#[test]
fn translate_roundtrip_is_exact() {
    let mut bounds = Bounds::new(Fixed::from_int(-2), Fixed::from_int(2), Fixed::from_int(1));
    let before = bounds;
    let cx = Fixed::from_ratio(1, 3);
    let cy = Fixed::from_ratio(1, 5);
    let dt = Fixed::from_ratio(1, 7);
    bounds.translate(cx, cy, dt);
    assert_ne!(bounds, before);
    bounds.translate(cx, cy, Fixed::from_raw(-dt.raw));
    assert_eq!(bounds, before);
}

#[test]
fn zoom_keeps_bounds_ordered() {
    let mut bounds = scenario_julia().bounds;
    for _ in 0..8 {
        bounds.zoom(Fixed::from_ratio(1, 3), Fixed::from_ratio(2, 3), Fixed::from_ratio(1, 8));
        assert!(bounds.x0.raw < bounds.x1.raw);
        assert!(bounds.y0.raw < bounds.y1.raw);
        assert!(bounds.check_in_range());
    }
}

#[test]
fn bounds_new_applies_aspect_ratio() {
    let bounds = Bounds::new(Fixed::from_int(-2), Fixed::from_int(2), Fixed::from_ratio(3, 2));
    assert_eq!(bounds.x0.raw, -3 * ONE);
    assert_eq!(bounds.x1.raw, 3 * ONE);
    assert_eq!(bounds.y0.raw, -2 * ONE);
    assert_eq!(bounds.y1.raw, 2 * ONE);
}

#[test]
fn render_fills_every_pixel() {
    let julia = scenario_julia();
    let mut renderer = CpuRenderer::new();
    let mut buffer: Vec<u32> = vec![123; 16];
    renderer.render(&julia, 5, &mut buffer, 4, 4);
    let expected: Vec<u32> = vec![
        0xFFFF0000, 0xFF807F7F, 0xFF807F7F, 0xFF807F7F,
        0xFF807F7F, 0xFF00FFFF, 0x00000000, 0xFF00FFFF,
        0xFF807F7F, 0x00000000, 0x00000000, 0x00000000,
        0xFF807F7F, 0xFF00FFFF, 0x00000000, 0xFF00FFFF,
    ];
    assert_eq!(buffer, expected);
    let stops = get_color_gradient();
    for i in 0..16 {
        assert_eq!(buffer[i], pixel_color(&julia, &stops, 5, 4, 4, i));
    }
}

#[test]
fn renderer_reports_its_name() {
    let renderer = CpuRenderer::new();
    assert_eq!(renderer.name(), "CPU Multi threaded");
}

#[test]
fn index_buffer_counts_up() {
    assert_eq!(index_buffer(5), vec![0, 1, 2, 3, 4]);
    assert_eq!(index_buffer(0), Vec::<u32>::new());
}

#[test]
fn rgb_bytes_drop_alpha() {
    let bytes = to_rgb_bytes(&vec![0xFFFF0000, 0xFF123456]);
    assert_eq!(bytes, vec![255, 0, 0, 0x12, 0x34, 0x56]);
    assert_eq!(to_rgb_bytes(&Vec::new()), Vec::<u8>::new());
}

#[test]
fn escape_with_zero_budget_counts_nothing() {
    let z0 = julia_fractal::fractal::Complex {
        re: Fixed::from_int(0),
        im: Fixed::from_int(0),
    };
    let add = julia_fractal::fractal::Complex {
        re: Fixed::from_int(0),
        im: Fixed::from_int(0),
    };
    assert_eq!(julia_fractal::fractal::escape_iterations(z0, add, 0), 0);
}
