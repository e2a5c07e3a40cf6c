use stickwire::axis::AXIS_ONE;
use stickwire::gauge::render;

/// Convert a float deflection in [-1.0, 1.0] to the fixed-point form the
/// library works in.
fn to_fixed(v: f32) -> i64 {
    (v as f64 * AXIS_ONE as f64).round() as i64
}

#[test]
fn centered_gauge_is_blank() {
    assert_eq!(render(to_fixed(0.0), 40), format!("[{}|{}]", " ".repeat(20), " ".repeat(20)));
}

#[test]
fn full_right_deflection_fills_right_half() {
    assert_eq!(render(to_fixed(1.0), 40), format!("[{}|{}]", " ".repeat(20), "=".repeat(20)));
}

#[test]
fn full_left_deflection_fills_left_half() {
    assert_eq!(render(to_fixed(-1.0), 40), format!("[{}|{}]", "=".repeat(20), " ".repeat(20)));
}

#[test]
fn left_fill_grows_toward_the_marker() {
    // Half deflection left: ten filled cells sit against the marker, the
    // rest of the left half stays blank.
    let s = render(to_fixed(-0.5), 40);
    assert_eq!(s, format!("[{}{}|{}]", " ".repeat(10), "=".repeat(10), " ".repeat(20)));
}

#[test]
fn right_fill_grows_from_the_marker() {
    let s = render(to_fixed(0.5), 40);
    assert_eq!(s, format!("[{}|{}{}]", " ".repeat(20), "=".repeat(10), " ".repeat(10)));
}

#[test]
fn gauge_width_is_constant_across_inputs() {
    for raw in [-5.0f32, -1.0, -0.3, 0.0, 0.1, 0.77, 1.0, 9.5] {
        assert_eq!(render(to_fixed(raw), 40).chars().count(), 43);
        assert_eq!(render(to_fixed(raw), 7).chars().count(), 9);
        assert_eq!(render(to_fixed(raw), 0).chars().count(), 3);
    }
}

#[test]
fn noisy_readings_render_like_full_deflection() {
    assert_eq!(render(to_fixed(3.25), 40), render(to_fixed(1.0), 40));
    assert_eq!(render(i64::MIN, 40), render(-AXIS_ONE, 40));
}

#[test]
fn fill_rounds_to_nearest_cell() {
    // 0.26 of 20 cells is 5.2 cells: rounds down to 5.
    let s = render(to_fixed(0.26), 40);
    assert_eq!(s, format!("[{}|{}{}]", " ".repeat(20), "=".repeat(5), " ".repeat(15)));
    // 0.28 of 20 cells is 5.6 cells: rounds up to 6.
    let s = render(to_fixed(0.28), 40);
    assert_eq!(s, format!("[{}|{}{}]", " ".repeat(20), "=".repeat(6), " ".repeat(14)));
}
