use stickwire::axis::AXIS_ONE;
use stickwire::frame::{encode, AxisReading, END_MARKER, FRAME_LEN, START_0, START_1};

/// Convert a float deflection in [-1.0, 1.0] to the fixed-point form the
/// library works in.
fn to_fixed(v: f32) -> i64 {
    (v as f64 * AXIS_ONE as f64).round() as i64
}

#[test]
fn frame_is_eleven_bytes_with_markers() {
    for (x, y) in [(0i64, 0i64), (-AXIS_ONE, AXIS_ONE), (123456, -654321), (i64::MAX, i64::MIN)] {
        let f = encode(&AxisReading { x, y });
        let b = f.as_bytes();
        assert_eq!(b.len(), FRAME_LEN);
        assert_eq!(b[0], START_0);
        assert_eq!(b[1], START_1);
        assert_eq!(b[10], END_MARKER);
    }
}

#[test]
fn frame_for_full_left_and_full_up() {
    let f = encode(&AxisReading { x: to_fixed(-1.0), y: to_fixed(1.0) });
    assert_eq!(
        f.as_bytes(),
        &[0xFF, 0xFE, 0x00, 0x00, 0x00, 0x00, 0xFF, 0xFF, 0xFF, 0xFF, 0xFD]
    );
}

#[test]
fn frame_for_centered_sticks() {
    // The exact center encodes to the midpoint 0x8000_0000, one rounding
    // unit above the truncated half of the payload maximum.
    let f = encode(&AxisReading { x: to_fixed(0.0), y: to_fixed(0.0) });
    assert_eq!(
        f.as_bytes(),
        &[0xFF, 0xFE, 0x80, 0x00, 0x00, 0x00, 0x80, 0x00, 0x00, 0x00, 0xFD]
    );
}

#[test]
fn frame_payload_is_big_endian() {
    // Half deflections give payload words whose most significant byte
    // differs from the rest, so byte order is visible.
    let f = encode(&AxisReading { x: to_fixed(0.5), y: to_fixed(-0.5) });
    let b = f.as_bytes();
    assert_eq!(&b[2..6], &[0xBF, 0xFF, 0xFF, 0xFF]);
    assert_eq!(&b[6..10], &[0x40, 0x00, 0x00, 0x00]);
}

#[test]
fn frame_clamps_noisy_readings() {
    let noisy = encode(&AxisReading { x: to_fixed(1.5), y: to_fixed(-2.0) });
    let clean = encode(&AxisReading { x: to_fixed(1.0), y: to_fixed(-1.0) });
    assert_eq!(noisy.as_bytes(), clean.as_bytes());
}
