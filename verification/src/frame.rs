//! The wire frame: an 11-byte delimited binary message carrying both encoded
//! axis channels. Layout: two start markers, axis X as four big-endian bytes,
//! axis Y as four big-endian bytes, one end marker. There is no checksum and
//! no escaping of marker bytes inside the payload; a receiver must rely on
//! the fixed frame length to stay synchronized.

use crate::axis::{encode_axis, encode_axis_spec};
use vstd::prelude::*;

verus! {

/// One sampled pair of axis channels, in fixed-point units of
/// [`crate::axis::AXIS_ONE`]. Values may arrive outside the logical range
/// (device noise) and are clamped during encoding.
pub struct AxisReading {
    pub x: i64,
    pub y: i64,
}

/// Number of bytes in a wire frame.
pub const FRAME_LEN: usize = 11;

/// First start marker.
pub const START_0: u8 = 0xFF;

/// Second start marker.
pub const START_1: u8 = 0xFE;

/// End marker.
pub const END_MARKER: u8 = 0xFD;

/// Big-endian serialization of an unsigned 32-bit value as four bytes,
/// most-significant byte first.
pub open spec fn be_bytes_spec(u: int) -> Seq<u8> {
    seq![
        ((u / 0x100_0000) % 256) as u8,
        ((u / 0x1_0000) % 256) as u8,
        ((u / 0x100) % 256) as u8,
        (u % 256) as u8,
    ]
}

/// The full frame produced for one pair of readings.
pub open spec fn frame_spec(x: int, y: int) -> Seq<u8> {
    seq![START_0, START_1] + be_bytes_spec(encode_axis_spec(x)) + be_bytes_spec(
        encode_axis_spec(y),
    ) + seq![END_MARKER]
}

/// An immutable wire frame, created fresh from one reading each cycle and
/// discarded after the write attempt.
pub struct Frame {
    bytes: Vec<u8>,
}

impl View for Frame {
    type V = Seq<u8>;

    closed spec fn view(&self) -> Seq<u8> {
        self.bytes@
    }
}

impl Frame {
    /// The frame's bytes, for handing to the transport as one contiguous
    /// write.
    pub fn as_bytes(&self) -> (b: &[u8])
        ensures
            b@ == self@,
    {
        self.bytes.as_slice()
    }
}

/// Append the big-endian serialization of `u` to `out`.
fn push_be(out: &mut Vec<u8>, u: u32)
    ensures
        final(out)@ == old(out)@ + be_bytes_spec(u as int),
{
    out.push((u / 0x100_0000) as u8);
    out.push(((u / 0x1_0000) % 256) as u8);
    out.push(((u / 0x100) % 256) as u8);
    out.push((u % 256) as u8);
    proof {
        assert(final(out)@ =~= old(out)@ + be_bytes_spec(u as int));
    }
}

/// Encode one reading as a wire frame. Total over all readings: out-of-range
/// values are clamped, and every payload byte value may occur (marker bytes
/// are not excluded from the payload).
pub fn encode(reading: &AxisReading) -> (f: Frame)
    ensures
        f@ == frame_spec(reading.x as int, reading.y as int),
        f@.len() == FRAME_LEN,
{
    let ex = encode_axis(reading.x);
    let ey = encode_axis(reading.y);
    let mut bytes: Vec<u8> = Vec::new();
    bytes.push(START_0);
    bytes.push(START_1);
    push_be(&mut bytes, ex);
    push_be(&mut bytes, ey);
    bytes.push(END_MARKER);
    proof {
        assert(bytes@ =~= frame_spec(reading.x as int, reading.y as int));
    }
    Frame { bytes }
}

/// Every frame is exactly [`FRAME_LEN`] bytes, delimited by the fixed start
/// and end markers, whatever the readings were.
pub proof fn lemma_frame_layout(x: int, y: int)
    ensures
        frame_spec(x, y).len() == FRAME_LEN,
        frame_spec(x, y)[0] == START_0,
        frame_spec(x, y)[1] == START_1,
        frame_spec(x, y)[10] == END_MARKER,
{
}

} // verus!
