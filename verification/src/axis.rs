//! Normalization of a single axis channel: clamping a fixed-point reading to
//! the logical range and mapping it linearly onto the full unsigned 32-bit
//! payload range, most negative deflection at 0 and most positive at
//! `u32::MAX`, with round-to-nearest.

use vstd::arithmetic::div_mod::{
    lemma_div_is_ordered, lemma_div_multiples_vanish_fancy, lemma_fundamental_div_mod,
    lemma_mod_bound,
};
use vstd::prelude::*;

verus! {

/// Fixed-point representation of 1.0: axis readings live in
/// [-AXIS_ONE, AXIS_ONE] after clamping.
pub const AXIS_ONE: i64 = 16777216;

/// The largest encoded axis value (`u32::MAX`).
pub const ENC_MAX: u32 = 0xFFFF_FFFF;

/// A reading clamped to the logical range [-AXIS_ONE, AXIS_ONE].
pub open spec fn clamp_spec(v: int) -> int {
    if v < -(AXIS_ONE as int) {
        -(AXIS_ONE as int)
    } else if v > AXIS_ONE as int {
        AXIS_ONE as int
    } else {
        v
    }
}

/// The wire encoding of a reading: clamp, shift to [0, 2*AXIS_ONE], scale by
/// ENC_MAX / (2*AXIS_ONE) with round-to-nearest (ties upward).
pub open spec fn encode_axis_spec(v: int) -> int {
    ((clamp_spec(v) + AXIS_ONE) * (ENC_MAX as int) + AXIS_ONE as int) / (2 * AXIS_ONE as int)
}

/// The inverse mapping: scale an encoded value back to [0, 2*AXIS_ONE] with
/// round-to-nearest (ties upward), then shift to [-AXIS_ONE, AXIS_ONE].
pub open spec fn decode_spec(e: int) -> int {
    (4 * AXIS_ONE as int * e + ENC_MAX as int) / (2 * ENC_MAX as int) - AXIS_ONE as int
}

/// Clamp a raw reading (which may exceed unit deflection through device
/// noise) to the logical range.
pub fn clamp_axis(v: i64) -> (c: i64)
    ensures
        c == clamp_spec(v as int),
        -AXIS_ONE <= c <= AXIS_ONE,
{
    if v < -AXIS_ONE {
        -AXIS_ONE
    } else if v > AXIS_ONE {
        AXIS_ONE
    } else {
        v
    }
}

/// Encode one axis reading for the wire.
pub fn encode_axis(v: i64) -> (e: u32)
    ensures
        e == encode_axis_spec(v as int),
{
    let c = clamp_axis(v);
    let shifted: u64 = (c + AXIS_ONE) as u64;
    let num: u64 = shifted * 0xFFFF_FFFFu64 + 16777216u64;
    let q: u64 = num / 33554432u64;
    proof {
        lemma_encode_bounds(v as int);
        assert(num as int == (clamp_spec(v as int) + AXIS_ONE) * (ENC_MAX as int)
            + AXIS_ONE as int);
    }
    q as u32
}

/// Decode an encoded axis value back to a fixed-point reading.
pub fn decode(e: u32) -> (v: i64)
    ensures
        v == decode_spec(e as int),
{
    let num: u64 = 67108864u64 * (e as u64) + 0xFFFF_FFFFu64;
    let q: u64 = num / 0x1_FFFF_FFFEu64;
    proof {
        lemma_div_is_ordered(num as int, 4 * AXIS_ONE as int * (ENC_MAX as int) + ENC_MAX as int, 2
            * ENC_MAX as int);
    }
    q as i64 - AXIS_ONE
}

/// The encoding stays within the unsigned 32-bit payload range.
pub proof fn lemma_encode_bounds(v: int)
    ensures
        0 <= encode_axis_spec(v) <= ENC_MAX as int,
{
    let c = clamp_spec(v);
    let d = AXIS_ONE as int;
    let m = ENC_MAX as int;
    let num = (c + d) * m + d;
    assert(0 <= c + d <= 2 * d);
    assert((c + d) * m <= 2 * d * m) by (nonlinear_arith)
        requires
            0 <= c + d <= 2 * d,
            m > 0,
    ;
    assert((c + d) * m >= 0) by (nonlinear_arith)
        requires
            c + d >= 0,
            m > 0,
    ;
    lemma_div_is_ordered(0, num, 2 * d);
    lemma_div_is_ordered(num, 2 * d * m + d, 2 * d);
    assert((2 * d * m + d) / (2 * d) == m) by {
        lemma_div_multiples_vanish_fancy(m, d, 2 * d);
    }
}

/// Encoding a reading is the same as encoding its clamped value: inputs
/// outside the logical range are pulled to the nearest endpoint first.
pub proof fn lemma_encode_clamps(v: int)
    ensures
        encode_axis_spec(v) == encode_axis_spec(clamp_spec(v)),
{
}

/// The encoding is monotonic: a larger reading never encodes below a
/// smaller one.
pub proof fn lemma_encode_monotonic(v1: int, v2: int)
    requires
        v1 <= v2,
    ensures
        encode_axis_spec(v1) <= encode_axis_spec(v2),
{
    let c1 = clamp_spec(v1);
    let c2 = clamp_spec(v2);
    let d = AXIS_ONE as int;
    let m = ENC_MAX as int;
    assert(c1 <= c2);
    assert((c1 + d) * m <= (c2 + d) * m) by (nonlinear_arith)
        requires
            c1 <= c2,
            m > 0,
    ;
    lemma_div_is_ordered((c1 + d) * m + d, (c2 + d) * m + d, 2 * d);
}

/// The endpoints and the center of the logical range encode to the ends and
/// the midpoint of the payload range.
pub proof fn lemma_encode_endpoints()
    ensures
        encode_axis_spec(-(AXIS_ONE as int)) == 0,
        encode_axis_spec(AXIS_ONE as int) == ENC_MAX as int,
        encode_axis_spec(0) == 0x8000_0000,
{
    let d = AXIS_ONE as int;
    let m = ENC_MAX as int;
    assert(encode_axis_spec(-d) == d / (2 * d));
    lemma_div_multiples_vanish_fancy(0, d, 2 * d);
    assert(encode_axis_spec(d) == (2 * d * m + d) / (2 * d));
    lemma_div_multiples_vanish_fancy(m, d, 2 * d);
    assert(encode_axis_spec(0) == (d * m + d) / (2 * d));
    assert(d * m + d == 2 * d * 0x8000_0000) by (nonlinear_arith)
        requires
            d == AXIS_ONE as int,
            m == ENC_MAX as int,
    ;
    lemma_div_multiples_vanish_fancy(0x8000_0000, 0, 2 * d);
}

/// Decoding inverts encoding exactly on the logical range: the two rounding
/// steps cancel, so every clamped reading survives the round trip unchanged.
pub proof fn lemma_decode_encode(v: int)
    requires
        -(AXIS_ONE as int) <= v <= AXIS_ONE as int,
    ensures
        decode_spec(encode_axis_spec(v)) == v,
{
    let d = AXIS_ONE as int;
    let m = ENC_MAX as int;
    let a = v + d;
    assert(clamp_spec(v) == v);
    let e = (a * m + d) / (2 * d);
    let r = (a * m + d) % (2 * d);
    lemma_fundamental_div_mod(a * m + d, 2 * d);
    lemma_mod_bound(a * m + d, 2 * d);
    assert(a * m + d == 2 * d * e + r);
    assert(4 * d * e == 2 * (a * m + d - r)) by (nonlinear_arith)
        requires
            a * m + d == 2 * d * e + r,
    ;
    let w = m + 2 * d - 2 * r;
    assert(4 * d * e + m == 2 * m * a + w) by (nonlinear_arith)
        requires
            4 * d * e == 2 * (a * m + d - r),
            w == m + 2 * d - 2 * r,
    ;
    assert(0 <= w < 2 * m);
    assert((2 * m * a + w) / (2 * m) == a) by {
        lemma_div_multiples_vanish_fancy(a, w, 2 * m);
    }
}

} // verus!
