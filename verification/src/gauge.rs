//! The operator display: a fixed-width bracketed bar gauge with a center
//! marker. For negative readings the fill grows leftward from the marker;
//! for non-negative readings it grows rightward. The output width depends
//! only on the requested width, never on the reading, so the display can be
//! redrawn in place without flicker.

use crate::axis::{clamp_axis, clamp_spec, AXIS_ONE};
use vstd::arithmetic::div_mod::{lemma_div_is_ordered, lemma_div_multiples_vanish_fancy,
    lemma_div_pos_is_pos};
use vstd::arithmetic::mul::lemma_mul_upper_bound;
use vstd::prelude::*;

verus! {

/// A run of `n` blank gauge cells.
pub open spec fn spaces(n: int) -> Seq<char> {
    Seq::new(n as nat, |i: int| ' ')
}

/// A run of `n` filled gauge cells.
pub open spec fn fills(n: int) -> Seq<char> {
    Seq::new(n as nat, |i: int| '=')
}

/// How many cells of one half of the gauge a reading fills: its clamped
/// magnitude scaled to half the width, rounded to the nearest cell (ties
/// upward).
pub open spec fn fill_count_spec(v: int, width: int) -> int {
    let c = clamp_spec(v);
    let mag = if c < 0 {
        -c
    } else {
        c
    };
    (2 * mag * (width / 2) + AXIS_ONE as int) / (2 * AXIS_ONE as int)
}

/// The rendered gauge: an opening bracket, the left half, the center marker,
/// the right half, and a closing bracket. Only the half matching the sign of
/// the reading carries fill, growing outward from the marker on the right and
/// inward from the fill toward the marker on the left.
pub open spec fn gauge_spec(v: int, width: int) -> Seq<char> {
    let half = width / 2;
    let fill = fill_count_spec(v, width);
    if clamp_spec(v) < 0 {
        seq!['['] + spaces(half - fill) + fills(fill) + seq!['|'] + spaces(half) + seq![']']
    } else {
        seq!['['] + spaces(half) + seq!['|'] + fills(fill) + spaces(half - fill) + seq![']']
    }
}

/// The fill never exceeds half the width: a full deflection exactly fills
/// one half of the gauge.
pub proof fn lemma_fill_in_range(v: int, width: int)
    requires
        width >= 0,
    ensures
        0 <= fill_count_spec(v, width) <= width / 2,
{
    let c = clamp_spec(v);
    let mag = if c < 0 {
        -c
    } else {
        c
    };
    let d = AXIS_ONE as int;
    let half = width / 2;
    assert(0 <= mag <= d);
    assert(2 * mag * half <= 2 * d * half && 0 <= 2 * mag * half) by (nonlinear_arith)
        requires
            0 <= mag <= d,
            0 <= half,
    ;
    lemma_div_pos_is_pos(2 * mag * half + d, 2 * d);
    lemma_div_is_ordered(2 * mag * half + d, 2 * d * half + d, 2 * d);
    lemma_div_multiples_vanish_fancy(half, d, 2 * d);
}

/// The gauge's length depends only on the width.
pub proof fn lemma_gauge_len(v: int, width: int)
    requires
        width >= 0,
    ensures
        gauge_spec(v, width).len() == 2 * (width / 2) + 3,
{
    lemma_fill_in_range(v, width);
}

/// Append `n` blank cells to `s`.
fn push_spaces(s: &mut String, n: usize)
    ensures
        final(s)@ == old(s)@ + spaces(n as int),
{
    let mut i: usize = 0;
    proof {
        assert(s@ =~= old(s)@ + spaces(0));
    }
    while i < n
        invariant
            i <= n,
            s@ == old(s)@ + spaces(i as int),
        decreases n - i,
    {
        s.append(" ");
        i = i + 1;
        proof {
            reveal_strlit(" ");
            assert(s@ =~= old(s)@ + spaces(i as int));
        }
    }
}

/// Append `n` filled cells to `s`.
fn push_fills(s: &mut String, n: usize)
    ensures
        final(s)@ == old(s)@ + fills(n as int),
{
    let mut i: usize = 0;
    proof {
        assert(s@ =~= old(s)@ + fills(0));
    }
    while i < n
        invariant
            i <= n,
            s@ == old(s)@ + fills(i as int),
        decreases n - i,
    {
        s.append("=");
        i = i + 1;
        proof {
            reveal_strlit("=");
            assert(s@ =~= old(s)@ + fills(i as int));
        }
    }
}

/// Render a reading as a bar gauge of the given width. Total: out-of-range
/// readings are clamped, and the result always has exactly
/// `2 * (width / 2) + 3` characters.
pub fn render(v: i64, width: usize) -> (s: String)
    ensures
        s@ == gauge_spec(v as int, width as int),
        s@.len() == 2 * ((width as int) / 2) + 3,
{
    let half: usize = width / 2;
    let c = clamp_axis(v);
    let mag: u64 = if c < 0 {
        (-c) as u64
    } else {
        c as u64
    };
    proof {
        lemma_mul_upper_bound(2 * mag as int, 2 * AXIS_ONE as int, half as int, usize::MAX as int);
    }
    let num: u128 = 2 * (mag as u128) * (half as u128) + 16777216u128;
    let fill_wide: u128 = num / 33554432u128;
    proof {
        lemma_fill_in_range(v as int, width as int);
        let cs = clamp_spec(v as int);
        let mag_s = if cs < 0 {
            -cs
        } else {
            cs
        };
        assert(mag as int == mag_s);
        assert(half as int == (width as int) / 2);
        assert(2 * (mag as int) * (half as int) == 2 * mag_s * ((width as int) / 2))
            by (nonlinear_arith)
            requires
                mag as int == mag_s,
                half as int == (width as int) / 2,
        ;
        assert(num as int == 2 * mag_s * ((width as int) / 2) + AXIS_ONE as int);
        assert(fill_wide as int == (num as int) / (2 * AXIS_ONE as int));
        assert(fill_wide as int == fill_count_spec(v as int, width as int));
    }
    let fill: usize = fill_wide as usize;
    let mut s = String::new();
    s.append("[");
    if c < 0 {
        push_spaces(&mut s, half - fill);
        push_fills(&mut s, fill);
        s.append("|");
        push_spaces(&mut s, half);
    } else {
        push_spaces(&mut s, half);
        s.append("|");
        push_fills(&mut s, fill);
        push_spaces(&mut s, half - fill);
    }
    s.append("]");
    proof {
        reveal_strlit("[");
        reveal_strlit("|");
        reveal_strlit("]");
        lemma_gauge_len(v as int, width as int);
        assert(s@ =~= gauge_spec(v as int, width as int));
    }
    s
}

} // verus!
