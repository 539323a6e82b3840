//! The integer part of the scaling model: a control's linear position as a
//! whole percentage.
use vstd::prelude::*;

verus! {

/// The linear percentage of `value` in `[min, max]`: the clamped offset from
/// `min`, times 100, divided by the span and rounded down; 0 for an empty or
/// inverted range.
pub open spec fn spec_linear_percent(value: int, min: int, max: int) -> int {
    if max <= min {
        0
    } else {
        let span = max - min;
        let off = value - min;
        let pos = if off < 0 {
            0
        } else if off > span {
            span
        } else {
            off
        };
        pos * 100 / span
    }
}

/// The position of a raw value as a whole percentage of a linear control,
/// computed in wide integers so that no span overflows.
pub fn linear_percent(value: i64, min: i64, max: i64) -> (r: i64)
    ensures
        r as int == spec_linear_percent(value as int, min as int, max as int),
        0 <= r <= 100,
{
    if max <= min {
        return 0;
    }
    let span: i128 = max as i128 - min as i128;
    let off: i128 = value as i128 - min as i128;
    let pos: i128 = if off < 0 {
        0
    } else if off > span {
        span
    } else {
        off
    };
    let ghost p = pos as int;
    let ghost sp = span as int;
    assert(0 <= (p * 100) / sp <= 100) by (nonlinear_arith)
        requires
            0 <= p <= sp,
            sp > 0,
    {
        assert(p * 100 <= sp * 100);
    }
    let scaled: i128 = pos * 100;
    (scaled / span) as i64
}

} // verus!
