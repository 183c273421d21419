use vstd::prelude::*;

verus! {

/// The smaller of `a` and `b`.
pub open spec fn spec_min(a: int, b: int) -> int {
    if a <= b { a } else { b }
}

/// The larger of `a` and `b`.
pub open spec fn spec_max(a: int, b: int) -> int {
    if a >= b { a } else { b }
}

/// `min(max(min, value), max)`: `value` raised to at least `min`, then lowered to at most `max`.
/// When `max < min` the result is `max`.
pub fn clamp(min: usize, max: usize, value: usize) -> (r: usize)
    ensures
        r == spec_min(spec_max(min as int, value as int), max as int),
{
    let lower = if min >= value { min } else { value };
    if lower <= max { lower } else { max }
}

} // verus!
