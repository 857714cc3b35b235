//! Small integer helpers shared by the rule checkers.
use vstd::prelude::*;

verus! {

/// Absolute value of a mathematical integer.
pub open spec fn abs_int(x: int) -> int {
    if x < 0 { -x } else { x }
}

/// Sign of a mathematical integer: -1, 0 or 1.
pub open spec fn sign(x: int) -> int {
    if x > 0 { 1 } else if x < 0 { -1 } else { 0 }
}

/// `a - b` is an `i32` whose absolute value is an `i32` too.
pub open spec fn diff_ok(a: i32, b: i32) -> bool {
    i32::MIN < a - b <= i32::MAX
}

/// Absolute value of an `i32` other than `i32::MIN`.
pub fn abs_i32(x: i32) -> (r: i32)
    requires
        x != i32::MIN,
    ensures
        r == abs_int(x as int),
{
    if x < 0 { -x } else { x }
}

/// Sign of an `i32`: -1, 0 or 1.
pub fn signum_i32(x: i32) -> (r: i32)
    ensures
        r == sign(x as int),
{
    if x > 0 { 1 } else if x < 0 { -1 } else { 0 }
}

/// Euclidean remainder of `x` modulo 12.
pub fn rem_euclid_12(x: i32) -> (r: i32)
    ensures
        r == x as int % 12,
        0 <= r < 12,
{
    let t = x % 12;
    if t < 0 { t + 12 } else { t }
}

/// Euclidean remainder of `x` modulo 256.
pub fn rem_euclid_256(x: i32) -> (r: i32)
    ensures
        r == x as int % 256,
        0 <= r < 256,
{
    let t = x % 256;
    if t < 0 { t + 256 } else { t }
}

/// Number of indices `i` in `0..n` at which `p(i)` holds.
pub open spec fn count_upto(n: int, p: spec_fn(int) -> bool) -> nat
    decreases n,
{
    if n <= 0 {
        0
    } else {
        count_upto(n - 1, p) + if p(n - 1) { 1nat } else { 0nat }
    }
}

} // verus!
