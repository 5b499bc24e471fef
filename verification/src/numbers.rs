//! Bounded and rounded numbers.

use vstd::prelude::*;

verus! {

/// The lesser of two numbers.
pub open spec fn lesser(a: int, b: int) -> int {
    if a <= b {
        a
    } else {
        b
    }
}

/// `n`, or the largest 32-bit number when `n` is larger.
pub open spec fn capped(n: int) -> u32 {
    if n <= u32::MAX {
        n as u32
    } else {
        u32::MAX
    }
}

/// The quotient `a / b`, rounded up.
pub open spec fn rounded_up(a: int, b: int) -> int {
    if a % b == 0 {
        a / b
    } else {
        a / b + 1
    }
}

/// `n`, or the largest 32-bit number when `n` is larger.
pub fn cap(n: u64) -> (bounded: u32)
    ensures
        bounded == capped(n as int),
{
    if n <= u32::MAX as u64 {
        n as u32
    } else {
        u32::MAX
    }
}

} // verus!
