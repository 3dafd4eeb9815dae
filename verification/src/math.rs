//! Small integer helpers.

use vstd::prelude::*;

verus! {

pub open spec fn min_of(a: int, b: int) -> int {
    if a <= b {
        a
    } else {
        b
    }
}

pub open spec fn max_of(a: int, b: int) -> int {
    if a >= b {
        a
    } else {
        b
    }
}

pub fn min_usize(a: usize, b: usize) -> (m: usize)
    ensures
        m == min_of(a as int, b as int),
{
    if a <= b {
        a
    } else {
        b
    }
}

pub fn max_usize(a: usize, b: usize) -> (m: usize)
    ensures
        m == max_of(a as int, b as int),
{
    if a >= b {
        a
    } else {
        b
    }
}

pub fn min_u64(a: u64, b: u64) -> (m: u64)
    ensures
        m == min_of(a as int, b as int),
{
    if a <= b {
        a
    } else {
        b
    }
}

pub fn max_u64(a: u64, b: u64) -> (m: u64)
    ensures
        m == max_of(a as int, b as int),
{
    if a >= b {
        a
    } else {
        b
    }
}

/// Law: the lesser of two numbers is one of them and above neither, the greater one of them and
/// below neither; together they are the two numbers.
pub proof fn law_lesser_and_greater(a: int, b: int)
    ensures
        min_of(a, b) <= a,
        min_of(a, b) <= b,
        max_of(a, b) >= a,
        max_of(a, b) >= b,
        min_of(a, b) == a || min_of(a, b) == b,
        max_of(a, b) == a || max_of(a, b) == b,
        min_of(a, b) + max_of(a, b) == a + b,
{
}

} // verus!
