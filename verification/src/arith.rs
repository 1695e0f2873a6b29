//! Saturating integer arithmetic used by every accrual computation.
//!
//! The engine's policy is to clamp on overflow rather than wrap or panic, so
//! each operation here is specified exactly: the mathematical result where it
//! fits, the numeric ceiling (or floor, for subtraction) where it does not.

use vstd::prelude::*;

verus! {

/// `a + b` clamped to `u64::MAX`.
pub open spec fn sat_add_u64(a: u64, b: u64) -> u64 {
    if a + b > u64::MAX {
        u64::MAX
    } else {
        (a + b) as u64
    }
}

/// `a - b` clamped to 0.
pub open spec fn sat_sub_u64(a: u64, b: u64) -> u64 {
    if a < b {
        0u64
    } else {
        (a - b) as u64
    }
}

/// `a * b` clamped to `u64::MAX`.
pub open spec fn sat_mul_u64(a: u64, b: u64) -> u64 {
    if a * b > u64::MAX {
        u64::MAX
    } else {
        (a * b) as u64
    }
}

/// `a + b` clamped to `u128::MAX`.
pub open spec fn sat_add_u128(a: u128, b: u128) -> u128 {
    if a + b > u128::MAX {
        u128::MAX
    } else {
        (a + b) as u128
    }
}

/// `a - b` clamped to 0.
pub open spec fn sat_sub_u128(a: u128, b: u128) -> u128 {
    if a < b {
        0u128
    } else {
        (a - b) as u128
    }
}

/// `a * b` clamped to `u128::MAX`.
pub open spec fn sat_mul_u128(a: u128, b: u128) -> u128 {
    if a * b > u128::MAX {
        u128::MAX
    } else {
        (a * b) as u128
    }
}

pub fn saturating_add_u64(a: u64, b: u64) -> (r: u64)
    ensures
        r == sat_add_u64(a, b),
{
    a.saturating_add(b)
}

pub fn saturating_sub_u64(a: u64, b: u64) -> (r: u64)
    ensures
        r == sat_sub_u64(a, b),
{
    a.saturating_sub(b)
}

pub fn saturating_mul_u64(a: u64, b: u64) -> (r: u64)
    ensures
        r == sat_mul_u64(a, b),
{
    match a.checked_mul(b) {
        Some(v) => v,
        None => u64::MAX,
    }
}

pub fn saturating_add_u128(a: u128, b: u128) -> (r: u128)
    ensures
        r == sat_add_u128(a, b),
{
    a.saturating_add(b)
}

pub fn saturating_sub_u128(a: u128, b: u128) -> (r: u128)
    ensures
        r == sat_sub_u128(a, b),
{
    a.saturating_sub(b)
}

pub fn saturating_mul_u128(a: u128, b: u128) -> (r: u128)
    ensures
        r == sat_mul_u128(a, b),
{
    match a.checked_mul(b) {
        Some(v) => v,
        None => u128::MAX,
    }
}

} // verus!
