//! Arithmetic on usage counters, with the field named where it fails.

use crate::error::{field_failure, AppError, Failure};
use vstd::prelude::*;

verus! {

/// The failure of a counter that is below zero.
pub open spec fn negative_failure(name: Seq<char>) -> Failure {
    Failure::Database("Hermes "@ + name + " 不能为负数"@)
}

/// The failure of a difference that leaves the range of `i64`.
pub open spec fn delta_failure(name: Seq<char>) -> Failure {
    Failure::Database("计算 Hermes "@ + name + " delta 溢出"@)
}

/// The failure of a sum that leaves the range of `u64`.
pub open spec fn sum_failure(name: Seq<char>) -> Failure {
    Failure::Database("汇总 Hermes "@ + name + " 溢出"@)
}

/// Accepts a counter only where it is not negative.
pub fn non_negative_i64(value: i64, name: &str) -> (r: Result<i64, AppError>)
    ensures
        match r {
            Ok(v) => value >= 0 && v == value,
            Err(e) => value < 0 && e@ == negative_failure(name@),
        },
{
    if value < 0 {
        Err(field_failure("Hermes ", name, " 不能为负数"))
    } else {
        Ok(value)
    }
}

/// The growth of a counter from one reading to the next.
pub fn checked_delta(current: i64, previous: i64, name: &str) -> (r: Result<i64, AppError>)
    ensures
        match r {
            Ok(v) => v == current - previous,
            Err(e) => !(i64::MIN <= current - previous <= i64::MAX) && e@ == delta_failure(name@),
        },
{
    match current.checked_sub(previous) {
        Some(v) => Ok(v),
        None => Err(field_failure("计算 Hermes ", name, " delta 溢出")),
    }
}

/// The sum of a running total and one more counter.
pub fn checked_add(current: u64, addition: u64, name: &str) -> (r: Result<u64, AppError>)
    ensures
        match r {
            Ok(v) => v == current + addition,
            Err(e) => current + addition > u64::MAX && e@ == sum_failure(name@),
        },
{
    match current.checked_add(addition) {
        Some(v) => Ok(v),
        None => Err(field_failure("汇总 Hermes ", name, " 溢出")),
    }
}

} // verus!
