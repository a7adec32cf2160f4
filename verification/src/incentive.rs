//! Admission rules for creating a reward incentive.

use vstd::prelude::*;
use crate::decimal::Decimal;

verus! {

/// How long before the current time an incentive may start.
pub const MAX_TIME_BEFORE_START: u64 = 3_600;

/// The longest span an incentive may run for, in seconds.
pub const MAX_DURATION: u64 = 31_556_926;

/// Why an incentive request was rejected.
#[derive(Clone, Copy, PartialEq, Eq, Structural, Debug)]
pub enum IncentiveError {
    /// The funded reward is zero.
    ZeroAmount,
    /// The start time lies too far in the past.
    StartInPast,
    /// The end time lies more than the maximum duration ahead.
    TooLongDuration,
}

/// Accepts an incentive only if it carries a nonzero reward, starts no more
/// than an hour before now, and ends within a year of now. The checks run in
/// that order and the first failure wins.
pub fn validate_incentive(reward: Decimal, start_time: u64, end_time: u64, current_time: u64) -> (r:
    Result<(), IncentiveError>)
    requires
        start_time + MAX_TIME_BEFORE_START <= u64::MAX,
        current_time + MAX_DURATION <= u64::MAX,
    ensures
        r == (if reward.v == 0 {
            Err::<(), IncentiveError>(IncentiveError::ZeroAmount)
        } else if start_time + MAX_TIME_BEFORE_START < current_time {
            Err::<(), IncentiveError>(IncentiveError::StartInPast)
        } else if current_time + MAX_DURATION < end_time {
            Err::<(), IncentiveError>(IncentiveError::TooLongDuration)
        } else {
            Ok::<(), IncentiveError>(())
        }),
{
    if reward.v == 0 {
        return Err(IncentiveError::ZeroAmount);
    }
    if !(start_time + MAX_TIME_BEFORE_START >= current_time) {
        return Err(IncentiveError::StartInPast);
    }
    if !(current_time + MAX_DURATION >= end_time) {
        return Err(IncentiveError::TooLongDuration);
    }
    Ok(())
}

} // verus!
