//! When a range whose transfer failed is tried again.

use vstd::prelude::*;

verus! {

/// How long to wait before trying a failed range again, in milliseconds.
pub const RETRY_DELAY_MILLIS: u64 = 1000;

pub open spec fn retry_spec(retries_so_far: nat, max_retries: nat) -> Option<nat> {
    if retries_so_far < max_retries {
        Some(retries_so_far + 1)
    } else {
        None
    }
}

/// After a failed attempt of a range that has been retried `retries_so_far`
/// times: the new retry count where it is tried again, or `None` where it is
/// given up because `max_retries` retries have been spent.
pub fn retry_after_failure(retries_so_far: usize, max_retries: usize) -> (r: Option<usize>)
    ensures
        match r {
            Some(n) => retry_spec(retries_so_far as nat, max_retries as nat) == Some(n as nat),
            None => retry_spec(retries_so_far as nat, max_retries as nat) is None,
        },
{
    if retries_so_far < max_retries {
        Some(retries_so_far + 1)
    } else {
        None
    }
}

/// The retry count after `failures` failed attempts in a row, starting from
/// none; `None` once the range has been given up.
pub open spec fn retries_after(failures: nat, max_retries: nat) -> Option<nat>
    decreases failures,
{
    if failures == 0 {
        Some(0)
    } else {
        match retries_after((failures - 1) as nat, max_retries) {
            Some(c) => retry_spec(c, max_retries),
            None => None,
        }
    }
}

/// A range is attempted at most `max_retries + 1` times: after `k` failures
/// in a row it is still tried where `k <= max_retries`, and it is given up at
/// failure `max_retries + 1`.
pub proof fn lemma_attempts_bounded(failures: nat, max_retries: nat)
    ensures
        failures <= max_retries ==> retries_after(failures, max_retries) == Some(failures),
        failures > max_retries ==> retries_after(failures, max_retries) is None,
    decreases failures,
{
    if failures > 0 {
        lemma_attempts_bounded((failures - 1) as nat, max_retries);
    }
}

} // verus!
