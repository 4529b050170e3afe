//! Retry scheduling for claimed events.

use vstd::prelude::*;

verus! {

/// How often an event may be retried before it is given up.
#[derive(Debug, Clone, Copy, PartialEq, Eq, Structural)]
pub struct RetryPolicy {
    pub max_retries: u32,
}

/// What becomes of an event whose attempt has failed.
#[derive(Debug, Clone, Copy, PartialEq, Eq, Structural)]
pub enum RetryDecision {
    Retry { not_before: i64 },
    DeadLetter,
}

/// How a finished run settles the events that it was started for.
#[derive(Debug, Clone)]
pub enum EventResolution {
    RetryPolicy(RetryPolicy),
    ExecutionUnknown { reason: String },
}

/// Two to the power `n`.
pub open spec fn doublings(n: int) -> int
    decreases n,
{
    if n <= 0 {
        1
    } else {
        2 * doublings(n - 1)
    }
}

/// The delay after the given attempt: one minute, doubled for each earlier
/// attempt, with at most six doublings.
pub open spec fn backoff_seconds(attempts: int) -> int {
    60 * doublings(
        if attempts - 1 < 0 {
            0
        } else if attempts - 1 > 6 {
            6
        } else {
            attempts - 1
        },
    )
}

/// Addition that stops at the largest `i64`.
pub open spec fn capped_sum(a: int, b: int) -> int {
    if a + b > i64::MAX {
        i64::MAX as int
    } else {
        a + b
    }
}

/// Decides whether an event is tried again, and from when on.
pub fn retry_decision(attempts: i64, now: i64, policy: RetryPolicy) -> (decision: RetryDecision)
    ensures
        attempts > policy.max_retries ==> decision == RetryDecision::DeadLetter,
        attempts <= policy.max_retries ==> decision == (RetryDecision::Retry {
            not_before: capped_sum(now as int, backoff_seconds(attempts as int)) as i64,
        }),
{
    if attempts <= policy.max_retries as i64 {
        let delay: i64 = retry_backoff_seconds(attempts);
        proof {
            lemma_backoff_bounds(attempts as int);
        }
        let not_before: i64 = match now.checked_add(delay) {
            Some(sum) => sum,
            None => i64::MAX,
        };
        RetryDecision::Retry { not_before }
    } else {
        RetryDecision::DeadLetter
    }
}

/// The delay in seconds that follows the given attempt.
pub fn retry_backoff_seconds(attempts: i64) -> (seconds: i64)
    ensures
        seconds == backoff_seconds(attempts as int),
{
    let steps: i64 = if attempts <= 1 {
        0
    } else if attempts >= 7 {
        6
    } else {
        attempts - 1
    };
    let mut seconds: i64 = 60;
    let mut done: i64 = 0;
    proof {
        reveal_with_fuel(doublings, 8);
    }
    while done < steps
        invariant
            0 <= done <= steps <= 6,
            seconds == 60 * doublings(done as int),
        decreases steps - done,
    {
        proof {
            reveal_with_fuel(doublings, 8);
        }
        seconds = seconds * 2;
        done = done + 1;
    }
    seconds
}

/// A delay is at least one minute and at most 64 minutes.
pub proof fn lemma_backoff_bounds(attempts: int)
    ensures
        60 <= backoff_seconds(attempts) <= 3840,
{
    reveal_with_fuel(doublings, 8);
}

/// A later attempt never waits for a shorter time than an earlier one.
pub proof fn lemma_backoff_is_monotone(earlier: int, later: int)
    requires
        earlier <= later,
    ensures
        backoff_seconds(earlier) <= backoff_seconds(later),
{
    reveal_with_fuel(doublings, 8);
}

/// The wait is a minute for the first attempt and doubles with each further one,
/// up to the seventh.
pub proof fn lemma_wait_doubles(attempts: int)
    ensures
        attempts <= 1 ==> backoff_seconds(attempts) == 60,
        1 <= attempts < 7 ==> backoff_seconds(attempts + 1) == 2 * backoff_seconds(attempts),
        attempts >= 7 ==> backoff_seconds(attempts) == 3840,
{
    reveal_with_fuel(doublings, 8);
}

/// A moment that lies beyond the clock is its last moment.
pub proof fn lemma_moments_end_with_the_clock(now: int, wait: int)
    requires
        now <= i64::MAX,
        wait >= 0,
    ensures
        now + wait <= i64::MAX ==> capped_sum(now, wait) == now + wait,
        now + wait > i64::MAX ==> capped_sum(now, wait) == i64::MAX,
{
}

} // verus!
