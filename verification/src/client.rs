//! Backend client retry policy.
//!
//! Network-level failures and backend "still syncing" answers are transient
//! and retried with exponential backoff up to a bound; decode failures and
//! application-level rejections are fatal to the call and never retried.
//! The I/O itself lives outside the library: the caller performs the call,
//! hands the outcome in, and follows the decision returned.

use vstd::prelude::*;
use crate::error::BackendError;

verus! {

/// Retry bounds of the backend client.
#[derive(Clone, Copy, Debug, PartialEq, Eq)]
pub struct RetryPolicy {
    /// Calls attempted at most, in total.
    pub max_attempts: u32,
    /// Delay before the first retry, in milliseconds.
    pub base_delay_ms: u64,
    /// Upper bound on any delay, in milliseconds.
    pub max_delay_ms: u64,
    /// Per-call timeout, in milliseconds; a call past it is transient.
    pub timeout_ms: u64,
}

/// What to do after a failed call.
#[derive(Clone, Copy, Debug, PartialEq, Eq)]
pub enum RetryDecision {
    /// Try again after this many milliseconds.
    RetryAfter(u64),
    /// Surface the error to the caller.
    GiveUp,
}

/// Delay before the retry after `attempt` completed calls: the base delay
/// doubled per further attempt, capped at the maximum.
pub open spec fn backoff_delay(p: RetryPolicy, attempt: u32) -> u64
    decreases attempt,
{
    if attempt <= 1 {
        if p.base_delay_ms <= p.max_delay_ms {
            p.base_delay_ms
        } else {
            p.max_delay_ms
        }
    } else {
        let prev = backoff_delay(p, (attempt - 1) as u32);
        if prev <= p.max_delay_ms / 2 {
            (2 * prev) as u64
        } else {
            p.max_delay_ms
        }
    }
}

/// True of the errors that are retried.
pub open spec fn is_transient(e: BackendError) -> bool {
    e == BackendError::Transient || e == BackendError::StillSyncing
}

/// Decides whether the call is retried after its `attempt`-th failure
/// (counting from 1): transient failures are retried with backoff while
/// attempts remain, and nothing else is ever retried.
pub fn next_retry(p: &RetryPolicy, attempt: u32, e: &BackendError) -> (r: RetryDecision)
    ensures
        r == (if is_transient(*e) && attempt < p.max_attempts {
            RetryDecision::RetryAfter(backoff_delay(*p, attempt))
        } else {
            RetryDecision::GiveUp
        }),
{
    let transient = match e {
        BackendError::Transient => true,
        BackendError::StillSyncing => true,
        BackendError::Decode(_) => false,
        BackendError::Rejected => false,
    };
    if !transient || attempt >= p.max_attempts {
        return RetryDecision::GiveUp;
    }
    let mut d: u64 = if p.base_delay_ms <= p.max_delay_ms {
        p.base_delay_ms
    } else {
        p.max_delay_ms
    };
    let mut k: u32 = 1;
    while k < attempt
        invariant
            1 <= k,
            k <= attempt || k == 1,
            d == backoff_delay(*p, k),
        decreases attempt - k,
    {
        d = if d <= p.max_delay_ms / 2 {
            2 * d
        } else {
            p.max_delay_ms
        };
        k = k + 1;
    }
    RetryDecision::RetryAfter(d)
}

/// The backoff delay never exceeds the policy's bound.
pub proof fn lemma_backoff_bounded(p: RetryPolicy, attempt: u32)
    ensures
        backoff_delay(p, attempt) <= p.max_delay_ms,
    decreases attempt,
{
    if attempt > 1 {
        lemma_backoff_bounded(p, (attempt - 1) as u32);
    }
}

} // verus!
