//! Results of rounds and runs, the library's error type, and the bounded
//! retry policy used around endpoint discovery.

use std::time::Duration;
use vstd::prelude::*;
use vstd::string::StringExecFns;

verus! {

/// Errors of configuration, discovery, delivery and scheduling.
#[derive(Debug, Clone, PartialEq, Eq)]
pub enum TestrpcError {
    /// The resolved endpoint count differs from the expected one (expected, got).
    WrongNumberOfNodes(usize, usize),
    UnsupportedAdapter(String),
    /// A configuration could not be loaded (reason, file).
    LoadConfigError(String, String),
    /// A required adapter argument is absent or has the wrong type.
    MissingArgs(String),
    LoadEndpointsError(String),
    LoadRoundTemplateError(String),
    RpcError(String),
    ExecutionError(String),
    TerminationError(String),
    JoinError(String),
}

/// Outcome of one round (or of one delivery to one endpoint).
#[derive(Debug, Clone, Copy, PartialEq, Eq, Structural)]
pub struct RoundResults {
    pub sent: usize,
    pub failed: usize,
}

/// Sum of `sent` over a sequence of results.
pub open spec fn total_sent(s: Seq<RoundResults>) -> nat
    decreases s.len(),
{
    if s.len() == 0 {
        0
    } else {
        total_sent(s.drop_last()) + s.last().sent as nat
    }
}

/// Sum of `failed` over a sequence of results.
pub open spec fn total_failed(s: Seq<RoundResults>) -> nat
    decreases s.len(),
{
    if s.len() == 0 {
        0
    } else {
        total_failed(s.drop_last()) + s.last().failed as nat
    }
}

/// Both sums of a sequence fit in `usize`.
pub open spec fn totals_fit(s: Seq<RoundResults>) -> bool {
    total_sent(s) <= usize::MAX && total_failed(s) <= usize::MAX
}

/// A prefix never sums to more than the whole sequence.
pub proof fn lemma_prefix_totals(s: Seq<RoundResults>, i: int)
    requires
        0 <= i <= s.len(),
    ensures
        total_sent(s.take(i)) <= total_sent(s),
        total_failed(s.take(i)) <= total_failed(s),
    decreases s.len() - i,
{
    if i < s.len() {
        lemma_prefix_totals(s, i + 1);
        assert(s.take(i + 1).drop_last() =~= s.take(i));
    } else {
        assert(s.take(i) =~= s);
    }
}

/// Result of a whole run.
#[derive(Debug)]
pub struct FlowResults {
    pub rounds: Vec<RoundResults>,
    pub total: RoundResults,
    pub total_time: Duration,
    pub total_iterations: u32,
}

impl FlowResults {
    /// Builds a run result: `total` is the field-wise sum of `rounds`, and
    /// `total_iterations` is the number of rounds (truncated to `u32`).
    pub fn new_from_round_results(rounds: Vec<RoundResults>, total_time: Duration) -> (r: Self)
        requires
            totals_fit(rounds@),
        ensures
            r.rounds@ == rounds@,
            r.total.sent == total_sent(rounds@),
            r.total.failed == total_failed(rounds@),
            r.total_time == total_time,
            r.total_iterations == rounds@.len() as u32,
    {
        let total_iterations = rounds.len() as u32;
        let mut total = RoundResults { sent: 0, failed: 0 };
        let mut i: usize = 0;
        while i < rounds.len()
            invariant
                i <= rounds@.len(),
                totals_fit(rounds@),
                total.sent == total_sent(rounds@.take(i as int)),
                total.failed == total_failed(rounds@.take(i as int)),
            decreases rounds@.len() - i,
        {
            proof {
                lemma_prefix_totals(rounds@, i + 1);
                assert(rounds@.take(i + 1).drop_last() =~= rounds@.take(i as int));
            }
            total.sent = total.sent + rounds[i].sent;
            total.failed = total.failed + rounds[i].failed;
            i = i + 1;
        }
        assert(rounds@.take(i as int) =~= rounds@);
        FlowResults { rounds, total, total_time, total_iterations }
    }
}


/// Bounded retries with a delay between attempts, doubled after each failure
/// when exponential backoff is asked for.
#[derive(Debug, Clone, Copy, PartialEq, Eq, Structural)]
pub struct RetryPolicy {
    pub max_attempts: usize,
    pub attempts: usize,
    /// Delay before the next attempt, in milliseconds.
    pub delay_ms: u64,
    pub exponential: bool,
}

impl RetryPolicy {
    /// A policy that allows `max_attempts` attempts, first waiting
    /// `delay_ms` after a failure.
    pub fn new(max_attempts: usize, delay_ms: u64, exponential: bool) -> (r: RetryPolicy)
        ensures
            r == (RetryPolicy { max_attempts, attempts: 0, delay_ms, exponential }),
    {
        RetryPolicy { max_attempts, attempts: 0, delay_ms, exponential }
    }

    /// Whether another attempt may be made.
    pub fn may_attempt(&self) -> (r: bool)
        ensures
            r == (self.attempts < self.max_attempts),
    {
        self.attempts < self.max_attempts
    }

    /// Records a failed attempt; returns how long to wait before the next
    /// one. The delay doubles (saturating) when backoff is exponential.
    pub fn on_failure(&mut self) -> (wait_ms: u64)
        requires
            old(self).attempts < old(self).max_attempts,
        ensures
            wait_ms == old(self).delay_ms,
            final(self).attempts == old(self).attempts + 1,
            final(self).max_attempts == old(self).max_attempts,
            final(self).exponential == old(self).exponential,
            final(self).delay_ms == if old(self).exponential {
                vstd::math::min(2 * old(self).delay_ms, u64::MAX as int) as u64
            } else {
                old(self).delay_ms
            },
    {
        let wait_ms = self.delay_ms;
        self.attempts = self.attempts + 1;
        if self.exponential {
            self.delay_ms = if self.delay_ms > u64::MAX / 2 {
                u64::MAX
            } else {
                2 * self.delay_ms
            };
        }
        wait_ms
    }
}

/// The error once every attempt has failed.
pub fn retries_exhausted() -> (e: TestrpcError)
    ensures
        e matches TestrpcError::ExecutionError(m) && m@ == "Max retries reached"@,
{
    TestrpcError::ExecutionError(String::from_str("Max retries reached"))
}

} // verus!
