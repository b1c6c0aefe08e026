//! The retry loop: how often an operation is tried, and how long the
//! pauses between the tries are.

use vstd::prelude::*;
use hyper::StatusCode;
use crate::config::RetryConfig;
use crate::outside::http::{as_u16, status_number};
use crate::outside::random::random_up_to;
use crate::text::{decimal, decimal_string, join2, join3};

verus! {

/// Whether a failed attempt is worth another one.
#[derive(Debug, Clone, Copy, PartialEq, Eq, Structural)]
pub enum RetryDecision {
    Retry,
    NoRetry,
}

/// Why a retry loop ended without a result.
#[derive(Debug, PartialEq, Eq)]
pub enum RetryError {
    MaxAttemptsExceeded(u32),
    NonRetryable(String),
}

/// What the retry loop does after a failed attempt.
#[derive(Debug, Clone, Copy, PartialEq, Eq, Structural)]
pub enum RetryStep {
    /// The failure is final.
    GiveUp,
    /// Pause for this many milliseconds, then try again.
    Backoff(u64),
}

/// `base`, doubled `times` times.
pub open spec fn doubled(base: nat, times: nat) -> nat
    decreases times,
{
    if times == 0 {
        base
    } else {
        2 * doubled(base, (times - 1) as nat)
    }
}

/// The pause before jitter that follows attempt number `attempt`
/// (counted from one): the base doubled once per earlier attempt, held
/// to the maximum.
pub open spec fn capped_backoff(base: u64, max: u64, attempt: u32) -> nat {
    if doubled(base as nat, (attempt - 1) as nat) <= max {
        doubled(base as nat, (attempt - 1) as nat)
    } else {
        max as nat
    }
}

/// The largest jitter that may be added to a pause of `capped`
/// milliseconds: a quarter of it.
pub open spec fn max_jitter(capped: nat) -> nat {
    capped / 4
}

/// The pause of `capped` milliseconds with `jitter` added, held to the
/// range of `u64`.
pub open spec fn with_jitter(capped: nat, jitter: nat) -> nat {
    if capped + jitter <= u64::MAX {
        capped + jitter
    } else {
        u64::MAX as nat
    }
}

/// Doubling more often gives no less.
pub proof fn lemma_doubled_grows(base: nat, a: nat, b: nat)
    requires
        a <= b,
    ensures
        doubled(base, a) <= doubled(base, b),
        base <= doubled(base, a),
    decreases b,
{
    if a < b {
        lemma_doubled_grows(base, a, (b - 1) as nat);
    } else if a > 0 {
        lemma_doubled_grows(base, (a - 1) as nat, (a - 1) as nat);
    }
}

/// Doubling `times` times is multiplying by the `times`-th power of two.
pub proof fn lemma_doubled_is_power(base: nat, times: nat)
    ensures
        doubled(base, times) == base * vstd::arithmetic::power2::pow2(times),
    decreases times,
{
    if times == 0 {
        vstd::arithmetic::power2::lemma2_to64();
    } else {
        vstd::arithmetic::power2::lemma_pow2_unfold(times);
        lemma_doubled_is_power(base, (times - 1) as nat);
        let p = vstd::arithmetic::power2::pow2((times - 1) as nat);
        assert(2 * (base * p) == base * (2 * p)) by (nonlinear_arith);
    }
}

/// Which HTTP status numbers are worth another attempt: 408, 429 and
/// every 5xx.
pub open spec fn retryable_code(code: u16) -> bool {
    code == 408 || code == 429 || (500 <= code < 600)
}

/// The policy for HTTP status numbers.
pub fn decide_for_code(code: u16) -> (d: RetryDecision)
    ensures
        d == (if retryable_code(code) {
            RetryDecision::Retry
        } else {
            RetryDecision::NoRetry
        }),
{
    if code == 408 || code == 429 || code == 500 || code == 502 || code == 503 || code == 504 {
        RetryDecision::Retry
    } else if 400 <= code && code < 500 {
        RetryDecision::NoRetry
    } else if 500 <= code && code < 600 {
        RetryDecision::Retry
    } else {
        RetryDecision::NoRetry
    }
}

/// Retries with exponential backoff and jitter, as configured.
#[derive(Debug, Clone, Copy)]
pub struct RetryStrategy {
    config: RetryConfig,
}

impl RetryStrategy {
    pub closed spec fn config(&self) -> RetryConfig {
        self.config
    }

    pub fn new(config: RetryConfig) -> (s: Self)
        ensures
            s.config() == config,
    {
        RetryStrategy { config }
    }

    /// Whether attempt number `attempt` is the last one allowed.
    pub open spec fn is_last(&self, attempt: u32) -> bool {
        attempt >= self.config().max_attempts
    }

    /// The pause before jitter after attempt number `attempt`.
    pub open spec fn pause_after(&self, attempt: u32) -> nat {
        capped_backoff(self.config().backoff_base_ms, self.config().backoff_max_ms, attempt)
    }

    /// What follows a failure of attempt number `attempt` for which the
    /// policy gave `decision`, where `jitter` milliseconds are added to
    /// the pause.
    pub open spec fn step(&self, attempt: u32, decision: RetryDecision, jitter: u64) -> RetryStep {
        if decision == RetryDecision::NoRetry || self.is_last(attempt) {
            RetryStep::GiveUp
        } else {
            RetryStep::Backoff(with_jitter(self.pause_after(attempt), jitter as nat) as u64)
        }
    }

    /// The pause before jitter after attempt number `attempt`, in
    /// milliseconds.
    pub fn capped(&self, attempt: u32) -> (ms: u64)
        requires
            attempt >= 1,
        ensures
            ms == self.pause_after(attempt),
    {
        let base = self.config.backoff_base_ms;
        let max = self.config.backoff_max_ms;
        if base == 0 {
            proof {
                lemma_doubled_zero((attempt - 1) as nat);
            }
            return 0;
        }
        if base > max {
            proof {
                lemma_doubled_grows(base as nat, (attempt - 1) as nat, (attempt - 1) as nat);
            }
            return max;
        }
        let mut value: u64 = base;
        let mut k: u32 = 1;
        while k < attempt
            invariant
                1 <= k <= attempt,
                base == self.config().backoff_base_ms,
                max == self.config().backoff_max_ms,
                value == doubled(base as nat, (k - 1) as nat),
                value <= max,
                value >= 1,
            decreases attempt - k,
        {
            if value > max - value {
                proof {
                    assert(doubled(base as nat, k as nat) == 2 * doubled(
                        base as nat,
                        (k - 1) as nat,
                    ));
                    lemma_doubled_grows(base as nat, k as nat, (attempt - 1) as nat);
                }
                return max;
            }
            value = value + value;
            k = k + 1;
        }
        value
    }

    /// The pause after attempt number `attempt` with `jitter` added.
    pub fn backoff_with_jitter(&self, attempt: u32, jitter: u64) -> (ms: u64)
        requires
            attempt >= 1,
        ensures
            ms == with_jitter(self.pause_after(attempt), jitter as nat),
    {
        let capped = self.capped(attempt);
        if jitter > u64::MAX - capped {
            u64::MAX
        } else {
            capped + jitter
        }
    }

    /// The pause after attempt number `attempt`: exponential backoff
    /// with a random jitter of at most a quarter on top.
    pub fn calculate_backoff(&self, attempt: u32) -> (ms: u64)
        requires
            attempt >= 1,
        ensures
            self.pause_after(attempt) <= ms,
            4 * ms <= 5 * self.pause_after(attempt),
            exists|jitter: u64|
                jitter <= max_jitter(self.pause_after(attempt)) && ms == #[trigger] with_jitter(
                    self.pause_after(attempt),
                    jitter as nat,
                ),
    {
        let capped = self.capped(attempt);
        let jitter = random_up_to(capped / 4);
        let ms = self.backoff_with_jitter(attempt, jitter);
        assert(ms == with_jitter(self.pause_after(attempt), jitter as nat));
        ms
    }

    /// What follows a failure of attempt number `attempt` for which the
    /// policy gave `decision`, with `jitter` milliseconds to add.
    pub fn next_step(&self, attempt: u32, decision: RetryDecision, jitter: u64) -> (s: RetryStep)
        requires
            attempt >= 1,
        ensures
            s == self.step(attempt, decision, jitter),
    {
        match decision {
            RetryDecision::NoRetry => RetryStep::GiveUp,
            RetryDecision::Retry => {
                if attempt >= self.config.max_attempts {
                    RetryStep::GiveUp
                } else {
                    RetryStep::Backoff(self.backoff_with_jitter(attempt, jitter))
                }
            },
        }
    }

    /// What follows a failure of attempt number `attempt` when every
    /// failure is worth another attempt: either the attempts are used up,
    /// or a pause with a random jitter.
    pub fn after_failure(&self, attempt: u32) -> (s: RetryStep)
        requires
            attempt >= 1,
        ensures
            exists|jitter: u64|
                jitter <= max_jitter(self.pause_after(attempt)) && s == #[trigger] self.step(
                    attempt,
                    RetryDecision::Retry,
                    jitter,
                ),
    {
        self.after_decision(attempt, RetryDecision::Retry)
    }

    /// What follows a failure of attempt number `attempt` for which the
    /// policy gave `decision`: the end for a failure that is not worth
    /// another attempt or that used up the attempts, else a pause with a
    /// random jitter.
    pub fn after_decision(&self, attempt: u32, decision: RetryDecision) -> (s: RetryStep)
        requires
            attempt >= 1,
        ensures
            exists|jitter: u64|
                jitter <= max_jitter(self.pause_after(attempt)) && s == #[trigger] self.step(
                    attempt,
                    decision,
                    jitter,
                ),
    {
        let capped = self.capped(attempt);
        let jitter = random_up_to(capped / 4);
        let s = self.next_step(attempt, decision, jitter);
        assert(s == self.step(attempt, decision, jitter));
        s
    }

    /// Whether a failure of attempt number `attempt` with this decision
    /// ends the loop.
    pub open spec fn gives_up(&self, attempt: u32, decision: RetryDecision) -> bool {
        decision == RetryDecision::NoRetry || self.is_last(attempt)
    }

    /// Runs `op` until it succeeds or the attempts are used up, with a
    /// pause between attempts, and returns what the last attempt gave
    /// together with the number of attempts made. `pause` is handed the
    /// milliseconds to wait. A further attempt is made only after `op`
    /// has failed, and only after a pause within the backoff bounds.
    pub fn execute<T, E, F: Fn() -> Result<T, E>, P: Fn(u64)>(&self, op: F, pause: P) -> (out: (
        Result<T, E>,
        u32,
    ))
        requires
            op.requires(()),
            forall|ms: u64| pause.requires((ms,)),
        ensures
            op.ensures((), out.0),
            1 <= out.1,
            out.1 <= self.config().max_attempts || out.1 == 1,
            out.0 is Err ==> self.is_last(out.1),
            out.1 > 1 ==> exists|e: E| #[trigger] op.ensures((), Err::<T, E>(e)),
            out.1 > 1 ==> exists|ms: u64|
                #[trigger] pause.ensures((ms,), ()) && self.pause_after(1) <= ms && 4 * ms <= 5
                    * self.pause_after(1),
    {
        let always = |error: &E| -> (d: RetryDecision)
            ensures
                d == RetryDecision::Retry,
            { RetryDecision::Retry };
        let out = self.execute_with_decision(op, always, pause);
        proof {
            if out.1 > 1 {
                let e = choose|e: E| #[trigger]
                    op.ensures((), Err::<T, E>(e)) && always.ensures((&e,), RetryDecision::Retry);
                assert(op.ensures((), Err::<T, E>(e)));
            }
        }
        out
    }

    /// As `execute`, but every failure is first shown to `should_retry`,
    /// and one that it finds not worth another attempt ends the loop at
    /// once: a further attempt is made only after a failure that
    /// `should_retry` found worth it.
    pub fn execute_with_decision<
        T,
        E,
        F: Fn() -> Result<T, E>,
        D: Fn(&E) -> RetryDecision,
        P: Fn(u64),
    >(&self, op: F, should_retry: D, pause: P) -> (out: (Result<T, E>, u32))
        requires
            op.requires(()),
            forall|e: &E| should_retry.requires((e,)),
            forall|ms: u64| pause.requires((ms,)),
        ensures
            op.ensures((), out.0),
            1 <= out.1,
            out.1 <= self.config().max_attempts || out.1 == 1,
            out.0 is Err ==> self.is_last(out.1) || should_retry.ensures(
                (&out.0->Err_0,),
                RetryDecision::NoRetry,
            ),
            out.1 > 1 ==> exists|e: E| #[trigger]
                op.ensures((), Err::<T, E>(e)) && should_retry.ensures((&e,), RetryDecision::Retry),
            out.1 > 1 ==> exists|ms: u64|
                #[trigger] pause.ensures((ms,), ()) && self.pause_after(1) <= ms && 4 * ms <= 5
                    * self.pause_after(1),
    {
        let mut attempt: u32 = 1;
        loop
            invariant
                1 <= attempt,
                attempt <= self.config().max_attempts || attempt == 1,
                op.requires(()),
                forall|e: &E| should_retry.requires((e,)),
                forall|ms: u64| pause.requires((ms,)),
                attempt > 1 ==> exists|e: E| #[trigger]
                    op.ensures((), Err::<T, E>(e)) && should_retry.ensures(
                        (&e,),
                        RetryDecision::Retry,
                    ),
                attempt > 1 ==> exists|ms: u64|
                    #[trigger] pause.ensures((ms,), ()) && self.pause_after(1) <= ms && 4 * ms
                        <= 5 * self.pause_after(1),
            decreases u32::MAX - attempt,
        {
            let got = op();
            match got {
                Ok(value) => {
                    return (Ok(value), attempt);
                },
                Err(error) => {
                    let decision = should_retry(&error);
                    let step = self.after_decision(attempt, decision);
                    match step {
                        RetryStep::GiveUp => {
                            return (Err(error), attempt);
                        },
                        RetryStep::Backoff(ms) => {
                            pause(ms);
                            proof {
                                assert(decision == RetryDecision::Retry);
                                assert(op.ensures((), Err::<T, E>(error)));
                                assert(should_retry.ensures((&error,), RetryDecision::Retry));
                                assert(pause.ensures((ms,), ()));
                                if attempt == 1 {
                                    assert(self.pause_after(1) <= ms && 4 * ms <= 5
                                        * self.pause_after(1));
                                }
                            }
                            attempt = attempt + 1;
                        },
                    }
                },
            }
        }
    }

    /// Retries an operation whose every failure is worth another
    /// attempt, as a failed connection is.
    pub fn retry_response<T, E, F: Fn() -> Result<T, E>, P: Fn(u64)>(&self, op: F, pause: P) -> (out:
        (Result<T, E>, u32))
        requires
            op.requires(()),
            forall|ms: u64| pause.requires((ms,)),
        ensures
            op.ensures((), out.0),
            1 <= out.1,
            out.1 <= self.config().max_attempts || out.1 == 1,
            out.0 is Err ==> self.is_last(out.1),
            out.1 > 1 ==> exists|e: E| #[trigger] op.ensures((), Err::<T, E>(e)),
            out.1 > 1 ==> exists|ms: u64|
                #[trigger] pause.ensures((ms,), ()) && self.pause_after(1) <= ms && 4 * ms <= 5
                    * self.pause_after(1),
    {
        self.execute(op, pause)
    }

    /// Whether a response with this status is worth another attempt.
    pub fn is_retryable_status(status: StatusCode) -> (d: RetryDecision)
        ensures
            d == (if retryable_code(status_number(status)) {
                RetryDecision::Retry
            } else {
                RetryDecision::NoRetry
            }),
    {
        decide_for_code(as_u16(&status))
    }
}

/// Doubling nothing gives nothing.
pub proof fn lemma_doubled_zero(times: nat)
    ensures
        doubled(0, times) == 0,
    decreases times,
{
    if times > 0 {
        lemma_doubled_zero((times - 1) as nat);
    }
}

impl RetryError {
    /// The text of the error.
    pub open spec fn text(&self) -> Seq<char> {
        match self {
            RetryError::MaxAttemptsExceeded(n) => "Maximum retry attempts ("@ + decimal(*n as nat)
                + ") exceeded"@,
            RetryError::NonRetryable(why) => "Non-retryable error: "@ + why@,
        }
    }

    /// The text of the error.
    pub fn message(&self) -> (s: String)
        ensures
            s@ == self.text(),
    {
        match self {
            RetryError::MaxAttemptsExceeded(n) => {
                let digits = decimal_string(*n as u64);
                join3("Maximum retry attempts (", digits.as_str(), ") exceeded")
            },
            RetryError::NonRetryable(why) => join2("Non-retryable error: ", why.as_str()),
        }
    }
}

/// How one attempt ended: with a result, or with a failure and the
/// policy's decision on it.
pub enum AttemptEnd {
    Success,
    Failure(RetryDecision),
}

impl RetryStrategy {
    /// The number of attempts that the retry loop makes from attempt
    /// number `attempt` on, when the attempts end as `ends` says, one
    /// entry per attempt made.
    pub open spec fn attempts_from(&self, ends: Seq<AttemptEnd>, attempt: nat) -> nat
        decreases ends.len() + 1 - attempt,
    {
        if attempt < 1 || attempt > ends.len() {
            0
        } else {
            match ends[attempt - 1] {
                AttemptEnd::Success => 1,
                AttemptEnd::Failure(decision) => if decision == RetryDecision::NoRetry || attempt
                    >= self.config().max_attempts {
                    1
                } else {
                    1 + self.attempts_from(ends, attempt + 1)
                },
            }
        }
    }
}

/// Retry bound: however the attempts end, the loop makes no more than
/// `max_attempts` of them, and no more than one where `max_attempts` is
/// less than one.
pub proof fn lemma_retry_bound(s: RetryStrategy, ends: Seq<AttemptEnd>)
    ensures
        s.attempts_from(ends, 1) <= s.config().max_attempts || s.attempts_from(ends, 1) <= 1,
{
    lemma_attempts_left(s, ends, 1);
}

proof fn lemma_attempts_left(s: RetryStrategy, ends: Seq<AttemptEnd>, attempt: nat)
    requires
        attempt >= 1,
    ensures
        s.attempts_from(ends, attempt) <= 1 || s.attempts_from(ends, attempt) + attempt
            <= s.config().max_attempts + 1,
    decreases ends.len() + 1 - attempt,
{
    if attempt <= ends.len() {
        lemma_attempts_left(s, ends, attempt + 1);
    }
}

/// Backoff bounds: with a jitter of at most a quarter of the capped
/// pause, the pause after attempt `i` is at least
/// `min(base * 2^(i-1), max)` and at most five quarters of it.
pub proof fn lemma_backoff_bounds(s: RetryStrategy, attempt: u32, jitter: u64)
    requires
        attempt >= 1,
        jitter <= max_jitter(s.pause_after(attempt)),
    ensures
        s.pause_after(attempt) <= with_jitter(s.pause_after(attempt), jitter as nat),
        4 * with_jitter(s.pause_after(attempt), jitter as nat) <= 5 * s.pause_after(attempt),
        s.pause_after(attempt) <= s.config().backoff_max_ms,
        s.pause_after(attempt) == vstd::math::min(
            (s.config().backoff_base_ms * vstd::arithmetic::power2::pow2((attempt - 1) as nat)) as int,
            s.config().backoff_max_ms as int,
        ),
{
    lemma_doubled_is_power(s.config().backoff_base_ms as nat, (attempt - 1) as nat);
}

/// The capped pause never shrinks from one attempt to the next.
pub proof fn lemma_backoff_grows(s: RetryStrategy, a: u32, b: u32)
    requires
        1 <= a <= b,
    ensures
        s.pause_after(a) <= s.pause_after(b),
{
    lemma_doubled_grows(s.config().backoff_base_ms as nat, (a - 1) as nat, (b - 1) as nat);
}

/// A step that does not give up names a pause within the backoff bounds.
pub proof fn lemma_step_bounds(s: RetryStrategy, attempt: u32, decision: RetryDecision, jitter: u64)
    requires
        attempt >= 1,
        jitter <= max_jitter(s.pause_after(attempt)),
    ensures
        s.step(attempt, decision, jitter) is GiveUp <==> s.gives_up(attempt, decision),
        s.step(attempt, decision, jitter) matches RetryStep::Backoff(ms) ==> s.pause_after(attempt)
            <= ms && 4 * ms <= 5 * s.pause_after(attempt) && attempt < s.config().max_attempts,
{
}

} // verus!
