//! A three-state failure detector that gates the requests to one backend.

use vstd::prelude::*;
use tokio::time::Instant;
use crate::config::CircuitBreakerConfig;
use crate::outside::clock::{elapsed_secs, instant_now};

verus! {

/// The state of a circuit breaker.
#[derive(Debug, Clone, Copy, PartialEq, Eq, Structural)]
pub enum CircuitBreakerState {
    /// Requests pass; consecutive failures are counted.
    Closed,
    /// Requests are rejected until the cool-down has passed.
    Open,
    /// Requests pass on trial; successes are counted.
    HalfOpen,
}

/// A snapshot of a breaker's counters.
#[derive(Debug, Clone, Copy, PartialEq, Eq, Structural)]
pub struct CircuitBreakerMetrics {
    pub total_requests: u64,
    pub failed_requests: u64,
    pub failure_count: u32,
    pub success_count: u32,
}

/// `n + 1`, or `n` where that does not fit.
pub open spec fn count_succ(n: u32) -> u32 {
    if n < u32::MAX {
        (n + 1) as u32
    } else {
        n
    }
}

/// `n + 1` modulo 2^64.
pub open spec fn total_succ(n: u64) -> u64 {
    if n < u64::MAX {
        (n + 1) as u64
    } else {
        0
    }
}

/// The failure detector of one backend.
pub struct CircuitBreaker {
    config: CircuitBreakerConfig,
    state: CircuitBreakerState,
    failure_count: u32,
    success_count: u32,
    last_failure_time: Option<Instant>,
    total_requests: u64,
    failed_requests: u64,
}

/// What a breaker holds, as mathematical values.
pub ghost struct BreakerView {
    pub config: CircuitBreakerConfig,
    pub state: CircuitBreakerState,
    pub failure_count: u32,
    pub success_count: u32,
    pub last_failure_time: Option<Instant>,
    pub total_requests: u64,
    pub failed_requests: u64,
}

impl BreakerView {
    /// A new breaker: closed, nothing counted.
    pub open spec fn initial(config: CircuitBreakerConfig) -> BreakerView {
        BreakerView {
            config,
            state: CircuitBreakerState::Closed,
            failure_count: 0,
            success_count: 0,
            last_failure_time: None,
            total_requests: 0,
            failed_requests: 0,
        }
    }

    /// The breaker opened at `now`: the trial successes are forgotten.
    pub open spec fn opened(self, now: Instant) -> BreakerView {
        BreakerView {
            state: CircuitBreakerState::Open,
            last_failure_time: Some(now),
            success_count: 0,
            ..self
        }
    }

    /// The breaker went on trial: both counts start over.
    pub open spec fn half_opened(self) -> BreakerView {
        BreakerView {
            state: CircuitBreakerState::HalfOpen,
            failure_count: 0,
            success_count: 0,
            ..self
        }
    }

    /// The breaker closed: counts and failure time are cleared.
    pub open spec fn closed(self) -> BreakerView {
        BreakerView {
            state: CircuitBreakerState::Closed,
            failure_count: 0,
            success_count: 0,
            last_failure_time: None,
            ..self
        }
    }

    /// Whether a request may pass when `elapsed` whole seconds have gone
    /// by since the last failure. Closed and half-open breakers let every
    /// request pass; an open one does once the cool-down is over.
    pub open spec fn permits(self, elapsed: u64) -> bool {
        match self.state {
            CircuitBreakerState::Closed => true,
            CircuitBreakerState::HalfOpen => true,
            CircuitBreakerState::Open => self.last_failure_time is Some && elapsed
                >= self.config.timeout_secs,
        }
    }

    /// The state after a permit check made `elapsed` whole seconds after
    /// the last failure: an open breaker whose cool-down is over goes on
    /// trial, everything else stays.
    pub open spec fn after_permit(self, elapsed: u64) -> BreakerView {
        if self.state == CircuitBreakerState::Open && self.permits(elapsed) {
            self.half_opened()
        } else {
            self
        }
    }

    /// The state after a request succeeded.
    pub open spec fn success(self) -> BreakerView {
        let counted = BreakerView { total_requests: total_succ(self.total_requests), ..self };
        match self.state {
            CircuitBreakerState::Closed => BreakerView { failure_count: 0, ..counted },
            CircuitBreakerState::HalfOpen => if count_succ(self.success_count)
                >= self.config.success_threshold {
                counted.closed()
            } else {
                BreakerView { success_count: count_succ(self.success_count), ..counted }
            },
            CircuitBreakerState::Open => counted.closed(),
        }
    }

    /// The state after a request failed at `now`.
    pub open spec fn failure(self, now: Instant) -> BreakerView {
        let counted = BreakerView {
            total_requests: total_succ(self.total_requests),
            failed_requests: total_succ(self.failed_requests),
            ..self
        };
        match self.state {
            CircuitBreakerState::Closed => {
                let seen = BreakerView { failure_count: count_succ(self.failure_count), ..counted };
                if seen.failure_count >= self.config.failure_threshold {
                    seen.opened(now)
                } else {
                    seen
                }
            },
            CircuitBreakerState::HalfOpen => counted.opened(now),
            CircuitBreakerState::Open => BreakerView { last_failure_time: Some(now), ..counted },
        }
    }

    /// What holds of every breaker that started closed and was driven by
    /// permit checks, successes and failures: an open breaker knows when
    /// it last failed, a closed one has not reached its failure threshold
    /// and one on trial has not reached its success threshold.
    pub open spec fn consistent(self) -> bool {
        match self.state {
            CircuitBreakerState::Closed => self.failure_count < self.config.failure_threshold
                || self.failure_count == 0,
            CircuitBreakerState::Open => self.last_failure_time is Some,
            CircuitBreakerState::HalfOpen => self.success_count < self.config.success_threshold
                || self.success_count == 0,
        }
    }
}

impl View for CircuitBreaker {
    type V = BreakerView;

    closed spec fn view(&self) -> BreakerView {
        BreakerView {
            config: self.config,
            state: self.state,
            failure_count: self.failure_count,
            success_count: self.success_count,
            last_failure_time: self.last_failure_time,
            total_requests: self.total_requests,
            failed_requests: self.failed_requests,
        }
    }
}

impl CircuitBreaker {
    /// A closed breaker with the given thresholds and cool-down.
    pub fn new(config: CircuitBreakerConfig) -> (b: Self)
        ensures
            b@ == BreakerView::initial(config),
    {
        CircuitBreaker {
            config,
            state: CircuitBreakerState::Closed,
            failure_count: 0,
            success_count: 0,
            last_failure_time: None,
            total_requests: 0,
            failed_requests: 0,
        }
    }

    /// Decides whether a request may pass, given the whole seconds that
    /// have gone by since the last failure, and puts an open breaker on
    /// trial where its cool-down is over.
    pub fn permit_after(&mut self, elapsed: u64) -> (permitted: bool)
        ensures
            permitted == old(self)@.permits(elapsed),
            final(self)@ == old(self)@.after_permit(elapsed),
    {
        match self.state {
            CircuitBreakerState::Closed => true,
            CircuitBreakerState::HalfOpen => true,
            CircuitBreakerState::Open => {
                if self.last_failure_time.is_some() && elapsed >= self.config.timeout_secs {
                    self.transition_to_half_open();
                    true
                } else {
                    false
                }
            },
        }
    }

    /// Decides whether a request may pass now. For an open breaker the
    /// time since its last failure is read from the clock.
    pub fn call_permitted(&mut self) -> (permitted: bool)
        ensures
            exists|elapsed: u64|
                permitted == #[trigger] old(self)@.permits(elapsed) && final(self)@ == old(
                    self,
                )@.after_permit(elapsed),
    {
        let elapsed: u64 = match &self.last_failure_time {
            Some(since) => elapsed_secs(since),
            None => 0,
        };
        let ghost before = self@;
        let permitted = self.permit_after(elapsed);
        assert(permitted == before.permits(elapsed));
        permitted
    }

    /// Records that a request succeeded.
    pub fn record_success(&mut self)
        ensures
            final(self)@ == old(self)@.success(),
    {
        self.total_requests = self.total_requests.wrapping_add(1);
        match self.state {
            CircuitBreakerState::Closed => {
                self.failure_count = 0;
            },
            CircuitBreakerState::HalfOpen => {
                let count = if self.success_count < u32::MAX {
                    self.success_count + 1
                } else {
                    self.success_count
                };
                if count >= self.config.success_threshold {
                    self.transition_to_closed();
                } else {
                    self.success_count = count;
                }
            },
            CircuitBreakerState::Open => {
                self.transition_to_closed();
            },
        }
    }

    /// Records that a request failed at `now`.
    pub fn record_failure_at(&mut self, now: Instant)
        ensures
            final(self)@ == old(self)@.failure(now),
    {
        self.total_requests = self.total_requests.wrapping_add(1);
        self.failed_requests = self.failed_requests.wrapping_add(1);
        match self.state {
            CircuitBreakerState::Closed => {
                if self.failure_count < u32::MAX {
                    self.failure_count = self.failure_count + 1;
                }
                if self.failure_count >= self.config.failure_threshold {
                    self.transition_to_open(now);
                }
            },
            CircuitBreakerState::HalfOpen => {
                self.transition_to_open(now);
            },
            CircuitBreakerState::Open => {
                self.last_failure_time = Some(now);
            },
        }
    }

    /// Records that a request failed just now.
    pub fn record_failure(&mut self)
        ensures
            exists|now: Instant| final(self)@ == #[trigger] old(self)@.failure(now),
    {
        let now = instant_now();
        self.record_failure_at(now);
    }

    fn transition_to_open(&mut self, now: Instant)
        ensures
            final(self)@ == old(self)@.opened(now),
    {
        self.state = CircuitBreakerState::Open;
        self.last_failure_time = Some(now);
        self.success_count = 0;
    }

    fn transition_to_half_open(&mut self)
        ensures
            final(self)@ == old(self)@.half_opened(),
    {
        self.state = CircuitBreakerState::HalfOpen;
        self.failure_count = 0;
        self.success_count = 0;
    }

    fn transition_to_closed(&mut self)
        ensures
            final(self)@ == old(self)@.closed(),
    {
        self.state = CircuitBreakerState::Closed;
        self.failure_count = 0;
        self.success_count = 0;
        self.last_failure_time = None;
    }

    pub fn get_state(&self) -> (s: CircuitBreakerState)
        ensures
            s == self@.state,
    {
        self.state
    }

    pub fn get_metrics(&self) -> (m: CircuitBreakerMetrics)
        ensures
            m == (CircuitBreakerMetrics {
                total_requests: self@.total_requests,
                failed_requests: self@.failed_requests,
                failure_count: self@.failure_count,
                success_count: self@.success_count,
            }),
    {
        CircuitBreakerMetrics {
            total_requests: self.total_requests,
            failed_requests: self.failed_requests,
            failure_count: self.failure_count,
            success_count: self.success_count,
        }
    }
}

impl BreakerView {
    /// The state after a run of failures at the given times, with nothing
    /// in between.
    pub open spec fn after_failures(self, times: Seq<Instant>) -> BreakerView
        decreases times.len(),
    {
        if times.len() == 0 {
            self
        } else {
            self.after_failures(times.drop_last()).failure(times.last())
        }
    }

    /// The state after `n` successes with nothing in between.
    pub open spec fn after_successes(self, n: nat) -> BreakerView
        decreases n,
    {
        if n == 0 {
            self
        } else {
            self.after_successes((n - 1) as nat).success()
        }
    }
}

/// A new breaker is consistent, and permit checks, successes and failures
/// keep a breaker consistent.
pub proof fn lemma_consistency_is_kept(
    v: BreakerView,
    config: CircuitBreakerConfig,
    elapsed: u64,
    now: Instant,
)
    ensures
        BreakerView::initial(config).consistent(),
        v.consistent() ==> v.after_permit(elapsed).consistent(),
        v.consistent() ==> v.success().consistent(),
        v.consistent() ==> v.failure(now).consistent(),
{
}

/// No transition changes the thresholds or the cool-down of a breaker.
pub proof fn lemma_config_is_fixed(v: BreakerView, elapsed: u64, now: Instant)
    ensures
        v.after_permit(elapsed).config == v.config,
        v.success().config == v.config,
        v.failure(now).config == v.config,
{
}

/// A closed breaker with no failure counted stays closed while fewer
/// than `failure_threshold` failures follow one another, counting them,
/// and is open after exactly `failure_threshold` of them.
pub proof fn lemma_opens_at_failure_threshold(v: BreakerView, times: Seq<Instant>)
    requires
        v.state == CircuitBreakerState::Closed,
        v.failure_count == 0,
        v.config.failure_threshold >= 1,
        times.len() <= v.config.failure_threshold,
    ensures
        times.len() < v.config.failure_threshold ==> v.after_failures(times).state
            == CircuitBreakerState::Closed,
        times.len() < v.config.failure_threshold ==> v.after_failures(times).failure_count
            == times.len(),
        times.len() == v.config.failure_threshold ==> v.after_failures(times).state
            == CircuitBreakerState::Open,
        times.len() == v.config.failure_threshold ==> v.after_failures(times).last_failure_time
            == Some(times.last()),
        v.after_failures(times).config == v.config,
    decreases times.len(),
{
    if times.len() > 0 {
        lemma_opens_at_failure_threshold(v, times.drop_last());
    }
}

/// A success in the closed state starts the count of failures over, so
/// only failures that follow one another open the breaker. It is
/// counted as one more request and as no failure.
pub proof fn lemma_success_resets_failures(v: BreakerView)
    requires
        v.state == CircuitBreakerState::Closed,
    ensures
        v.success().state == CircuitBreakerState::Closed,
        v.success().failure_count == 0,
        v.success().failed_requests == v.failed_requests,
        v.success().total_requests == total_succ(v.total_requests),
        v.total_requests < u64::MAX ==> v.success().total_requests == v.total_requests + 1,
        v.success().config == v.config,
{
}

/// Every success and every failure is counted as one more request, and
/// every failure as one more failed request, whatever the state.
pub proof fn lemma_requests_are_counted(v: BreakerView, now: Instant)
    ensures
        v.success().total_requests == total_succ(v.total_requests),
        v.success().failed_requests == v.failed_requests,
        v.failure(now).total_requests == total_succ(v.total_requests),
        v.failure(now).failed_requests == total_succ(v.failed_requests),
{
}

/// An open breaker rejects requests until `timeout_secs` have gone by
/// since its last failure; the first permit check after that lets the
/// request pass and puts the breaker on trial with both counts at zero.
pub proof fn lemma_open_until_cooldown(v: BreakerView, elapsed: u64)
    requires
        v.state == CircuitBreakerState::Open,
        v.last_failure_time is Some,
    ensures
        elapsed < v.config.timeout_secs ==> !v.permits(elapsed) && v.after_permit(elapsed) == v,
        elapsed >= v.config.timeout_secs ==> v.permits(elapsed),
        elapsed >= v.config.timeout_secs ==> v.after_permit(elapsed).state
            == CircuitBreakerState::HalfOpen,
        elapsed >= v.config.timeout_secs ==> v.after_permit(elapsed).success_count == 0,
        elapsed >= v.config.timeout_secs ==> v.after_permit(elapsed).failure_count == 0,
{
}

/// Closed and half-open breakers let every request pass, and asking them
/// changes nothing: a breaker on trial is not used up by one request.
pub proof fn lemma_closed_and_trial_permit(v: BreakerView, elapsed: u64)
    requires
        v.state != CircuitBreakerState::Open,
    ensures
        v.permits(elapsed),
        v.after_permit(elapsed) == v,
{
}

/// A breaker on trial with no success counted stays on trial while fewer
/// than `success_threshold` successes follow one another, counting them,
/// and is closed, with everything cleared, after exactly
/// `success_threshold` of them.
pub proof fn lemma_closes_at_success_threshold(v: BreakerView, n: nat)
    requires
        v.state == CircuitBreakerState::HalfOpen,
        v.success_count == 0,
        v.config.success_threshold >= 1,
        n <= v.config.success_threshold,
    ensures
        n < v.config.success_threshold ==> v.after_successes(n).state
            == CircuitBreakerState::HalfOpen,
        n < v.config.success_threshold ==> v.after_successes(n).success_count == n,
        n == v.config.success_threshold ==> v.after_successes(n).state
            == CircuitBreakerState::Closed,
        n == v.config.success_threshold ==> v.after_successes(n).failure_count == 0,
        n == v.config.success_threshold ==> v.after_successes(n).last_failure_time is None,
        v.after_successes(n).config == v.config,
    decreases n,
{
    if n > 0 {
        lemma_closes_at_success_threshold(v, (n - 1) as nat);
    }
}

/// Any failure of a breaker on trial opens it again, at the time of that
/// failure.
pub proof fn lemma_trial_failure_reopens(v: BreakerView, now: Instant)
    requires
        v.state == CircuitBreakerState::HalfOpen,
    ensures
        v.failure(now).state == CircuitBreakerState::Open,
        v.failure(now).last_failure_time == Some(now),
        v.failure(now).success_count == 0,
{
}

/// A failure that arrives while the breaker is open keeps it open and
/// restarts the cool-down.
pub proof fn lemma_late_failure_refreshes(v: BreakerView, now: Instant)
    requires
        v.state == CircuitBreakerState::Open,
    ensures
        v.failure(now).state == CircuitBreakerState::Open,
        v.failure(now).last_failure_time == Some(now),
{
}

} // verus!
