//! The health checker: it turns the outcomes of periodic probes into
//! health state, and once per round rebuilds the healthy view from it.

use vstd::prelude::*;
use crate::config::HealthCheckConfig;
use crate::outside::clock::utc_now_millis;
use crate::outside::urls::{as_text, join, url_join};
use crate::proxy::backend::{Backend, BackendView};
use crate::proxy::pool::{healthy_ids, BackendPool};
use crate::text::{decimal, decimal_string, join2};

verus! {

/// What one probe found.
#[derive(Debug, PartialEq, Eq)]
pub struct HealthCheckResult {
    pub backend_id: String,
    pub healthy: bool,
    pub response_time_ms: u64,
    pub error: Option<String>,
}

/// How a probe request ended.
#[derive(Debug, PartialEq, Eq)]
pub enum ProbeOutcome {
    /// A response arrived, with this status number.
    Status(u16),
    /// The request failed before a response arrived.
    Failed(String),
    /// No response arrived before the deadline.
    TimedOut,
}

/// A backend crossed a stability threshold.
#[derive(Debug, Clone, Copy, PartialEq, Eq, Structural)]
pub enum HealthTransition {
    BecameHealthy,
    BecameUnhealthy,
}

/// Why a probe could not be made.
#[derive(Debug, Clone, Copy, PartialEq, Eq, Structural)]
pub enum ProbeError {
    /// The health path does not resolve against the backend's URL.
    InvalidUrl,
}

/// The result of a round of probes.
#[derive(Debug, Clone, Copy, PartialEq, Eq, Structural)]
pub struct RoundSummary {
    /// Probes that found their backend healthy.
    pub healthy: usize,
    /// Probes that found their backend unhealthy or could not be made.
    pub unhealthy: usize,
    /// Backends in the healthy view after the rebuild.
    pub healthy_backends: usize,
    /// Backends in the pool.
    pub total_backends: usize,
}

/// What the checker's loop is woken by.
#[derive(Debug, Clone, Copy, PartialEq, Eq, Structural)]
pub enum CheckerEvent {
    /// The interval timer fired.
    Tick,
    /// The shutdown signal changed, to this value.
    ShutdownChanged(bool),
}

/// What the checker's loop does next.
#[derive(Debug, Clone, Copy, PartialEq, Eq, Structural)]
pub enum CheckerAction {
    /// Probe every backend, then finish the round.
    RunRound,
    /// Go on waiting.
    Wait,
    /// Leave the loop.
    Stop,
}

/// A probe finds a backend healthy exactly where a response with a 2xx
/// status arrived.
pub open spec fn outcome_is_healthy(outcome: ProbeOutcome) -> bool {
    outcome matches ProbeOutcome::Status(code) && 200 <= code < 300
}

/// The text that explains an unhealthy outcome.
pub open spec fn outcome_error(outcome: ProbeOutcome) -> Option<Seq<char>> {
    match outcome {
        ProbeOutcome::Status(code) => if 200 <= code < 300 {
            None
        } else {
            Some("HTTP "@ + decimal(code as nat))
        },
        ProbeOutcome::Failed(why) => Some(why@),
        ProbeOutcome::TimedOut => Some("Request timeout"@),
    }
}

/// The threshold crossing that a probe makes known, if any: a backend
/// that was not healthy and now has a streak of `healthy_threshold`
/// healthy probes became healthy; one that was healthy and now has a
/// streak of `unhealthy_threshold` unhealthy probes became unhealthy.
pub open spec fn crossing(
    config: HealthCheckConfig,
    was_healthy: bool,
    healthy: bool,
    after: BackendView,
) -> Option<HealthTransition> {
    if healthy {
        if after.consecutive_successes >= config.healthy_threshold && !was_healthy {
            Some(HealthTransition::BecameHealthy)
        } else {
            None
        }
    } else {
        if after.consecutive_failures >= config.unhealthy_threshold && was_healthy {
            Some(HealthTransition::BecameUnhealthy)
        } else {
            None
        }
    }
}

/// What a round of probes does to one backend: a backend for which no
/// probe URL can be made stays as it is; every other backend takes the
/// verdict of what `probe` gave when it was asked the backend's probe
/// URL.
pub open spec fn round_effect<F: Fn(&str) -> (ProbeOutcome, u64)>(
    config: HealthCheckConfig,
    probe: F,
    before: BackendView,
    after: BackendView,
) -> bool {
    match url_join(before.url, config.path@) {
        None => after == before,
        Some(target) => exists|url: &str, outcome: ProbeOutcome, ms: u64, now: i64|
            url@ == target && #[trigger] probe.ensures((url,), (outcome, ms)) && after
                == #[trigger] before.probe(outcome_is_healthy(outcome), now),
    }
}

/// The number of backends that a round found healthy: those that were
/// probed and are healthy afterwards.
pub open spec fn found_healthy(
    config: HealthCheckConfig,
    before: Seq<BackendView>,
    after: Seq<BackendView>,
) -> nat
    decreases before.len(),
{
    if before.len() == 0 || after.len() != before.len() {
        0
    } else {
        found_healthy(config, before.drop_last(), after.drop_last()) + if url_join(
            before.last().url,
            config.path@,
        ) is Some && after.last().is_healthy() {
            1nat
        } else {
            0nat
        }
    }
}

/// The number of entries of `results` that are healthy probe results.
pub open spec fn count_healthy(results: Seq<Result<HealthCheckResult, ProbeError>>) -> nat
    decreases results.len(),
{
    if results.len() == 0 {
        0
    } else {
        count_healthy(results.drop_last()) + if results.last() matches Ok(r) && r.healthy {
            1nat
        } else {
            0nat
        }
    }
}

/// There are no more healthy results than results.
pub proof fn lemma_count_healthy_bound(results: Seq<Result<HealthCheckResult, ProbeError>>)
    ensures
        count_healthy(results) <= results.len(),
    decreases results.len(),
{
    if results.len() > 0 {
        lemma_count_healthy_bound(results.drop_last());
    }
}

/// The periodic prober's decisions.
#[derive(Debug)]
pub struct HealthChecker {
    config: HealthCheckConfig,
    stopped: bool,
}

impl HealthChecker {
    pub closed spec fn config(&self) -> HealthCheckConfig {
        self.config
    }

    /// The checker was told to shut down.
    pub closed spec fn stopped(&self) -> bool {
        self.stopped
    }

    pub fn new(config: HealthCheckConfig) -> (c: Self)
        ensures
            c.config() == config,
            !c.stopped(),
    {
        HealthChecker { config, stopped: false }
    }

    /// The seconds between two rounds.
    pub fn interval_secs(&self) -> (s: u64)
        ensures
            s == self.config().interval_secs,
    {
        self.config.interval_secs
    }

    /// The seconds a probe may take.
    pub fn timeout_secs(&self) -> (s: u64)
        ensures
            s == self.config().timeout_secs,
    {
        self.config.timeout_secs
    }

    /// What the loop does on `event`: a tick starts a round, a shutdown
    /// signal that is set ends the loop, and once it has ended no round
    /// starts any more.
    pub fn on_event(&mut self, event: CheckerEvent) -> (action: CheckerAction)
        ensures
            action == (if old(self).stopped() {
                CheckerAction::Stop
            } else {
                match event {
                    CheckerEvent::Tick => CheckerAction::RunRound,
                    CheckerEvent::ShutdownChanged(true) => CheckerAction::Stop,
                    CheckerEvent::ShutdownChanged(false) => CheckerAction::Wait,
                }
            }),
            final(self).stopped() == (old(self).stopped() || event == CheckerEvent::ShutdownChanged(
                true,
            )),
            final(self).config() == old(self).config(),
    {
        if self.stopped {
            return CheckerAction::Stop;
        }
        match event {
            CheckerEvent::Tick => CheckerAction::RunRound,
            CheckerEvent::ShutdownChanged(flag) => {
                if flag {
                    self.stopped = true;
                    CheckerAction::Stop
                } else {
                    CheckerAction::Wait
                }
            },
        }
    }

    /// Tells the checker to shut down: its loop ends at the next event.
    pub fn shutdown(&mut self)
        ensures
            final(self).stopped(),
            final(self).config() == old(self).config(),
    {
        self.stopped = true;
    }

    /// The URL that a probe of `backend` asks for: the health path
    /// resolved against the backend's URL.
    pub fn probe_url(&self, backend: &Backend) -> (r: Result<String, ProbeError>)
        ensures
            (match r {
                Ok(target) => url_join(backend@.url, self.config().path@) == Some(target@),
                Err(e) => e == ProbeError::InvalidUrl && url_join(
                    backend@.url,
                    self.config().path@,
                ) is None,
            }),
    {
        match join(backend.url(), self.config.path.as_str()) {
            Ok(target) => Ok(as_text(&target)),
            Err(_) => Err(ProbeError::InvalidUrl),
        }
    }

    /// Whether `outcome` shows a healthy backend, and if not, why not.
    pub fn classify(outcome: &ProbeOutcome) -> (r: (bool, Option<String>))
        ensures
            r.0 == outcome_is_healthy(*outcome),
            (match r.1 {
                Some(why) => outcome_error(*outcome) == Some(why@),
                None => outcome_error(*outcome) is None,
            }),
    {
        match outcome {
            ProbeOutcome::Status(code) => {
                if 200 <= *code && *code < 300 {
                    (true, None)
                } else {
                    let digits = decimal_string(*code as u64);
                    (false, Some(join2("HTTP ", digits.as_str())))
                }
            },
            ProbeOutcome::Failed(why) => (false, Some(why.clone())),
            ProbeOutcome::TimedOut => (false, Some("Request timeout".to_string())),
        }
    }

    /// Records the outcome of a probe of the backend in slot `slot`, which
    /// ended at `now` and took `response_time_ms`: the backend's health
    /// follows the outcome, and a threshold crossing is made known. The
    /// healthy view is left for the end of the round.
    pub fn record_probe(
        &self,
        pool: &mut BackendPool,
        slot: usize,
        outcome: ProbeOutcome,
        response_time_ms: u64,
        now: i64,
    ) -> (r: (HealthCheckResult, Option<HealthTransition>))
        requires
            old(pool).wf(),
            slot < old(pool).backends().len(),
        ensures
            final(pool).wf(),
            final(pool).backends() == old(pool).backends().update(
                slot as int,
                old(pool).backends()[slot as int].probe(outcome_is_healthy(outcome), now),
            ),
            final(pool).healthy_view() == old(pool).healthy_view(),
            r.0.backend_id@ == old(pool).backends()[slot as int].id,
            r.0.healthy == outcome_is_healthy(outcome),
            r.0.response_time_ms == response_time_ms,
            (match r.0.error {
                Some(why) => outcome_error(outcome) == Some(why@),
                None => outcome_error(outcome) is None,
            }),
            r.1 == crossing(
                self.config(),
                old(pool).backends()[slot as int].is_healthy(),
                outcome_is_healthy(outcome),
                final(pool).backends()[slot as int],
            ),
    {
        let was_healthy = pool.backend_at(slot).is_healthy();
        let (healthy, error) = Self::classify(&outcome);
        pool.observe_probe(slot, healthy, now);
        let backend = pool.backend_at(slot);
        let transition = if healthy {
            if backend.is_stably_healthy(self.config.healthy_threshold as usize) && !was_healthy {
                Some(HealthTransition::BecameHealthy)
            } else {
                None
            }
        } else {
            if backend.is_stably_unhealthy(self.config.unhealthy_threshold as usize)
                && was_healthy {
                Some(HealthTransition::BecameUnhealthy)
            } else {
                None
            }
        };
        let result = HealthCheckResult {
            backend_id: backend.id().clone(),
            healthy,
            response_time_ms,
            error,
        };
        (result, transition)
    }

    /// Records the outcome of a probe that has just ended.
    pub fn check_backend(
        &self,
        pool: &mut BackendPool,
        slot: usize,
        outcome: ProbeOutcome,
        response_time_ms: u64,
    ) -> (r: (HealthCheckResult, Option<HealthTransition>))
        requires
            old(pool).wf(),
            slot < old(pool).backends().len(),
        ensures
            final(pool).wf(),
            exists|now: i64|
                final(pool).backends() == old(pool).backends().update(
                    slot as int,
                    #[trigger] old(pool).backends()[slot as int].probe(
                        outcome_is_healthy(outcome),
                        now,
                    ),
                ),
            final(pool).healthy_view() == old(pool).healthy_view(),
            r.0.backend_id@ == old(pool).backends()[slot as int].id,
            r.0.healthy == outcome_is_healthy(outcome),
            r.0.response_time_ms == response_time_ms,
            (match r.0.error {
                Some(why) => outcome_error(outcome) == Some(why@),
                None => outcome_error(outcome) is None,
            }),
            r.1 == crossing(
                self.config(),
                old(pool).backends()[slot as int].is_healthy(),
                outcome_is_healthy(outcome),
                final(pool).backends()[slot as int],
            ),
    {
        let now = utc_now_millis();
        self.record_probe(pool, slot, outcome, response_time_ms, now)
    }

    /// Runs a round: every backend of the pool is probed once, in slot
    /// order, and then the healthy view is rebuilt. `probe` asks the URL
    /// that it is handed and says how that ended and how many
    /// milliseconds it took.
    pub fn run_round<F: Fn(&str) -> (ProbeOutcome, u64)>(&self, pool: &mut BackendPool, probe: F) -> (summary:
        RoundSummary)
        requires
            old(pool).wf(),
            forall|url: &str| probe.requires((url,)),
        ensures
            final(pool).wf(),
            final(pool).backends().len() == old(pool).backends().len(),
            forall|i: int|
                0 <= i < old(pool).backends().len() ==> round_effect(
                    self.config(),
                    probe,
                    old(pool).backends()[i],
                    #[trigger] final(pool).backends()[i],
                ),
            final(pool).healthy_view() == healthy_ids(final(pool).backends()),
            summary.healthy == found_healthy(
                self.config(),
                old(pool).backends(),
                final(pool).backends(),
            ),
            summary.healthy + summary.unhealthy == old(pool).backends().len(),
            summary.healthy_backends == final(pool).healthy_view().len(),
            summary.total_backends == old(pool).backends().len(),
    {
        let n = pool.len();
        let mut results: Vec<Result<HealthCheckResult, ProbeError>> = Vec::new();
        let mut i: usize = 0;
        proof {
            assert(old(pool).backends().take(0) =~= Seq::<BackendView>::empty());
            assert(results@.take(0) =~= results@);
        }
        while i < n
            invariant
                i <= n,
                n == old(pool).backends().len(),
                pool.wf(),
                pool.backends().len() == n,
                results@.len() == i,
                forall|j: int|
                    0 <= j < i ==> round_effect(
                        self.config(),
                        probe,
                        old(pool).backends()[j],
                        #[trigger] pool.backends()[j],
                    ),
                forall|j: int| i <= j < n ==> #[trigger] pool.backends()[j] == old(pool).backends()[j],
                count_healthy(results@) == found_healthy(
                    self.config(),
                    old(pool).backends().take(i as int),
                    pool.backends().take(i as int),
                ),
                forall|url: &str| probe.requires((url,)),
            decreases n - i,
        {
            let ghost before = pool.backends();
            let ghost earlier = results@;
            let target = self.probe_url(pool.backend_at(i));
            match target {
                Err(e) => {
                    results.push(Err(e));
                },
                Ok(url) => {
                    let asked = url.as_str();
                    let (outcome, response_time_ms) = probe(asked);
                    let found = self.check_backend(pool, i, outcome, response_time_ms);
                    results.push(Ok(found.0));
                    proof {
                        let now = choose|now: i64|
                            pool.backends() == before.update(
                                i as int,
                                #[trigger] before[i as int].probe(outcome_is_healthy(outcome), now),
                            );
                        assert(probe.ensures((asked,), (outcome, response_time_ms)));
                        assert(pool.backends()[i as int] == old(pool).backends()[i as int].probe(
                            outcome_is_healthy(outcome),
                            now,
                        ));
                        assert(pool.backends()[i as int].is_healthy() == outcome_is_healthy(
                            outcome,
                        ));
                    }
                },
            }
            proof {
                assert forall|j: int| 0 <= j < i implies round_effect(
                    self.config(),
                    probe,
                    old(pool).backends()[j],
                    #[trigger] pool.backends()[j],
                ) by {
                    assert(pool.backends()[j] == before[j]);
                }
                let olds = old(pool).backends();
                assert(results@.drop_last() =~= earlier);
                assert(olds.take(i + 1).drop_last() =~= olds.take(i as int));
                assert(pool.backends().take(i + 1).drop_last() =~= before.take(i as int));
                assert(olds.take(i + 1).last() == olds[i as int]);
                assert(pool.backends().take(i + 1).last() == pool.backends()[i as int]);
            }
            i = i + 1;
        }
        proof {
            assert(old(pool).backends().take(n as int) =~= old(pool).backends());
            assert(pool.backends().take(n as int) =~= pool.backends());
        }
        self.check_all_backends(pool, &results)
    }

    /// Ends a round: counts what the probes found and rebuilds the
    /// healthy view from the health that the backends now have. A probe
    /// that could not be made counts as unhealthy.
    pub fn check_all_backends(
        &self,
        pool: &mut BackendPool,
        results: &Vec<Result<HealthCheckResult, ProbeError>>,
    ) -> (summary: RoundSummary)
        requires
            old(pool).wf(),
        ensures
            final(pool).wf(),
            final(pool).backends() == old(pool).backends(),
            final(pool).healthy_view() == healthy_ids(old(pool).backends()),
            summary.healthy == count_healthy(results@),
            summary.healthy + summary.unhealthy == results@.len(),
            summary.healthy_backends == final(pool).healthy_view().len(),
            summary.total_backends == final(pool).backends().len(),
    {
        let n = results.len();
        let mut healthy: usize = 0;
        let mut unhealthy: usize = 0;
        let mut i: usize = 0;
        assert(results@.take(0) =~= Seq::<Result<HealthCheckResult, ProbeError>>::empty());
        while i < n
            invariant
                i <= n,
                n == results@.len(),
                healthy == count_healthy(results@.take(i as int)),
                healthy + unhealthy == i,
            decreases n - i,
        {
            proof {
                assert(results@.take(i + 1).drop_last() =~= results@.take(i as int));
                assert(results@.take(i + 1).last() == results@[i as int]);
            }
            let is_healthy = match &results[i] {
                Ok(r) => r.healthy,
                Err(_) => false,
            };
            if is_healthy {
                healthy = healthy + 1;
            } else {
                unhealthy = unhealthy + 1;
            }
            i = i + 1;
        }
        assert(results@.take(n as int) =~= results@);
        pool.update_healthy_backends();
        let healthy_backends = pool.healthy_ids().len();
        let total_backends = pool.len();
        RoundSummary { healthy, unhealthy, healthy_backends, total_backends }
    }
}

/// The state of a backend after a run of probes, first to last; each
/// probe is its verdict and the time at which it ended.
pub open spec fn after_probes(v: BackendView, probes: Seq<(bool, i64)>) -> BackendView
    decreases probes.len(),
{
    if probes.len() == 0 {
        v
    } else {
        after_probes(v, probes.drop_last()).probe(probes.last().0, probes.last().1)
    }
}

/// The length of the run of probes with verdict `verdict` that `probes`
/// ends with.
pub open spec fn trailing_run(probes: Seq<(bool, i64)>, verdict: bool) -> nat
    decreases probes.len(),
{
    if probes.len() == 0 || probes.last().0 != verdict {
        0
    } else {
        1 + trailing_run(probes.drop_last(), verdict)
    }
}

/// `n`, held to the range of `usize`.
pub open spec fn held(n: nat) -> nat {
    if n <= usize::MAX {
        n
    } else {
        usize::MAX as nat
    }
}

/// The streaks of a backend count the probes at the end of its history
/// that agree: after any run of probes on a backend that had no streak,
/// the healthy streak is the length of the run of healthy probes that the
/// history ends with, and the unhealthy streak that of the unhealthy ones.
pub proof fn lemma_streaks_count_trailing_runs(v: BackendView, probes: Seq<(bool, i64)>)
    requires
        v.consecutive_successes == 0,
        v.consecutive_failures == 0,
    ensures
        after_probes(v, probes).consecutive_successes == held(trailing_run(probes, true)),
        after_probes(v, probes).consecutive_failures == held(trailing_run(probes, false)),
        probes.len() > 0 ==> after_probes(v, probes).is_healthy() == probes.last().0,
    decreases probes.len(),
{
    if probes.len() > 0 {
        lemma_streaks_count_trailing_runs(v, probes.drop_last());
    }
}

/// Health hysteresis: a probe makes a crossing known only at the end of
/// a sustained streak. Whatever the history of a backend, the probe that
/// reports it as having become healthy ends a run of at least
/// `healthy_threshold` healthy probes, and the one that reports it as
/// having become unhealthy ends a run of at least `unhealthy_threshold`
/// unhealthy ones; a backend whose probe results toggle below the
/// thresholds is never reported.
pub proof fn lemma_health_hysteresis(
    config: HealthCheckConfig,
    v: BackendView,
    probes: Seq<(bool, i64)>,
)
    requires
        v.consecutive_successes == 0,
        v.consecutive_failures == 0,
        probes.len() > 0,
    ensures
        crossing(
            config,
            after_probes(v, probes.drop_last()).is_healthy(),
            probes.last().0,
            after_probes(v, probes),
        ) == Some(HealthTransition::BecameHealthy) ==> probes.last().0 && trailing_run(
            probes,
            true,
        ) >= config.healthy_threshold,
        crossing(
            config,
            after_probes(v, probes.drop_last()).is_healthy(),
            probes.last().0,
            after_probes(v, probes),
        ) == Some(HealthTransition::BecameUnhealthy) ==> !probes.last().0 && trailing_run(
            probes,
            false,
        ) >= config.unhealthy_threshold,
        trailing_run(probes, true) < config.healthy_threshold && trailing_run(probes, false)
            < config.unhealthy_threshold ==> crossing(
            config,
            after_probes(v, probes.drop_last()).is_healthy(),
            probes.last().0,
            after_probes(v, probes),
        ) is None,
{
    lemma_streaks_count_trailing_runs(v, probes);
}

/// A crossing is made known only when the status flips: a backend that
/// was healthy is not reported as having become healthy, nor one that
/// was not as having become unhealthy.
pub proof fn lemma_crossing_needs_a_flip(
    config: HealthCheckConfig,
    was_healthy: bool,
    healthy: bool,
    after: BackendView,
)
    ensures
        was_healthy == healthy ==> crossing(config, was_healthy, healthy, after) is None,
{
}

/// The rebuilt view follows the latest probe of each backend: a backend
/// is in the view after a rebuild exactly if its latest probe found it
/// healthy. One healthy probe is enough for that; the thresholds govern
/// the reports, not the view.
pub proof fn lemma_view_follows_latest_probe(
    backends: Seq<BackendView>,
    slot: int,
    healthy: bool,
    now: i64,
)
    requires
        0 <= slot < backends.len(),
        crate::proxy::pool::ids_of(backends).no_duplicates(),
    ensures
        healthy_ids(backends.update(slot, backends[slot].probe(healthy, now))).contains(
            backends[slot].id,
        ) == healthy,
{
    let probed = backends.update(slot, backends[slot].probe(healthy, now));
    crate::proxy::pool::lemma_healthy_ids(probed);
    assert(probed[slot].id == backends[slot].id);
    if healthy {
        assert(probed[slot].is_healthy());
    } else {
        if healthy_ids(probed).contains(backends[slot].id) {
            let k = choose|k: int|
                0 <= k < healthy_ids(probed).len() && healthy_ids(probed)[k] == backends[slot].id;
            let i = choose|i: int|
                0 <= i < probed.len() && probed[i].is_healthy() && probed[i].id == healthy_ids(
                    probed,
                )[k];
            assert(i != slot);
            assert(crate::proxy::pool::ids_of(backends)[i] == probed[i].id);
            assert(crate::proxy::pool::ids_of(backends)[slot] == backends[slot].id);
        }
    }
}

} // verus!
