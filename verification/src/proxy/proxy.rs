//! The dispatcher: it takes a request through selection, the circuit
//! breaker and the connection cap to a backend, and decides what follows
//! each attempt.

use vstd::prelude::*;
use tokio::time::Instant;
use crate::circuit_breaker::breaker::{BreakerView, CircuitBreakerState};
use crate::circuit_breaker::manager::CircuitBreakerManager;
use crate::config::{BackendConfig, CircuitBreakerConfig, Config};
use crate::health::checker::{
    crossing, outcome_error, outcome_is_healthy, CheckerAction, CheckerEvent, HealthCheckResult,
    HealthChecker, HealthTransition, ProbeError, ProbeOutcome, RoundSummary, count_healthy,
};
use crate::load_balancer::algorithm::{views_of, LoadBalancer};
use crate::load_balancer::{address_bytes, create_load_balancer, Balancer};
use crate::metrics::collector::{
    gauge_of, health_value, outcome_label, state_value, to_gauge, MetricEventView, MetricsCollector,
};
use crate::outside::ids::new_v4_text;
use crate::outside::urls::{as_text, url_join, url_text};
use crate::proxy::backend::BackendView;
use crate::proxy::error::{ProxyError, ProxyErrorView};
use crate::proxy::forward::{first_hop, is_first_hop};
use crate::proxy::pool::{healthy_ids, ids_of, upsert, without, BackendPool};
use crate::retry::strategy::{
    decide_for_code, max_jitter, retryable_code, RetryDecision, RetryStep, RetryStrategy,
};

verus! {

/// A backend has taken a request: the dispatcher holds one of its
/// connection slots until the attempt is finished.
#[derive(Debug, PartialEq, Eq)]
pub struct Admission {
    /// The identifier of the backend.
    pub backend_id: String,
    /// The URL of the backend.
    pub backend_url: String,
}

/// How the forwarding of a request to a backend ended.
#[derive(Debug, PartialEq, Eq)]
pub enum UpstreamOutcome {
    /// The backend answered, with this status number.
    Response(u16),
    /// The request failed on the way.
    TransportError(String),
    /// No answer came in time.
    TimedOut,
    /// No valid URI could be made for the backend.
    InvalidUri(String),
}

/// What an attempt gave.
#[derive(Debug, PartialEq, Eq)]
pub enum AttemptResult {
    /// A response of the backend, with this status number.
    Response(u16),
    /// No response.
    Failed(ProxyError),
}

/// What the dispatcher does after an attempt.
#[derive(Debug, PartialEq, Eq)]
pub enum NextMove {
    /// Hand the backend's response, which has this status, to the client.
    Respond(u16),
    /// Tell the client of the error.
    Fail(ProxyError),
    /// Wait this many milliseconds, then make another attempt.
    RetryAfter(u64),
}

/// What the dispatcher notes of a request when it comes in.
#[derive(Debug, PartialEq, Eq)]
pub struct RequestContext {
    /// The identifier given to the request.
    pub request_id: String,
    /// The client's address: the first hop of `x-forwarded-for`, or the
    /// address that the transport layer gave.
    pub client_addr: Option<String>,
}

/// A probe that the health checker is to make.
#[derive(Debug, PartialEq, Eq)]
pub struct ProbeTarget {
    /// The identifier of the backend.
    pub backend_id: String,
    /// The URL to ask, or why there is none.
    pub url: Result<String, ProbeError>,
}

/// How a request ended.
#[derive(Debug, PartialEq, Eq)]
pub struct Handled {
    /// The identifier that the request was given.
    pub request_id: String,
    /// The status of the response that goes to the client and the
    /// backend that gave it, or the error that the client is told of.
    pub result: Result<(u16, String), ProxyError>,
    /// The number of attempts that were made.
    pub attempts: u32,
}

/// An attempt result as mathematical values.
pub enum AttemptResultView {
    Response(u16),
    Failed(ProxyErrorView),
}

/// A next move as mathematical values.
pub enum NextMoveView {
    Respond(u16),
    Fail(ProxyErrorView),
    RetryAfter(u64),
}

impl View for AttemptResult {
    type V = AttemptResultView;

    open spec fn view(&self) -> AttemptResultView {
        match self {
            AttemptResult::Response(code) => AttemptResultView::Response(*code),
            AttemptResult::Failed(e) => AttemptResultView::Failed(e@),
        }
    }
}

impl View for NextMove {
    type V = NextMoveView;

    open spec fn view(&self) -> NextMoveView {
        match self {
            NextMove::Respond(code) => NextMoveView::Respond(*code),
            NextMove::Fail(e) => NextMoveView::Fail(e@),
            NextMove::RetryAfter(ms) => NextMoveView::RetryAfter(*ms),
        }
    }
}

/// A response counts as a success where its status is 2xx or 3xx.
pub open spec fn is_success_status(code: u16) -> bool {
    200 <= code < 400
}

impl UpstreamOutcome {
    /// The attempt succeeded: a response arrived, and its status is 2xx
    /// or 3xx.
    pub open spec fn succeeded(&self) -> bool {
        self matches UpstreamOutcome::Response(code) && is_success_status(*code)
    }

    /// A response arrived, and its status is 2xx.
    pub open spec fn answered_ok(&self) -> bool {
        self matches UpstreamOutcome::Response(code) && 200 <= *code < 300
    }

    /// What the attempt gave.
    pub open spec fn result(&self) -> AttemptResultView {
        match self {
            UpstreamOutcome::Response(code) => AttemptResultView::Response(*code),
            UpstreamOutcome::TransportError(why) => AttemptResultView::Failed(
                ProxyErrorView::BackendError(why@),
            ),
            UpstreamOutcome::TimedOut => AttemptResultView::Failed(ProxyErrorView::Timeout),
            UpstreamOutcome::InvalidUri(why) => AttemptResultView::Failed(
                ProxyErrorView::InvalidUri(why@),
            ),
        }
    }
}

impl AttemptResultView {
    /// The attempt succeeded.
    pub open spec fn succeeded(self) -> bool {
        self matches AttemptResultView::Response(code) && is_success_status(code)
    }

    /// Whether another attempt is worth making: after a response, where
    /// its status is 408, 429 or 5xx; after an error, where the error is
    /// one that the dispatcher retries.
    pub open spec fn decision(self) -> RetryDecision {
        match self {
            AttemptResultView::Response(code) => if retryable_code(code) {
                RetryDecision::Retry
            } else {
                RetryDecision::NoRetry
            },
            AttemptResultView::Failed(e) => if e.retryable() {
                RetryDecision::Retry
            } else {
                RetryDecision::NoRetry
            },
        }
    }

    /// What ends the request when this was the last attempt: the
    /// backend's response where there is one, else the error.
    pub open spec fn last_word(self) -> NextMoveView {
        match self {
            AttemptResultView::Response(code) => NextMoveView::Respond(code),
            AttemptResultView::Failed(e) => NextMoveView::Fail(e),
        }
    }
}

/// What follows attempt number `attempt` that gave `result`, where
/// `jitter` milliseconds are added to the pause: a success is handed to
/// the client; a failure is retried after the pause while the policy and
/// the attempts allow it, and is final otherwise.
pub open spec fn next_move_of(
    retry: RetryStrategy,
    attempt: u32,
    result: AttemptResultView,
    jitter: u64,
) -> NextMoveView {
    if result.succeeded() {
        result.last_word()
    } else {
        match retry.step(attempt, result.decision(), jitter) {
            RetryStep::GiveUp => result.last_word(),
            RetryStep::Backoff(ms) => NextMoveView::RetryAfter(ms),
        }
    }
}

/// The breaker of `id`: the one that exists, or a new one.
pub open spec fn breaker_of(
    breakers: Map<Seq<char>, BreakerView>,
    config: CircuitBreakerConfig,
    id: Seq<char>,
) -> BreakerView {
    if breakers.contains_key(id) {
        breakers[id]
    } else {
        BreakerView::initial(config)
    }
}

/// The state of a backend once an attempt on it is finished: the slot
/// is given back and the outcome is counted.
pub open spec fn settled(b: BackendView, success: bool) -> BackendView {
    if b.active_connections > 0 {
        b.release().record(success)
    } else {
        b.record(success)
    }
}

/// `addr` is the client's address of a request with this
/// `x-forwarded-for` header and this address of the transport layer: the
/// first hop of the header where it has one that is not empty, else the
/// address of the transport layer, else nothing.
pub open spec fn client_addr_is(
    forwarded_for: Option<Seq<char>>,
    peer_addr: Option<Seq<char>>,
    addr: Option<Seq<char>>,
) -> bool {
    match forwarded_for {
        Some(header) => if is_first_hop(header, Seq::<char>::empty()) {
            addr == peer_addr
        } else {
            addr matches Some(hop) && is_first_hop(header, hop)
        },
        None => addr == peer_addr,
    }
}

/// The text of a header or an address, where there is one.
pub open spec fn text_of(value: Option<&str>) -> Option<Seq<char>> {
    match value {
        Some(text) => Some(text@),
        None => None,
    }
}

/// The bytes of the client's address that a request context holds.
pub open spec fn client_bytes(ctx: RequestContext) -> Option<Seq<u8>> {
    match ctx.client_addr {
        Some(addr) => Some(vstd::utf8::encode_utf8(addr@)),
        None => None,
    }
}

/// The state of a backend after the outcomes of requests were recorded
/// on it, first to last.
pub open spec fn recorded(b: BackendView, outcomes: Seq<bool>) -> BackendView
    decreases outcomes.len(),
{
    if outcomes.len() == 0 {
        b
    } else {
        recorded(b, outcomes.drop_last()).record(outcomes.last())
    }
}

/// Recording outcomes changes the request counters and nothing else.
pub proof fn lemma_recorded_keeps_the_rest(b: BackendView, outcomes: Seq<bool>)
    ensures
        recorded(b, outcomes).id == b.id,
        recorded(b, outcomes).url == b.url,
        recorded(b, outcomes).weight == b.weight,
        recorded(b, outcomes).max_connections == b.max_connections,
        recorded(b, outcomes).active_connections == b.active_connections,
        recorded(b, outcomes).health_status == b.health_status,
        recorded(b, outcomes).last_health_check == b.last_health_check,
        recorded(b, outcomes).consecutive_failures == b.consecutive_failures,
        recorded(b, outcomes).consecutive_successes == b.consecutive_successes,
        recorded(b, outcomes).has_slot() == b.has_slot(),
    decreases outcomes.len(),
{
    if outcomes.len() > 0 {
        lemma_recorded_keeps_the_rest(b, outcomes.drop_last());
    }
}

/// The backends `after` are the backends `before` but for the request
/// counters: backend `i` has recorded the outcomes `counted[i]`, at most
/// `most` of them, and is as before in everything else.
pub open spec fn only_counted(
    before: Seq<BackendView>,
    after: Seq<BackendView>,
    counted: Seq<Seq<bool>>,
    most: nat,
) -> bool {
    &&& counted.len() == before.len()
    &&& after.len() == before.len()
    &&& forall|i: int|
        0 <= i < before.len() ==> after[i] == recorded(before[i], #[trigger] counted[i])
            && counted[i].len() <= most
}

/// The number of failures among `outcomes`.
pub open spec fn failures_in(outcomes: Seq<bool>) -> nat
    decreases outcomes.len(),
{
    if outcomes.len() == 0 {
        0
    } else {
        failures_in(outcomes.drop_last()) + if outcomes.last() {
            0nat
        } else {
            1nat
        }
    }
}

/// Recording outcomes counts them: while the counters do not start
/// over, the requests grow by the number of outcomes and the failed
/// requests by the number of failures among them.
pub proof fn lemma_recorded_counts(b: BackendView, outcomes: Seq<bool>)
    ensures
        b.total_requests + outcomes.len() <= u64::MAX ==> recorded(b, outcomes).total_requests
            == b.total_requests + outcomes.len(),
        b.failed_requests + failures_in(outcomes) <= u64::MAX ==> recorded(
            b,
            outcomes,
        ).failed_requests == b.failed_requests + failures_in(outcomes),
        failures_in(outcomes) <= outcomes.len(),
    decreases outcomes.len(),
{
    if outcomes.len() > 0 {
        lemma_recorded_counts(b, outcomes.drop_last());
    }
}

/// What happened in one attempt of a request.
pub ghost struct AttemptRecord {
    /// The dispatcher when the attempt began.
    pub before: Proxy,
    /// The dispatcher when selection, breaker and cap had decided.
    pub admitted: Proxy,
    /// The dispatcher when the attempt was finished.
    pub after: Proxy,
    /// The admission, or why there was none.
    pub started: Result<Admission, ProxyError>,
    /// The entry of the healthy view that selection chose.
    pub choice: int,
    /// The whole seconds since the breaker's last failure.
    pub elapsed: u64,
    /// How forwarding ended, where the attempt was admitted.
    pub outcome: UpstreamOutcome,
    /// The milliseconds that forwarding took.
    pub took: u64,
    /// When the attempt was finished.
    pub now: Instant,
    /// The jitter drawn for the pause after the attempt.
    pub jitter: u64,
    /// The milliseconds paused after the attempt.
    pub paused: u64,
}

impl AttemptRecord {
    /// What the attempt gave.
    pub open spec fn result(self) -> AttemptResultView {
        match self.started {
            Ok(_) => self.outcome.result(),
            Err(e) => AttemptResultView::Failed(e@),
        }
    }

    /// The slot of the backend that took the attempt, if one did.
    pub open spec fn served_slot(self) -> Option<int> {
        match self.started {
            Ok(admission) => self.before.pool().slot_of(admission.backend_id@),
            Err(_) => None,
        }
    }

    /// The milliseconds that the attempt added to the time of the
    /// request: what forwarding took, where the attempt was admitted.
    pub open spec fn forwarding_time(self) -> u64 {
        if self.started is Ok {
            self.took
        } else {
            0
        }
    }

    /// The record tells of an attempt of a request with context `ctx`
    /// whose forwarding is done by `forward`. With an empty healthy view
    /// the attempt fails with `NoHealthyBackends` and changes nothing.
    /// Else the balancer picks an entry of the view and the attempt
    /// starts on it, as `attempt_started` says; where it was admitted,
    /// `forward` was handed the admission and the context, and what it
    /// gave finished the attempt, as `attempt_finished` says.
    pub open spec fn ran<F: Fn(&Admission, &RequestContext) -> (UpstreamOutcome, u64)>(
        self,
        ctx: RequestContext,
        forward: F,
    ) -> bool {
        let view = self.before.pool().healthy_view();
        &&& self.admitted.same_setup(self.before)
        &&& self.after.same_setup(self.before)
        &&& if view.len() == 0 {
            &&& self.started is Err
            &&& self.started->Err_0@ == ProxyErrorView::NoHealthyBackends
            &&& self.admitted.pool().backends() == self.before.pool().backends()
            &&& self.admitted.pool().healthy_view() == view
            &&& self.admitted.breakers() == self.before.breakers()
            &&& self.admitted.metrics() == self.before.metrics()
            &&& self.admitted.balancer() == self.before.balancer()
        } else {
            &&& 0 <= self.choice < view.len()
            &&& self.before.attempt_started(
                self.admitted,
                self.started,
                view[self.choice],
                self.elapsed,
            )
            &&& self.before.balancer().picks(
                self.admitted.balancer(),
                self.before.pool().candidates(),
                client_bytes(ctx),
                self.choice,
            )
        }
        &&& match self.started {
            Ok(admission) => {
                &&& forward.ensures((&admission, &ctx), (self.outcome, self.took))
                &&& self.admitted.attempt_finished(
                    self.after,
                    admission.backend_id@,
                    self.outcome,
                    self.took,
                    self.now,
                )
                &&& self.after.balancer() == self.admitted.balancer()
            },
            Err(_) => self.after == self.admitted,
        }
    }
}

/// In `run`, each attempt began where the one before it had ended.
pub open spec fn linked(run: Seq<AttemptRecord>) -> bool {
    forall|i: int, j: int|
        #![trigger run[i], run[j]]
        0 <= i < run.len() - 1 && j == i + 1 ==> run[j].before == run[i].after
}

/// The outcomes that the backend in slot `slot` has counted in `run`:
/// those of the attempts that it took, first to last.
pub open spec fn served_outcomes(run: Seq<AttemptRecord>, slot: int) -> Seq<bool>
    decreases run.len(),
{
    if run.len() == 0 {
        Seq::empty()
    } else if run.last().served_slot() == Some(slot) {
        served_outcomes(run.drop_last(), slot).push(run.last().outcome.succeeded())
    } else {
        served_outcomes(run.drop_last(), slot)
    }
}

/// The milliseconds that a run of attempts took: forwarding and the
/// pauses behind the attempts, added up in order and held to the range
/// of `u64`.
pub open spec fn spent_in(run: Seq<AttemptRecord>) -> u64
    decreases run.len(),
{
    if run.len() == 0 {
        0
    } else {
        spent_in(run.drop_last()).saturating_add(run.last().forwarding_time()).saturating_add(
            run.last().paused,
        )
    }
}

/// What an attempt does to the pool: the healthy view and the
/// identifiers stay, the backend that took the attempt has counted its
/// outcome and holds as many connections as before, and every other
/// backend is as before.
pub proof fn lemma_attempt_effect<F: Fn(&Admission, &RequestContext) -> (UpstreamOutcome, u64)>(
    rec: AttemptRecord,
    ctx: RequestContext,
    forward: F,
)
    requires
        rec.ran(ctx, forward),
        rec.before.wf(),
    ensures
        rec.after.pool().healthy_view() == rec.before.pool().healthy_view(),
        rec.after.pool().backends().len() == rec.before.pool().backends().len(),
        ids_of(rec.after.pool().backends()) == ids_of(rec.before.pool().backends()),
        rec.served_slot() matches Some(slot) ==> 0 <= slot < rec.before.pool().backends().len()
            && rec.before.pool().healthy_view().contains(rec.before.pool().backends()[slot].id),
        rec.started is Ok ==> rec.served_slot() is Some,
        forall|i: int|
            0 <= i < rec.before.pool().backends().len() ==> #[trigger] rec.after.pool().backends()[i]
                == (if rec.served_slot() == Some(i) {
                rec.before.pool().backends()[i].record(rec.outcome.succeeded())
            } else {
                rec.before.pool().backends()[i]
            }),
{
    let view = rec.before.pool().healthy_view();
    let b0 = rec.before.pool().backends();
    rec.before.lemma_wf();
    rec.before.pool().lemma_wf();
    match rec.started {
        Ok(admission) => {
            let id = view[rec.choice];
            assert(admission.backend_id@ == id);
            lemma_attempt_restores_connections(
                rec.before,
                rec.admitted,
                rec.after,
                rec.started,
                id,
                rec.elapsed,
                rec.outcome,
                rec.took,
                rec.now,
            );
            let slot = rec.before.pool().slot_of(id)->0;
            assert(ids_of(b0)[slot] == id);
            assert(view.contains(id));
            assert(ids_of(rec.after.pool().backends()) =~= ids_of(b0)) by {
                assert forall|i: int| 0 <= i < b0.len() implies rec.after.pool().backends()[i].id
                    == b0[i].id by {
                    if Some(i) != rec.before.pool().slot_of(id) {
                        assert(rec.after.pool().backends()[i] == b0[i]);
                    }
                }
            }
        },
        Err(e) => {
            assert(rec.after.pool().backends() == b0);
        },
    }
}

/// The dispatcher with everything it composes.
pub struct Proxy {
    pool: BackendPool,
    load_balancer: Balancer,
    health_checker: HealthChecker,
    circuit_breakers: CircuitBreakerManager,
    retry_strategy: RetryStrategy,
    metrics: MetricsCollector,
}

impl Proxy {
    /// The backend pool.
    pub closed spec fn pool(&self) -> BackendPool {
        self.pool
    }

    /// The breakers that exist, by backend identifier.
    pub closed spec fn breakers(&self) -> Map<Seq<char>, BreakerView> {
        self.circuit_breakers@
    }

    /// The configuration of the breakers.
    pub closed spec fn breaker_config(&self) -> CircuitBreakerConfig {
        self.circuit_breakers.config()
    }

    /// The load balancer.
    pub closed spec fn balancer(&self) -> Balancer {
        self.load_balancer
    }

    /// The retry strategy.
    pub closed spec fn retry(&self) -> RetryStrategy {
        self.retry_strategy
    }

    /// The health checker.
    pub closed spec fn checker(&self) -> HealthChecker {
        self.health_checker
    }

    /// The reports that wait for the metrics sink.
    pub closed spec fn metrics(&self) -> Seq<MetricEventView> {
        self.metrics@
    }

    /// Pool and breakers are well formed, and there is no breaker
    /// without its backend.
    pub closed spec fn wf(&self) -> bool {
        &&& self.pool.wf()
        &&& self.circuit_breakers.wf()
        &&& forall|id: Seq<char>| #[trigger]
            self.circuit_breakers@.contains_key(id) ==> ids_of(self.pool.backends()).contains(id)
    }

    /// In a well-formed dispatcher the pool is well formed and every
    /// breaker belongs to a backend of the pool: a breaker lives no longer
    /// than its backend.
    pub proof fn lemma_wf(&self)
        requires
            self.wf(),
        ensures
            self.pool().wf(),
            forall|id: Seq<char>| #[trigger]
                self.breakers().contains_key(id) ==> ids_of(self.pool().backends()).contains(id),
    {
    }

    /// Everything but pool, breakers, metrics and the balancer's turn is
    /// as in `before`.
    pub open spec fn same_setup(&self, before: Proxy) -> bool {
        &&& self.balancer().algorithm() == before.balancer().algorithm()
        &&& self.breaker_config() == before.breaker_config()
        &&& self.retry() == before.retry()
        &&& self.checker() == before.checker()
    }

    /// A dispatcher over `pool`, set up as `config` says.
    pub fn new(config: Config, pool: BackendPool, metrics: MetricsCollector) -> (p: Self)
        requires
            pool.wf(),
        ensures
            p.wf(),
            p.pool() == pool,
            p.breakers() == Map::<Seq<char>, BreakerView>::empty(),
            p.breaker_config() == config.circuit_breaker,
            p.balancer().algorithm() == config.load_balancer.algorithm,
            p.balancer() matches Balancer::RoundRobin(rr) ==> rr.counter() == 0,
            p.balancer() matches Balancer::IpHash(ih) ==> ih.counter() == 0,
            p.balancer() matches Balancer::Weighted(w) ==> w.entries() == Seq::<
                (Seq<char>, int),
            >::empty(),
            p.retry().config() == config.retry,
            p.checker().config() == config.health_check,
            !p.checker().stopped(),
            p.metrics() == metrics@.push(
                MetricEventView::BackendCounts {
                    healthy: 0,
                    total: gauge_of(pool.backends().len() as usize),
                },
            ),
    {
        let load_balancer = create_load_balancer(config.load_balancer.algorithm);
        let health_checker = HealthChecker::new(config.health_check);
        let circuit_breakers = CircuitBreakerManager::new(config.circuit_breaker);
        let retry_strategy = RetryStrategy::new(config.retry);
        let mut metrics = metrics;
        let total = pool.len();
        metrics.update_backend_counts(0, total);
        Proxy { pool, load_balancer, health_checker, circuit_breakers, retry_strategy, metrics }
    }

    /// The backend pool, to look at.
    pub fn backend_pool(&self) -> (pool: &BackendPool)
        ensures
            *pool == self.pool(),
    {
        &self.pool
    }

    /// The breaker of `backend_id`, if one exists, to look at.
    pub fn circuit_breaker(&self, backend_id: &str) -> (found: Option<
        &crate::circuit_breaker::breaker::CircuitBreaker,
    >)
        requires
            self.wf(),
        ensures
            (match found {
                Some(b) => self.breakers().contains_key(backend_id@) && b@
                    == self.breakers()[backend_id@],
                None => !self.breakers().contains_key(backend_id@),
            }),
    {
        self.circuit_breakers.get(backend_id)
    }

    /// The retry strategy, to look at.
    pub fn retry_strategy(&self) -> (retry: &RetryStrategy)
        ensures
            *retry == self.retry(),
    {
        &self.retry_strategy
    }

    /// The buffer of reports, for the sink to take them out.
    pub fn metrics_mut(&mut self) -> (m: &mut MetricsCollector)
        ensures
            m@ == old(self).metrics(),
            final(self).metrics() == final(m)@,
            final(self).pool() == old(self).pool(),
            final(self).breakers() == old(self).breakers(),
            final(self).same_setup(*old(self)),
            final(self).balancer() == old(self).balancer(),
            old(self).wf() ==> final(self).wf(),
    {
        &mut self.metrics
    }

    /// Notes a request that came in: it gets an identifier, and the
    /// client's address is taken from the first hop of the
    /// `x-forwarded-for` header, or, where the header gives none, from
    /// the transport layer.
    pub fn begin_request(&mut self, forwarded_for: Option<&str>, peer_addr: Option<&str>) -> (ctx:
        RequestContext)
        ensures
            ctx.request_id@.len() == 36,
            (match ctx.client_addr {
                Some(addr) => client_addr_is(
                    match forwarded_for {
                        Some(h) => Some(h@),
                        None => None,
                    },
                    match peer_addr {
                        Some(p) => Some(p@),
                        None => None,
                    },
                    Some(addr@),
                ),
                None => client_addr_is(
                    match forwarded_for {
                        Some(h) => Some(h@),
                        None => None,
                    },
                    match peer_addr {
                        Some(p) => Some(p@),
                        None => None,
                    },
                    None,
                ),
            }),
            final(self).metrics() == old(self).metrics().push(MetricEventView::ConnectionOpened),
            final(self).pool() == old(self).pool(),
            final(self).breakers() == old(self).breakers(),
            final(self).same_setup(*old(self)),
            final(self).balancer() == old(self).balancer(),
            old(self).wf() ==> final(self).wf(),
    {
        let request_id = new_v4_text();
        let hop = match forwarded_for {
            Some(header) => first_hop(header),
            None => None,
        };
        let client_addr = match hop {
            Some(addr) => Some(addr),
            None => match peer_addr {
                Some(peer) => Some(peer.to_owned()),
                None => None,
            },
        };
        self.metrics.increment_active_connections();
        RequestContext { request_id, client_addr }
    }

    /// Notes that a request was answered after `duration_ms`: with
    /// `status` by `backend` where a response was handed on, or with an
    /// error, which is counted as a 503 of no backend.
    pub fn end_request(
        &mut self,
        method: &str,
        status: Option<u16>,
        backend: Option<&str>,
        duration_ms: u64,
    )
        ensures
            final(self).metrics() == old(self).metrics().push(
                MetricEventView::ConnectionClosed,
            ).push(
                match status {
                    Some(code) => MetricEventView::Request {
                        method: method@,
                        status_code: crate::text::decimal(code as nat),
                        backend: match backend {
                            Some(id) => id@,
                            None => "unknown"@,
                        },
                        duration_ms,
                    },
                    None => MetricEventView::Request {
                        method: method@,
                        status_code: crate::text::decimal(503),
                        backend: "none"@,
                        duration_ms,
                    },
                },
            ),
            final(self).pool() == old(self).pool(),
            final(self).breakers() == old(self).breakers(),
            final(self).same_setup(*old(self)),
            final(self).balancer() == old(self).balancer(),
            old(self).wf() ==> final(self).wf(),
    {
        self.metrics.decrement_active_connections();
        match status {
            Some(code) => {
                let id = match backend {
                    Some(id) => id,
                    None => "unknown",
                };
                self.metrics.record_request(method, code, id, duration_ms);
            },
            None => {
                self.metrics.record_request(method, 503, "none", duration_ms);
            },
        }
    }

    /// What it means that an attempt was started on the backend `id`,
    /// whose breaker was asked `elapsed` whole seconds after its last
    /// failure. The breaker is made if there was none and goes on trial
    /// if its cool-down is over. Where it rejects the request, the error
    /// is `CircuitBreakerOpen`; where it lets the request pass but the
    /// backend has no free slot, the error is `ConnectionLimitReached`;
    /// in both cases the pool is as before. Else the backend holds one
    /// more connection, which is reported, and the admission names it.
    pub open spec fn attempt_started(
        &self,
        after: Proxy,
        r: Result<Admission, ProxyError>,
        id: Seq<char>,
        elapsed: u64,
    ) -> bool {
        let backends = self.pool().backends();
        let breaker = breaker_of(self.breakers(), self.breaker_config(), id);
        &&& self.pool().slot_of(id) is Some
        &&& after.breakers() == self.breakers().insert(id, breaker.after_permit(elapsed))
        &&& after.pool().healthy_view() == self.pool().healthy_view()
        &&& {
            let slot = self.pool().slot_of(id)->0;
            if !breaker.permits(elapsed) {
                &&& r matches Err(e)
                &&& e@ == ProxyErrorView::CircuitBreakerOpen(id)
                &&& after.pool().backends() == backends
                &&& after.metrics() == self.metrics()
            } else if !backends[slot].has_slot() {
                &&& r matches Err(e)
                &&& e@ == ProxyErrorView::ConnectionLimitReached(id)
                &&& after.pool().backends() == backends
                &&& after.metrics() == self.metrics()
            } else {
                &&& r matches Ok(admission)
                &&& admission.backend_id@ == id
                &&& admission.backend_url@ == url_text(backends[slot].url)
                &&& after.pool().backends() == backends.update(slot, backends[slot].acquire())
                &&& after.metrics() == self.metrics().push(
                    MetricEventView::BackendConnections {
                        backend: id,
                        count: gauge_of(backends[slot].acquire().active_connections),
                    },
                )
            }
        }
    }

    /// Starts an attempt: a backend is selected from the healthy view,
    /// its breaker is asked, and a connection slot is taken. There is no
    /// second selection where breaker or cap reject the request.
    pub fn start_attempt(&mut self, client_addr: Option<&str>) -> (r: Result<Admission, ProxyError>)
        requires
            old(self).wf(),
        ensures
            final(self).wf(),
            final(self).same_setup(*old(self)),
            old(self).pool().healthy_view().len() == 0 ==> {
                &&& r matches Err(e)
                &&& e@ == ProxyErrorView::NoHealthyBackends
                &&& final(self).pool().backends() == old(self).pool().backends()
                &&& final(self).pool().healthy_view() == old(self).pool().healthy_view()
                &&& final(self).breakers() == old(self).breakers()
                &&& final(self).metrics() == old(self).metrics()
            },
            old(self).pool().healthy_view().len() > 0 ==> exists|k: int, elapsed: u64|
                0 <= k < old(self).pool().healthy_view().len() && #[trigger] old(
                    self,
                ).attempt_started(*final(self), r, old(self).pool().healthy_view()[k], elapsed)
                    && old(self).balancer().picks(
                    final(self).balancer(),
                    old(self).pool().candidates(),
                    address_bytes(client_addr),
                    k,
                ),
            old(self).pool().healthy_view().len() == 0 ==> final(self).balancer() == old(
                self,
            ).balancer(),
    {
        let ghost before = *self;
        let healthy = self.pool.get_healthy_backends();
        if healthy.len() == 0 {
            return Err(ProxyError::NoHealthyBackends);
        }
        let chosen = self.load_balancer.select_backend(healthy.as_slice(), client_addr);
        let backend = match chosen {
            Some(b) => b,
            None => {
                // Never taken: there is a choice wherever there is a candidate.
                assert(false);
                return Err(ProxyError::NoHealthyBackends);
            },
        };
        let ghost k = choose|k: int|
            0 <= k < healthy@.len() && chosen == Some(#[trigger] healthy@[k])
                && before.balancer().picks(
                self.balancer(),
                views_of(healthy@),
                address_bytes(client_addr),
                k,
            );
        proof {
            assert(views_of(healthy@) =~= before.pool().candidates());
        }
        let id = backend.id().clone();
        let url = as_text(backend.url());
        proof {
            assert(healthy@[k]@.id == before.pool().healthy_view()[k]);
            assert(id@ == before.pool().healthy_view()[k]);
        }
        let breaker = self.circuit_breakers.get_or_create(id.as_str());
        let ghost b0 = breaker@;
        let permitted = breaker.call_permitted();
        let ghost b1 = breaker@;
        let ghost elapsed = choose|elapsed: u64|
            permitted == #[trigger] b0.permits(elapsed) && b1 == b0.after_permit(elapsed);
        proof {
            assert(b0 == breaker_of(before.breakers(), before.breaker_config(), id@));
        }
        if !permitted {
            let r = Err(ProxyError::CircuitBreakerOpen(id));
            proof {
                assert(before.attempt_started(*self, r, before.pool().healthy_view()[k], elapsed));
            }
            return r;
        }
        let slot = match self.pool.find(id.as_str()) {
            Some(slot) => slot,
            None => {
                // Never taken: the chosen backend is in the pool.
                assert(false);
                return Err(ProxyError::NoHealthyBackends);
            },
        };
        if !self.pool.increment_connections(slot) {
            let r = Err(ProxyError::ConnectionLimitReached(id));
            proof {
                assert(self.pool().backends() =~= before.pool().backends());
                assert(before.attempt_started(*self, r, before.pool().healthy_view()[k], elapsed));
            }
            return r;
        }
        let active = self.pool.backend_at(slot).active_connections();
        self.metrics.update_backend_connections(id.as_str(), to_gauge(active));
        let r = Ok(Admission { backend_id: id, backend_url: url });
        proof {
            assert(ids_of(self.pool().backends()) =~= ids_of(before.pool().backends()));
            assert(before.attempt_started(*self, r, before.pool().healthy_view()[k], elapsed));
        }
        r
    }
}

impl Proxy {
    /// The reports that finishing an attempt on `id` adds: the forwarded
    /// request, and, where the backend is still in the pool, the
    /// connections that it now holds and the state of its breaker.
    pub open spec fn finish_reports(
        &self,
        id: Seq<char>,
        outcome: UpstreamOutcome,
        duration_ms: u64,
        breaker_after: BreakerView,
    ) -> Seq<MetricEventView> {
        let first = seq![
            MetricEventView::BackendRequest {
                backend: id,
                status: outcome_label(outcome.answered_ok()),
                duration_ms,
            },
        ];
        match self.pool().slot_of(id) {
            Some(slot) => first + seq![
                MetricEventView::BackendConnections {
                    backend: id,
                    count: gauge_of(
                        settled(
                            self.pool().backends()[slot],
                            outcome.succeeded(),
                        ).active_connections,
                    ),
                },
                MetricEventView::CircuitBreakerState {
                    backend: id,
                    value: state_value(breaker_after.state),
                },
            ],
            None => first,
        }
    }

    /// What it means that an attempt on the backend `id` was finished at
    /// `now` with `outcome`. The backend gets its slot back and counts
    /// the request; its breaker counts a success or a failure; the sink
    /// is told. Where the backend has left the pool in the meantime, only
    /// the sink is told of the forwarded request.
    pub open spec fn attempt_finished(
        &self,
        after: Proxy,
        id: Seq<char>,
        outcome: UpstreamOutcome,
        duration_ms: u64,
        now: Instant,
    ) -> bool {
        let backends = self.pool().backends();
        let breaker = breaker_of(self.breakers(), self.breaker_config(), id);
        let breaker_after = if outcome.succeeded() {
            breaker.success()
        } else {
            breaker.failure(now)
        };
        &&& after.pool().healthy_view() == self.pool().healthy_view()
        &&& after.metrics() == self.metrics() + self.finish_reports(
            id,
            outcome,
            duration_ms,
            breaker_after,
        )
        &&& match self.pool().slot_of(id) {
            Some(slot) => {
                &&& after.pool().backends() == backends.update(
                    slot,
                    settled(backends[slot], outcome.succeeded()),
                )
                &&& after.breakers() == self.breakers().insert(id, breaker_after)
            },
            None => after.pool().backends() == backends && after.breakers() == self.breakers(),
        }
    }

    /// Finishes the attempt that was started on `backend_id`: the slot
    /// goes back to the backend, and the outcome is counted by the
    /// backend and by its breaker. A response with a 2xx or 3xx status is
    /// a success; any other response, and no response, is a failure.
    pub fn finish_attempt(&mut self, backend_id: &str, outcome: UpstreamOutcome, duration_ms: u64) -> (r:
        AttemptResult)
        requires
            old(self).wf(),
        ensures
            final(self).wf(),
            final(self).same_setup(*old(self)),
            final(self).balancer() == old(self).balancer(),
            r@ == outcome.result(),
            exists|now: Instant| #[trigger]
                old(self).attempt_finished(*final(self), backend_id@, outcome, duration_ms, now),
    {
        let ghost before = *self;
        let success = match &outcome {
            UpstreamOutcome::Response(code) => 200 <= *code && *code < 400,
            _ => false,
        };
        let answered_ok = match &outcome {
            UpstreamOutcome::Response(code) => 200 <= *code && *code < 300,
            _ => false,
        };
        self.metrics.record_backend_request(backend_id, answered_ok, duration_ms);
        proof {
            before.pool().lemma_wf();
        }
        match self.pool.find(backend_id) {
            Some(slot) => {
                if self.pool.backend_at(slot).active_connections() > 0 {
                    self.pool.decrement_connections(slot);
                }
                self.pool.record_request(slot, success);
                let active = self.pool.backend_at(slot).active_connections();
                self.metrics.update_backend_connections(backend_id, to_gauge(active));
                proof {
                    assert(self.pool().backends() =~= before.pool().backends().update(
                        slot as int,
                        settled(before.pool().backends()[slot as int], success),
                    ));
                    assert(ids_of(self.pool().backends()) =~= ids_of(before.pool().backends()));
                }
                let breaker = self.circuit_breakers.get_or_create(backend_id);
                let ghost b0 = breaker@;
                if success {
                    breaker.record_success();
                } else {
                    breaker.record_failure();
                }
                let ghost b1 = breaker@;
                let state = breaker.get_state();
                self.metrics.update_circuit_breaker_state(backend_id, state);
                let ghost now = if success {
                    arbitrary()
                } else {
                    choose|now: Instant| b1 == #[trigger] b0.failure(now)
                };
                proof {
                    assert(b0 == breaker_of(
                        before.breakers(),
                        before.breaker_config(),
                        backend_id@,
                    ));
                    assert(self.metrics() =~= before.metrics() + before.finish_reports(
                        backend_id@,
                        outcome,
                        duration_ms,
                        b1,
                    ));
                    assert(ids_of(self.pool().backends())[slot as int] == backend_id@);
                    assert(before.attempt_finished(*self, backend_id@, outcome, duration_ms, now));
                }
            },
            None => {
                proof {
                    assert(self.metrics() =~= before.metrics() + before.finish_reports(
                        backend_id@,
                        outcome,
                        duration_ms,
                        arbitrary(),
                    ));
                    let now: Instant = arbitrary();
                    assert(before.attempt_finished(*self, backend_id@, outcome, duration_ms, now));
                }
            },
        }
        match outcome {
            UpstreamOutcome::Response(code) => AttemptResult::Response(code),
            UpstreamOutcome::TransportError(why) => AttemptResult::Failed(
                ProxyError::BackendError(why),
            ),
            UpstreamOutcome::TimedOut => AttemptResult::Failed(ProxyError::Timeout),
            UpstreamOutcome::InvalidUri(why) => AttemptResult::Failed(ProxyError::InvalidUri(why)),
        }
    }

    /// Decides what follows attempt number `attempt`, which gave
    /// `result`: the response or the error goes to the client, or another
    /// attempt is made after a pause with a random jitter.
    pub fn after_attempt(&self, attempt: u32, result: AttemptResult) -> (next: NextMove)
        requires
            attempt >= 1,
        ensures
            exists|jitter: u64|
                jitter <= max_jitter(self.retry().pause_after(attempt)) && next@
                    == #[trigger] next_move_of(self.retry(), attempt, result@, jitter),
    {
        match result {
            AttemptResult::Response(code) => {
                if 200 <= code && code < 400 {
                    let next = NextMove::Respond(code);
                    assert(next@ == next_move_of(self.retry(), attempt, result@, 0));
                    return next;
                }
                let step = self.retry_strategy.after_decision(attempt, decide_for_code(code));
                let ghost jitter = choose|jitter: u64|
                    jitter <= max_jitter(self.retry().pause_after(attempt)) && step
                        == #[trigger] self.retry().step(attempt, result@.decision(), jitter);
                let next = match step {
                    RetryStep::GiveUp => NextMove::Respond(code),
                    RetryStep::Backoff(ms) => NextMove::RetryAfter(ms),
                };
                assert(next@ == next_move_of(self.retry(), attempt, result@, jitter));
                next
            },
            AttemptResult::Failed(error) => {
                let step = self.retry_strategy.after_decision(attempt, error.retry_decision());
                let ghost jitter = choose|jitter: u64|
                    jitter <= max_jitter(self.retry().pause_after(attempt)) && step
                        == #[trigger] self.retry().step(attempt, result@.decision(), jitter);
                let next = match step {
                    RetryStep::GiveUp => NextMove::Fail(error),
                    RetryStep::Backoff(ms) => NextMove::RetryAfter(ms),
                };
                assert(next@ == next_move_of(self.retry(), attempt, result@, jitter));
                next
            },
        }
    }

    /// What it means that a request was served, by the attempts of
    /// `run` in order, and answered as `handled` says. The request got
    /// the identifier and the client address of `ctx` on arrival. Every
    /// attempt but the last was a failure that is retried, and was
    /// followed by a pause; each attempt began where the one before had
    /// ended. The last attempt decided the answer: the backend's
    /// response, or the error. Every backend has counted the outcomes of
    /// the attempts that it took, and is as before in everything else.
    /// The sink was told of the arrival, of every attempt and of the
    /// answer.
    pub open spec fn request_served<F: Fn(&Admission, &RequestContext) -> (UpstreamOutcome, u64)>(
        &self,
        after: Proxy,
        handled: Handled,
        ctx: RequestContext,
        run: Seq<AttemptRecord>,
        method: Seq<char>,
        forwarded_for: Option<Seq<char>>,
        peer_addr: Option<Seq<char>>,
        forward: F,
    ) -> bool {
        let retry = self.retry();
        &&& run.len() >= 1
        &&& run.len() == handled.attempts
        &&& handled.request_id == ctx.request_id
        &&& ctx.request_id@.len() == 36
        &&& client_addr_is(
            forwarded_for,
            peer_addr,
            match ctx.client_addr {
                Some(addr) => Some(addr@),
                None => None,
            },
        )
        &&& run[0].before.pool() == self.pool()
        &&& run[0].before.breakers() == self.breakers()
        &&& run[0].before.balancer() == self.balancer()
        &&& run[0].before.same_setup(*self)
        &&& run[0].before.metrics() == self.metrics().push(MetricEventView::ConnectionOpened)
        &&& forall|i: int| 0 <= i < run.len() ==> (#[trigger] run[i]).ran(ctx, forward)
        &&& forall|i: int| 0 <= i < run.len() ==> (#[trigger] run[i]).before.wf()
        &&& forall|i: int|
            0 <= i < run.len() ==> (#[trigger] run[i]).jitter <= max_jitter(
                retry.pause_after((i + 1) as u32),
            )
        &&& linked(run)
        &&& forall|i: int|
            0 <= i < run.len() - 1 ==> next_move_of(
                retry,
                (i + 1) as u32,
                (#[trigger] run[i]).result(),
                run[i].jitter,
            ) == NextMoveView::RetryAfter(run[i].paused)
        &&& run.last().paused == 0
        &&& after.pool().backends().len() == self.pool().backends().len()
        &&& forall|i: int|
            0 <= i < self.pool().backends().len() ==> #[trigger] after.pool().backends()[i]
                == recorded(self.pool().backends()[i], served_outcomes(run, i))
        &&& after.pool() == run.last().after.pool()
        &&& after.breakers() == run.last().after.breakers()
        &&& after.balancer() == run.last().after.balancer()
        &&& after.same_setup(*self)
        &&& match next_move_of(retry, handled.attempts, run.last().result(), run.last().jitter) {
            NextMoveView::Respond(status) => {
                &&& handled.result matches Ok(answer)
                &&& run.last().started matches Ok(admission)
                &&& answer.0 == status
                &&& answer.1@ == admission.backend_id@
                &&& after.metrics() == run.last().after.metrics().push(
                    MetricEventView::ConnectionClosed,
                ).push(
                    MetricEventView::Request {
                        method,
                        status_code: crate::text::decimal(status as nat),
                        backend: admission.backend_id@,
                        duration_ms: spent_in(run),
                    },
                )
            },
            NextMoveView::Fail(e) => {
                &&& handled.result matches Err(told)
                &&& told@ == e
                &&& after.metrics() == run.last().after.metrics().push(
                    MetricEventView::ConnectionClosed,
                ).push(
                    MetricEventView::Request {
                        method,
                        status_code: crate::text::decimal(503),
                        backend: "none"@,
                        duration_ms: spent_in(run),
                    },
                )
            },
            NextMoveView::RetryAfter(_) => false,
        }
    }

    /// Serves one request from its arrival to its answer: attempts are
    /// made until one succeeds, fails for good or uses up the attempts,
    /// with a pause before every further attempt. `forward` sends the
    /// request to the admitted backend and says how that ended and how
    /// many milliseconds it took; `pause` waits for the milliseconds it
    /// is handed. However the request ends, every backend holds as many
    /// connections afterwards as before, and only backends of the
    /// healthy view have counted requests.
    pub fn handle<F: Fn(&Admission, &RequestContext) -> (UpstreamOutcome, u64), P: Fn(u64)>(
        &mut self,
        method: &str,
        forwarded_for: Option<&str>,
        peer_addr: Option<&str>,
        forward: F,
        pause: P,
    ) -> (handled: Handled)
        requires
            old(self).wf(),
            forall|a: &Admission, c: &RequestContext| forward.requires((a, c)),
            forall|ms: u64| pause.requires((ms,)),
        ensures
            final(self).wf(),
            final(self).same_setup(*old(self)),
            exists|ctx: RequestContext, run: Seq<AttemptRecord>| #[trigger]
                old(self).request_served(
                    *final(self),
                    handled,
                    ctx,
                    run,
                    method@,
                    text_of(forwarded_for),
                    text_of(peer_addr),
                    forward,
                ),
            handled.request_id@.len() == 36,
            1 <= handled.attempts,
            handled.attempts <= old(self).retry().config().max_attempts || handled.attempts == 1,
            final(self).pool().healthy_view() == old(self).pool().healthy_view(),
            ids_of(final(self).pool().backends()) == ids_of(old(self).pool().backends()),
            forall|i: int|
                0 <= i < old(self).pool().backends().len() ==> (
                #[trigger] final(self).pool().backends()[i]).active_connections == old(
                    self,
                ).pool().backends()[i].active_connections,
            forall|i: int|
                0 <= i < old(self).pool().backends().len() && !old(
                    self,
                ).pool().healthy_view().contains(old(self).pool().backends()[i].id)
                    ==> #[trigger] final(self).pool().backends()[i] == old(
                    self,
                ).pool().backends()[i],
            exists|counted: Seq<Seq<bool>>| #[trigger]
                only_counted(
                    old(self).pool().backends(),
                    final(self).pool().backends(),
                    counted,
                    handled.attempts as nat,
                ),
            old(self).pool().healthy_view().len() == 0 <==> (handled.result is Err
                && handled.result->Err_0@ is NoHealthyBackends),
            handled.result is Err && handled.result->Err_0@ is CircuitBreakerOpen ==> {
                let id = handled.result->Err_0@->CircuitBreakerOpen_0;
                &&& old(self).pool().healthy_view().contains(id)
                &&& final(self).breakers().contains_key(id)
                &&& final(self).breakers()[id].state == CircuitBreakerState::Open
            },
            handled.result is Err && handled.result->Err_0@ is ConnectionLimitReached ==> {
                let id = handled.result->Err_0@->ConnectionLimitReached_0;
                &&& old(self).pool().healthy_view().contains(id)
                &&& old(self).pool().slot_of(id) is Some
                &&& !old(self).pool().backends()[old(self).pool().slot_of(id)->0].has_slot()
            },
            (match handled.result {
                Ok((status, backend)) => {
                    &&& old(self).pool().healthy_view().contains(backend@)
                    &&& is_success_status(status) || !retryable_code(status) || old(
                        self,
                    ).retry().is_last(handled.attempts)
                    &&& exists|a: &Admission, c: &RequestContext, ms: u64|
                        a.backend_id@ == backend@ && c.request_id == handled.request_id
                            && #[trigger] forward.ensures(
                            (a, c),
                            (UpstreamOutcome::Response(status), ms),
                        )
                },
                Err(e) => {
                    &&& !e@.retryable() || old(self).retry().is_last(handled.attempts)
                    &&& e@ is NoHealthyBackends || e@ is CircuitBreakerOpen || e@
                        is ConnectionLimitReached || exists|
                        a: &Admission,
                        c: &RequestContext,
                        outcome: UpstreamOutcome,
                        ms: u64,
                    |
                        outcome.result() == AttemptResultView::Failed(e@) && c.request_id
                            == handled.request_id && #[trigger] forward.ensures(
                            (a, c),
                            (outcome, ms),
                        )
                },
            }),
    {
        let ghost entry = *self;
        let ctx = self.begin_request(forwarded_for, peer_addr);
        let ghost start = *self;
        let ghost view = start.pool().healthy_view();
        let ghost n = start.pool().backends().len();
        let ghost mut run: Seq<AttemptRecord> = Seq::empty();
        let ghost mut counted: Seq<Seq<bool>> = Seq::new(n, |i: int| Seq::<bool>::empty());
        let mut attempt: u32 = 1;
        let mut spent: u64 = 0;
        proof {
            reveal(retried_so_far);
        }
        loop
            invariant
                self.wf(),
                entry == *old(self),
                entry.wf(),
                start.same_setup(entry),
                start.pool() == entry.pool(),
                start.breakers() == entry.breakers(),
                start.balancer() == entry.balancer(),
                start.metrics() == entry.metrics().push(MetricEventView::ConnectionOpened),
                view == start.pool().healthy_view(),
                n == start.pool().backends().len(),
                self.same_setup(start),
                self.pool().healthy_view() == view,
                self.pool().backends().len() == n,
                ids_of(self.pool().backends()) == ids_of(start.pool().backends()),
                counted.len() == n,
                counted_so_far(
                    start.pool().backends(),
                    self.pool().backends(),
                    counted,
                    view,
                    run.len(),
                ),
                forall|i: int| 0 <= i < n ==> #[trigger] counted[i] == served_outcomes(run, i),
                1 <= attempt,
                attempt <= start.retry().config().max_attempts || attempt == 1,
                run.len() == attempt - 1,
                run.len() == 0 ==> *self == start,
                run.len() > 0 ==> run.last().after == *self,
                retried_so_far(run, ctx, forward, start),
                spent == spent_in(run),
                ctx.request_id@.len() == 36,
                client_addr_is(
                    text_of(forwarded_for),
                    text_of(peer_addr),
                    match ctx.client_addr {
                        Some(addr) => Some(addr@),
                        None => None,
                    },
                ),
                forall|a: &Admission, c: &RequestContext| forward.requires((a, c)),
                forall|ms: u64| pause.requires((ms,)),
            decreases u32::MAX - attempt,
        {
            let ghost before = *self;
            let ghost earlier = run;
            let ghost counted_before = counted;
            let (result, served_by, took, Ghost(made)) = self.attempt(&ctx, &forward);
            spent = spent.saturating_add(took);
            let ghost mut rec = made;
            proof {
                lemma_attempt_effect(rec, ctx, forward);
                lemma_attempt_answer(rec, ctx, forward);
                counted = lemma_counted_step(
                    start.pool().backends(),
                    before.pool().backends(),
                    self.pool().backends(),
                    counted,
                    rec.served_slot(),
                    rec.outcome.succeeded(),
                    view,
                    earlier.len(),
                );
            }
            let ghost gave = result@;
            let next = self.after_attempt(attempt, result);
            proof {
                let jitter = choose|jitter: u64|
                    jitter <= max_jitter(self.retry().pause_after(attempt)) && next@
                        == #[trigger] next_move_of(self.retry(), attempt, gave, jitter);
                lemma_ran_whatever_the_pause(made, jitter, 0, ctx, forward);
                rec = AttemptRecord { jitter, paused: 0, ..made };
            }
            match next {
                NextMove::Respond(status) => {
                    let backend = match served_by {
                        Some(id) => id,
                        None => {
                            // Never taken: a response comes from a backend.
                            assert(false);
                            "unknown".to_string()
                        },
                    };
                    self.end_request(method, Some(status), Some(backend.as_str()), spent);
                    let handled = Handled {
                        request_id: ctx.request_id,
                        result: Ok((status, backend)),
                        attempts: attempt,
                    };
                    proof {
                        lemma_served_outcomes_push(earlier, rec, counted_before, counted);
                        lemma_counts_follow_run(
                            entry.pool().backends(),
                            self.pool().backends(),
                            counted,
                            view,
                            attempt as nat,
                            earlier.push(rec),
                        );
                        lemma_request_served(
                            entry,
                            start,
                            *self,
                            handled,
                            ctx,
                            earlier,
                            rec,
                            method@,
                            text_of(forwarded_for),
                            text_of(peer_addr),
                            forward,
                            spent,
                        );
                        lemma_counted_done(
                            entry.pool().backends(),
                            self.pool().backends(),
                            counted,
                            view,
                            attempt as nat,
                        );
                        lemma_forwarded(rec, ctx, forward);
                    }
                    return handled;
                },
                NextMove::Fail(e) => {
                    self.end_request(method, None, None, spent);
                    let handled = Handled {
                        request_id: ctx.request_id,
                        result: Err(e),
                        attempts: attempt,
                    };
                    proof {
                        lemma_served_outcomes_push(earlier, rec, counted_before, counted);
                        lemma_counts_follow_run(
                            entry.pool().backends(),
                            self.pool().backends(),
                            counted,
                            view,
                            attempt as nat,
                            earlier.push(rec),
                        );
                        lemma_request_served(
                            entry,
                            start,
                            *self,
                            handled,
                            ctx,
                            earlier,
                            rec,
                            method@,
                            text_of(forwarded_for),
                            text_of(peer_addr),
                            forward,
                            spent,
                        );
                        lemma_counted_done(
                            entry.pool().backends(),
                            self.pool().backends(),
                            counted,
                            view,
                            attempt as nat,
                        );
                        lemma_forwarded(rec, ctx, forward);
                    }
                    return handled;
                },
                NextMove::RetryAfter(ms) => {
                    pause(ms);
                    spent = spent.saturating_add(ms);
                    proof {
                        lemma_ran_whatever_the_pause(made, rec.jitter, ms, ctx, forward);
                        rec = AttemptRecord { jitter: rec.jitter, paused: ms, ..made };
                        run = earlier.push(rec);
                        lemma_run_extended(earlier, rec, ctx, forward, start, attempt);
                        assert(run.drop_last() =~= earlier);
                        assert(run.last() == rec);
                        lemma_served_outcomes_push(earlier, rec, counted_before, counted);
                    }
                    attempt = attempt + 1;
                },
            }
        }
    }

    /// Makes one attempt: a backend is selected and asked to take the
    /// request, and where it does, `forward` sends the request and the
    /// attempt is finished with what `forward` gave. Returned are what
    /// the attempt gave, the backend that took it, and the milliseconds
    /// that forwarding took.
    fn attempt<F: Fn(&Admission, &RequestContext) -> (UpstreamOutcome, u64)>(
        &mut self,
        ctx: &RequestContext,
        forward: &F,
    ) -> (r: (AttemptResult, Option<String>, u64, Ghost<AttemptRecord>))
        requires
            old(self).wf(),
            forall|a: &Admission, c: &RequestContext| forward.requires((a, c)),
        ensures
            final(self).wf(),
            final(self).same_setup(*old(self)),
            r.3@.before == *old(self),
            r.3@.after == *final(self),
            r.3@.ran(*ctx, *forward),
            r.3@.jitter == 0,
            r.3@.paused == 0,
            r.0@ == r.3@.result(),
            r.2 == r.3@.forwarding_time(),
            (match r.1 {
                Some(id) => r.3@.started is Ok && id@ == r.3@.started->Ok_0.backend_id@,
                None => r.3@.started is Err,
            }),
    {
        let ghost before = *self;
        let ghost view = before.pool().healthy_view();
        let client = match &ctx.client_addr {
            Some(addr) => Some(addr.as_str()),
            None => None,
        };
        proof {
            assert(address_bytes(client) == client_bytes(*ctx));
        }
        let started = self.start_attempt(client);
        let ghost admitted = *self;
        let ghost begun = started;
        let ghost (choice, elapsed) = if view.len() > 0 {
            choose|k: int, elapsed: u64|
                0 <= k < before.pool().healthy_view().len() && #[trigger] before.attempt_started(
                    admitted,
                    started,
                    before.pool().healthy_view()[k],
                    elapsed,
                ) && before.balancer().picks(
                    admitted.balancer(),
                    before.pool().candidates(),
                    address_bytes(client),
                    k,
                )
        } else {
            (0int, 0u64)
        };
        let ghost mut rec = AttemptRecord {
            before,
            admitted,
            after: admitted,
            started: begun,
            choice,
            elapsed,
            outcome: UpstreamOutcome::TimedOut,
            took: 0,
            now: arbitrary(),
            jitter: 0,
            paused: 0,
        };
        match started {
            Err(e) => {
                proof {
                    assert(rec.ran(*ctx, *forward));
                }
                (AttemptResult::Failed(e), None, 0, Ghost(rec))
            },
            Ok(admission) => {
                let (outcome, ms) = forward(&admission, ctx);
                let ghost gave = outcome;
                let result = self.finish_attempt(admission.backend_id.as_str(), outcome, ms);
                proof {
                    let now = choose|now: Instant| #[trigger]
                        admitted.attempt_finished(*self, admission.backend_id@, gave, ms, now);
                    rec = AttemptRecord { after: *self, outcome: gave, took: ms, now, ..rec };
                    assert(forward.ensures((&admission, ctx), (gave, ms)));
                    assert(rec.ran(*ctx, *forward));
                }
                (result, Some(admission.backend_id), ms, Ghost(rec))
            },
        }
    }

    /// What the health checker's loop does on `event`.
    pub fn health_event(&mut self, event: CheckerEvent) -> (action: CheckerAction)
        ensures
            action == (if old(self).checker().stopped() {
                CheckerAction::Stop
            } else {
                match event {
                    CheckerEvent::Tick => CheckerAction::RunRound,
                    CheckerEvent::ShutdownChanged(true) => CheckerAction::Stop,
                    CheckerEvent::ShutdownChanged(false) => CheckerAction::Wait,
                }
            }),
            final(self).checker().stopped() == (old(self).checker().stopped() || event
                == CheckerEvent::ShutdownChanged(true)),
            final(self).checker().config() == old(self).checker().config(),
            final(self).balancer() == old(self).balancer(),
            final(self).pool() == old(self).pool(),
            final(self).breakers() == old(self).breakers(),
            final(self).breaker_config() == old(self).breaker_config(),
            final(self).retry() == old(self).retry(),
            final(self).metrics() == old(self).metrics(),
            old(self).wf() ==> final(self).wf(),
    {
        self.health_checker.on_event(event)
    }

    /// The probes of a round: one per backend, in slot order.
    pub fn probe_targets(&self) -> (targets: Vec<ProbeTarget>)
        requires
            self.wf(),
        ensures
            targets@.len() == self.pool().backends().len(),
            forall|i: int|
                0 <= i < targets@.len() ==> (#[trigger] targets@[i]).backend_id@
                    == self.pool().backends()[i].id,
            forall|i: int|
                0 <= i < targets@.len() ==> (match (#[trigger] targets@[i]).url {
                    Ok(target) => url_join(
                        self.pool().backends()[i].url,
                        self.checker().config().path@,
                    ) == Some(target@),
                    Err(e) => e == ProbeError::InvalidUrl && url_join(
                        self.pool().backends()[i].url,
                        self.checker().config().path@,
                    ) is None,
                }),
    {
        let n = self.pool.len();
        let mut targets: Vec<ProbeTarget> = Vec::new();
        let mut i: usize = 0;
        while i < n
            invariant
                i <= n,
                n == self.pool().backends().len(),
                self.wf(),
                targets@.len() == i,
                forall|k: int|
                    0 <= k < i ==> (#[trigger] targets@[k]).backend_id@
                        == self.pool().backends()[k].id,
                forall|k: int|
                    0 <= k < i ==> (match (#[trigger] targets@[k]).url {
                        Ok(target) => url_join(
                            self.pool().backends()[k].url,
                            self.checker().config().path@,
                        ) == Some(target@),
                        Err(e) => e == ProbeError::InvalidUrl && url_join(
                            self.pool().backends()[k].url,
                            self.checker().config().path@,
                        ) is None,
                    }),
            decreases n - i,
        {
            let backend = self.pool.backend_at(i);
            let url = self.health_checker.probe_url(backend);
            targets.push(ProbeTarget { backend_id: backend.id().clone(), url });
            i = i + 1;
        }
        targets
    }

    /// Records the outcome of a probe of `backend_id` that has just
    /// ended, and tells the sink what the probe found. Nothing happens
    /// where the backend has left the pool.
    pub fn record_probe(&mut self, backend_id: &str, outcome: ProbeOutcome, response_time_ms: u64) -> (r:
        Option<(HealthCheckResult, Option<HealthTransition>)>)
        requires
            old(self).wf(),
        ensures
            final(self).wf(),
            final(self).same_setup(*old(self)),
            final(self).balancer() == old(self).balancer(),
            final(self).breakers() == old(self).breakers(),
            final(self).pool().healthy_view() == old(self).pool().healthy_view(),
            (match old(self).pool().slot_of(backend_id@) {
                None => r is None && final(self).pool().backends() == old(self).pool().backends()
                    && final(self).metrics() == old(self).metrics(),
                Some(slot) => {
                    &&& r matches Some(found)
                    &&& exists|now: i64|
                        final(self).pool().backends() == old(self).pool().backends().update(
                            slot,
                            #[trigger] old(self).pool().backends()[slot].probe(
                                outcome_is_healthy(outcome),
                                now,
                            ),
                        )
                    &&& found.0.backend_id@ == backend_id@
                    &&& found.0.healthy == outcome_is_healthy(outcome)
                    &&& found.0.response_time_ms == response_time_ms
                    &&& (match found.0.error {
                        Some(why) => outcome_error(outcome) == Some(why@),
                        None => outcome_error(outcome) is None,
                    })
                    &&& found.1 == crossing(
                        old(self).checker().config(),
                        old(self).pool().backends()[slot].is_healthy(),
                        outcome_is_healthy(outcome),
                        final(self).pool().backends()[slot],
                    )
                    &&& final(self).metrics() == old(self).metrics().push(
                        MetricEventView::BackendHealth {
                            backend: backend_id@,
                            value: health_value(outcome_is_healthy(outcome)),
                        },
                    )
                },
            }),
    {
        match self.pool.find(backend_id) {
            None => None,
            Some(slot) => {
                let ghost ids = ids_of(self.pool().backends());
                let found = self.health_checker.check_backend(
                    &mut self.pool,
                    slot,
                    outcome,
                    response_time_ms,
                );
                self.metrics.update_backend_health(backend_id, found.0.healthy);
                proof {
                    assert(ids_of(self.pool().backends()) =~= ids);
                }
                Some(found)
            },
        }
    }

    /// Ends a round of probes: the healthy view is rebuilt from the
    /// health that the backends now have, and the sink is told how many
    /// backends are in it.
    pub fn finish_health_round(&mut self, results: &Vec<Result<HealthCheckResult, ProbeError>>) -> (summary:
        RoundSummary)
        requires
            old(self).wf(),
        ensures
            final(self).wf(),
            final(self).same_setup(*old(self)),
            final(self).balancer() == old(self).balancer(),
            final(self).breakers() == old(self).breakers(),
            final(self).pool().backends() == old(self).pool().backends(),
            final(self).pool().healthy_view() == healthy_ids(old(self).pool().backends()),
            summary.healthy == count_healthy(results@),
            summary.healthy + summary.unhealthy == results@.len(),
            summary.healthy_backends == final(self).pool().healthy_view().len(),
            summary.total_backends == final(self).pool().backends().len(),
            final(self).metrics() == old(self).metrics().push(
                MetricEventView::BackendCounts {
                    healthy: gauge_of(summary.healthy_backends),
                    total: gauge_of(summary.total_backends),
                },
            ),
    {
        let summary = self.health_checker.check_all_backends(&mut self.pool, results);
        self.metrics.update_backend_counts(summary.healthy_backends, summary.total_backends);
        summary
    }

    /// Adds a backend while the proxy runs; see `BackendPool::add_backend`.
    pub fn add_backend(&mut self, config: BackendConfig)
        requires
            old(self).wf(),
        ensures
            final(self).wf(),
            final(self).same_setup(*old(self)),
            final(self).balancer() == old(self).balancer(),
            final(self).breakers() == old(self).breakers(),
            final(self).metrics() == old(self).metrics(),
            exists|now: i64|
                final(self).pool().backends() == upsert(
                    old(self).pool().backends(),
                    #[trigger] BackendView::initial(
                        config.url,
                        config.weight,
                        config.max_connections,
                    ).probe(false, now),
                ),
            final(self).pool().healthy_view() == without(
                old(self).pool().healthy_view(),
                BackendView::initial(config.url, config.weight, config.max_connections).id,
            ),
    {
        let ghost before = *self;
        self.pool.add_backend(config);
        proof {
            let old_ids = ids_of(before.pool().backends());
            let new_ids = ids_of(self.pool().backends());
            assert forall|id: Seq<char>| old_ids.contains(id) implies new_ids.contains(id) by {
                let i = choose|i: int| 0 <= i < old_ids.len() && old_ids[i] == id;
                assert(new_ids[i] == id);
            }
        }
    }

    /// Removes the backend `backend_id` from the pool and from the
    /// healthy view, and its breaker with it.
    pub fn remove_backend(&mut self, backend_id: &str) -> (removed: bool)
        requires
            old(self).wf(),
        ensures
            final(self).wf(),
            final(self).same_setup(*old(self)),
            final(self).balancer() == old(self).balancer(),
            final(self).metrics() == old(self).metrics(),
            removed == old(self).pool().slot_of(backend_id@) is Some,
            removed ==> final(self).pool().backends() == old(self).pool().backends().remove(
                old(self).pool().slot_of(backend_id@)->0,
            ),
            !removed ==> final(self).pool().backends() == old(self).pool().backends(),
            final(self).pool().healthy_view() == without(
                old(self).pool().healthy_view(),
                backend_id@,
            ),
            !ids_of(final(self).pool().backends()).contains(backend_id@),
            final(self).breakers() == old(self).breakers().remove(backend_id@),
    {
        let ghost before = *self;
        let removed = self.pool.remove_backend(backend_id);
        self.circuit_breakers.remove(backend_id);
        proof {
            let old_ids = ids_of(before.pool().backends());
            let new_ids = ids_of(self.pool().backends());
            assert forall|id: Seq<char>| #[trigger]
                self.circuit_breakers@.contains_key(id) implies new_ids.contains(id) by {
                assert(before.circuit_breakers@.contains_key(id) && id != backend_id@);
                let i = choose|i: int| 0 <= i < old_ids.len() && old_ids[i] == id;
                if removed {
                    let slot = before.pool().slot_of(backend_id@)->0;
                    assert(old_ids[slot] == backend_id@);
                    if i < slot {
                        assert(new_ids[i] == id);
                    } else {
                        assert(new_ids[i - 1] == id);
                    }
                } else {
                    assert(new_ids[i] == id);
                }
            }
        }
        removed
    }
}

/// What the backends have counted so far in a request: every backend
/// is as at the arrival of the request but for the outcomes that it has
/// recorded, which are no more than the attempts made, and none where
/// the backend is outside the healthy view.
pub open spec fn counted_so_far(
    start: Seq<BackendView>,
    now: Seq<BackendView>,
    counted: Seq<Seq<bool>>,
    view: Seq<Seq<char>>,
    made: nat,
) -> bool {
    &&& counted.len() == start.len()
    &&& now.len() == start.len()
    &&& forall|i: int|
        0 <= i < start.len() ==> now[i] == recorded(start[i], #[trigger] counted[i])
            && counted[i].len() <= made && (counted[i].len() > 0 ==> view.contains(start[i].id))
}

/// One more attempt keeps the count: the backend that took the attempt
/// has recorded one more outcome, the others none.
proof fn lemma_counted_step(
    start: Seq<BackendView>,
    before: Seq<BackendView>,
    after: Seq<BackendView>,
    counted: Seq<Seq<bool>>,
    served: Option<int>,
    success: bool,
    view: Seq<Seq<char>>,
    made: nat,
) -> (next: Seq<Seq<bool>>)
    requires
        counted_so_far(start, before, counted, view, made),
        after.len() == before.len(),
        served matches Some(slot) ==> 0 <= slot < before.len() && view.contains(before[slot].id),
        forall|i: int|
            0 <= i < before.len() ==> #[trigger] after[i] == (if served == Some(i) {
                before[i].record(success)
            } else {
                before[i]
            }),
    ensures
        counted_so_far(start, after, next, view, made + 1),
        next == (match served {
            Some(slot) => counted.update(slot, counted[slot].push(success)),
            None => counted,
        }),
        forall|i: int|
            0 <= i < start.len() ==> (#[trigger] after[i]).active_connections
                == start[i].active_connections,
        forall|i: int|
            0 <= i < start.len() ==> (#[trigger] before[i]).has_slot() == start[i].has_slot(),
{
    assert forall|i: int| 0 <= i < start.len() implies (#[trigger] before[i]).has_slot()
        == start[i].has_slot() by {
        assert(before[i] == recorded(start[i], counted[i]));
        lemma_recorded_keeps_the_rest(start[i], counted[i]);
    }
    let next = match served {
        Some(slot) => counted.update(slot, counted[slot].push(success)),
        None => counted,
    };
    assert forall|i: int| 0 <= i < start.len() implies after[i] == recorded(
        start[i],
        #[trigger] next[i],
    ) && next[i].len() <= made + 1 && (next[i].len() > 0 ==> view.contains(start[i].id)) by {
        assert(before[i] == recorded(start[i], counted[i]));
        lemma_recorded_keeps_the_rest(start[i], counted[i]);
        if served == Some(i) {
            assert(next[i].drop_last() =~= counted[i]);
        }
    }
    assert forall|i: int| 0 <= i < start.len() implies (#[trigger] after[i]).active_connections
        == start[i].active_connections by {
        assert(after[i] == recorded(start[i], next[i]));
        lemma_recorded_keeps_the_rest(start[i], next[i]);
    }
    next
}

/// The count follows the run: with one more attempt behind the run,
/// the backend that took the attempt has its outcome as the last
/// counted, and the others have what they had.
proof fn lemma_served_outcomes_push(
    run: Seq<AttemptRecord>,
    rec: AttemptRecord,
    counted: Seq<Seq<bool>>,
    next: Seq<Seq<bool>>,
)
    requires
        forall|i: int| 0 <= i < counted.len() ==> #[trigger] counted[i] == served_outcomes(run, i),
        rec.served_slot() matches Some(slot) ==> 0 <= slot < counted.len(),
        next == (match rec.served_slot() {
            Some(slot) => counted.update(slot, counted[slot].push(rec.outcome.succeeded())),
            None => counted,
        }),
    ensures
        next.len() == counted.len(),
        forall|i: int|
            0 <= i < counted.len() ==> #[trigger] next[i] == served_outcomes(run.push(rec), i),
{
    let full = run.push(rec);
    assert(full.drop_last() =~= run);
    assert(full.last() == rec);
}

/// Where the count is that of a run, every backend is as at the start
/// but for the outcomes that it has counted in the run.
proof fn lemma_counts_follow_run(
    start: Seq<BackendView>,
    after: Seq<BackendView>,
    counted: Seq<Seq<bool>>,
    view: Seq<Seq<char>>,
    made: nat,
    run: Seq<AttemptRecord>,
)
    requires
        counted_so_far(start, after, counted, view, made),
        forall|i: int| 0 <= i < counted.len() ==> #[trigger] counted[i] == served_outcomes(run, i),
    ensures
        after.len() == start.len(),
        forall|i: int|
            0 <= i < start.len() ==> #[trigger] after[i] == recorded(
                start[i],
                served_outcomes(run, i),
            ),
{
    assert forall|i: int| 0 <= i < start.len() implies #[trigger] after[i] == recorded(
        start[i],
        served_outcomes(run, i),
    ) by {
        assert(after[i] == recorded(start[i], counted[i]));
    }
}

/// What the count says at the end of a request: only the request
/// counters of backends of the healthy view have changed.
proof fn lemma_counted_done(
    start: Seq<BackendView>,
    after: Seq<BackendView>,
    counted: Seq<Seq<bool>>,
    view: Seq<Seq<char>>,
    made: nat,
)
    requires
        counted_so_far(start, after, counted, view, made),
    ensures
        only_counted(start, after, counted, made),
        forall|i: int|
            0 <= i < start.len() && !view.contains(start[i].id) ==> #[trigger] after[i] == start[i],
        forall|i: int|
            0 <= i < start.len() ==> (#[trigger] after[i]).active_connections
                == start[i].active_connections,
{
    assert forall|i: int| 0 <= i < start.len() && !view.contains(start[i].id) implies #[trigger] after[i]
        == start[i] by {
        assert(after[i] == recorded(start[i], counted[i]));
    }
    assert forall|i: int| 0 <= i < start.len() implies (#[trigger] after[i]).active_connections
        == start[i].active_connections by {
        assert(after[i] == recorded(start[i], counted[i]));
        lemma_recorded_keeps_the_rest(start[i], counted[i]);
    }
}

/// What an attempt's result says of how the attempt went. Without a
/// healthy backend the result is `NoHealthyBackends`, and only then. A
/// `CircuitBreakerOpen` names a backend of the healthy view whose
/// breaker is open afterwards; a `ConnectionLimitReached` names one that
/// had no free slot. Every other result came from forwarding.
pub proof fn lemma_attempt_answer<F: Fn(&Admission, &RequestContext) -> (UpstreamOutcome, u64)>(
    rec: AttemptRecord,
    ctx: RequestContext,
    forward: F,
)
    requires
        rec.ran(ctx, forward),
        rec.before.wf(),
    ensures
        rec.before.pool().healthy_view().len() == 0 <==> rec.result() == AttemptResultView::Failed(
            ProxyErrorView::NoHealthyBackends,
        ),
        rec.result() matches AttemptResultView::Failed(ProxyErrorView::CircuitBreakerOpen(id))
            ==> (rec.before.pool().healthy_view().contains(id)
            && rec.after.breakers().contains_key(id) && rec.after.breakers()[id].state
            == CircuitBreakerState::Open),
        rec.result() matches AttemptResultView::Failed(ProxyErrorView::ConnectionLimitReached(id))
            ==> (rec.before.pool().healthy_view().contains(id) && rec.before.pool().slot_of(id)
            is Some && !rec.before.pool().backends()[rec.before.pool().slot_of(id)->0].has_slot()),
        rec.started is Err ==> (rec.result() matches AttemptResultView::Failed(e) && (e
            is NoHealthyBackends || e is CircuitBreakerOpen || e is ConnectionLimitReached)),
        rec.started is Ok ==> rec.result() == rec.outcome.result() && !(
        rec.result() matches AttemptResultView::Failed(e) && (e is NoHealthyBackends || e
            is CircuitBreakerOpen || e is ConnectionLimitReached)),
        rec.started matches Ok(admission) ==> (rec.before.pool().healthy_view().contains(
            admission.backend_id@,
        )),
{
    let view = rec.before.pool().healthy_view();
    if view.len() > 0 {
        let id = view[rec.choice];
        assert(view.contains(id));
    }
}

/// Whether an attempt ran as its record says does not depend on the
/// pause that followed it.
pub proof fn lemma_ran_whatever_the_pause<F: Fn(&Admission, &RequestContext) -> (UpstreamOutcome, u64)>(
    rec: AttemptRecord,
    jitter: u64,
    paused: u64,
    ctx: RequestContext,
    forward: F,
)
    requires
        rec.ran(ctx, forward),
    ensures
        (AttemptRecord { jitter, paused, ..rec }).ran(ctx, forward),
        (AttemptRecord { jitter, paused, ..rec }).result() == rec.result(),
        (AttemptRecord { jitter, paused, ..rec }).forwarding_time() == rec.forwarding_time(),
{
}

/// An attempt that was admitted was forwarded: `forward` was handed the
/// admission and the context, and gave the outcome of the record.
pub proof fn lemma_forwarded<F: Fn(&Admission, &RequestContext) -> (UpstreamOutcome, u64)>(
    rec: AttemptRecord,
    ctx: RequestContext,
    forward: F,
)
    requires
        rec.ran(ctx, forward),
    ensures
        rec.started matches Ok(admission) ==> forward.ensures(
            (&admission, &ctx),
            (rec.outcome, rec.took),
        ),
{
}

/// A success is the answer at once: where the first attempt of a
/// request succeeded, it was the only attempt, and its response went to
/// the client.
pub proof fn lemma_success_ends_the_request<
    F: Fn(&Admission, &RequestContext) -> (UpstreamOutcome, u64),
>(
    before: Proxy,
    after: Proxy,
    handled: Handled,
    ctx: RequestContext,
    run: Seq<AttemptRecord>,
    method: Seq<char>,
    forwarded_for: Option<Seq<char>>,
    peer_addr: Option<Seq<char>>,
    forward: F,
)
    requires
        before.request_served(
            after,
            handled,
            ctx,
            run,
            method,
            forwarded_for,
            peer_addr,
            forward,
        ),
        run[0].result().succeeded(),
    ensures
        handled.attempts == 1,
        run.len() == 1,
        run[0].started is Ok,
        run[0].outcome is Response,
        handled.result matches Ok(answer) && answer.0 == run[0].outcome->Response_0 && answer.1@
            == run[0].started->Ok_0.backend_id@,
        after.pool() == run[0].after.pool(),
        after.breakers() == run[0].after.breakers(),
        after.balancer() == run[0].after.balancer(),
{
    let first = run[0];
    assert(first.ran(ctx, forward));
    if run.len() > 1 {
        assert(next_move_of(before.retry(), 1, first.result(), first.jitter)
            == NextMoveView::RetryAfter(first.paused));
    }
    assert(run.last() == first);
}

/// The attempts of a request that was served: each ran as its record
/// says, each but the first began where the one before had ended, and
/// each but the last was a failure that was retried.
pub proof fn lemma_attempts_of_a_request<
    F: Fn(&Admission, &RequestContext) -> (UpstreamOutcome, u64),
>(
    before: Proxy,
    after: Proxy,
    handled: Handled,
    ctx: RequestContext,
    run: Seq<AttemptRecord>,
    method: Seq<char>,
    forwarded_for: Option<Seq<char>>,
    peer_addr: Option<Seq<char>>,
    forward: F,
    i: int,
)
    requires
        before.request_served(
            after,
            handled,
            ctx,
            run,
            method,
            forwarded_for,
            peer_addr,
            forward,
        ),
        0 <= i < handled.attempts,
    ensures
        run[i].ran(ctx, forward),
        run[i].before.wf(),
        i == 0 ==> run[i].before.pool() == before.pool() && run[i].before.breakers()
            == before.breakers() && run[i].before.balancer() == before.balancer(),
        i > 0 ==> run[i].before == run[i - 1].after,
        i < handled.attempts - 1 ==> !run[i].result().succeeded() && run[i].result().decision()
            == RetryDecision::Retry && i + 1 < before.retry().config().max_attempts,
        i == handled.attempts - 1 ==> after.pool() == run[i].after.pool(),
{
    assert(run[i].ran(ctx, forward));
    if i > 0 {
        assert(run[i].before == run[i - 1].after);
    }
    if i < handled.attempts - 1 {
        assert(next_move_of(before.retry(), (i + 1) as u32, run[i].result(), run[i].jitter)
            == NextMoveView::RetryAfter(run[i].paused));
    }
}

/// What a request has counted: every backend is as before the request
/// but for the outcomes of the attempts that it took, which it has
/// recorded in their order. It holds as many connections as before; and
/// while its counters do not start over, its requests have grown by the
/// number of those attempts and its failed requests by the number of
/// failures among them.
pub proof fn lemma_request_counts<F: Fn(&Admission, &RequestContext) -> (UpstreamOutcome, u64)>(
    before: Proxy,
    after: Proxy,
    handled: Handled,
    ctx: RequestContext,
    run: Seq<AttemptRecord>,
    method: Seq<char>,
    forwarded_for: Option<Seq<char>>,
    peer_addr: Option<Seq<char>>,
    forward: F,
    slot: int,
)
    requires
        before.request_served(
            after,
            handled,
            ctx,
            run,
            method,
            forwarded_for,
            peer_addr,
            forward,
        ),
        0 <= slot < before.pool().backends().len(),
    ensures
        after.pool().backends()[slot] == recorded(
            before.pool().backends()[slot],
            served_outcomes(run, slot),
        ),
        served_outcomes(run, slot).len() <= handled.attempts,
        after.pool().backends()[slot].active_connections
            == before.pool().backends()[slot].active_connections,
        before.pool().backends()[slot].total_requests + served_outcomes(run, slot).len()
            <= u64::MAX ==> after.pool().backends()[slot].total_requests
            == before.pool().backends()[slot].total_requests + served_outcomes(run, slot).len(),
        before.pool().backends()[slot].failed_requests + failures_in(served_outcomes(run, slot))
            <= u64::MAX ==> after.pool().backends()[slot].failed_requests
            == before.pool().backends()[slot].failed_requests + failures_in(
            served_outcomes(run, slot),
        ),
{
    let b = before.pool().backends()[slot];
    assert(after.pool().backends()[slot] == recorded(b, served_outcomes(run, slot)));
    lemma_served_outcomes_len(run, slot);
    lemma_recorded_counts(b, served_outcomes(run, slot));
    lemma_recorded_keeps_the_rest(b, served_outcomes(run, slot));
}

/// A backend has counted no more outcomes than attempts were made.
pub proof fn lemma_served_outcomes_len(run: Seq<AttemptRecord>, slot: int)
    ensures
        served_outcomes(run, slot).len() <= run.len(),
    decreases run.len(),
{
    if run.len() > 0 {
        lemma_served_outcomes_len(run.drop_last(), slot);
    }
}

/// The facts of a finished request make up `request_served`.
proof fn lemma_request_served<F: Fn(&Admission, &RequestContext) -> (UpstreamOutcome, u64)>(
    entry: Proxy,
    start: Proxy,
    after: Proxy,
    handled: Handled,
    ctx: RequestContext,
    earlier: Seq<AttemptRecord>,
    rec: AttemptRecord,
    method: Seq<char>,
    forwarded_for: Option<Seq<char>>,
    peer_addr: Option<Seq<char>>,
    forward: F,
    spent: u64,
)
    requires
        start.same_setup(entry),
        start.pool() == entry.pool(),
        start.breakers() == entry.breakers(),
        start.balancer() == entry.balancer(),
        start.metrics() == entry.metrics().push(MetricEventView::ConnectionOpened),
        handled.attempts == earlier.len() + 1,
        handled.request_id == ctx.request_id,
        ctx.request_id@.len() == 36,
        client_addr_is(
            forwarded_for,
            peer_addr,
            match ctx.client_addr {
                Some(addr) => Some(addr@),
                None => None,
            },
        ),
        retried_so_far(earlier, ctx, forward, start),
        rec.ran(ctx, forward),
        rec.before.wf(),
        rec.jitter <= max_jitter(start.retry().pause_after(handled.attempts)),
        earlier.len() == 0 ==> rec.before == start,
        earlier.len() > 0 ==> earlier.last().after == rec.before,
        rec.paused == 0,
        spent == spent_in(earlier).saturating_add(rec.forwarding_time()),
        after.pool() == rec.after.pool(),
        after.breakers() == rec.after.breakers(),
        after.balancer() == rec.after.balancer(),
        after.same_setup(rec.after),
        rec.after.same_setup(start),
        after.pool().backends().len() == entry.pool().backends().len(),
        forall|i: int|
            0 <= i < entry.pool().backends().len() ==> #[trigger] after.pool().backends()[i]
                == recorded(entry.pool().backends()[i], served_outcomes(earlier.push(rec), i)),
        (match next_move_of(start.retry(), handled.attempts, rec.result(), rec.jitter) {
            NextMoveView::Respond(status) => {
                &&& handled.result matches Ok(answer)
                &&& rec.started matches Ok(admission)
                &&& answer.0 == status
                &&& answer.1@ == admission.backend_id@
                &&& after.metrics() == rec.after.metrics().push(
                    MetricEventView::ConnectionClosed,
                ).push(
                    MetricEventView::Request {
                        method,
                        status_code: crate::text::decimal(status as nat),
                        backend: admission.backend_id@,
                        duration_ms: spent,
                    },
                )
            },
            NextMoveView::Fail(e) => {
                &&& handled.result matches Err(told)
                &&& told@ == e
                &&& after.metrics() == rec.after.metrics().push(
                    MetricEventView::ConnectionClosed,
                ).push(
                    MetricEventView::Request {
                        method,
                        status_code: crate::text::decimal(503),
                        backend: "none"@,
                        duration_ms: spent,
                    },
                )
            },
            NextMoveView::RetryAfter(_) => false,
        }),
    ensures
        entry.request_served(
            after,
            handled,
            ctx,
            earlier.push(rec),
            method,
            forwarded_for,
            peer_addr,
            forward,
        ),
{
    reveal(retried_so_far);
    let run = earlier.push(rec);
    assert(run.drop_last() =~= earlier);
    assert(run.last() == rec);
    assert(spent_in(run) == spent);
    assert forall|i: int| 0 <= i < run.len() implies (#[trigger] run[i]).ran(ctx, forward) by {
        if i < earlier.len() {
            assert(run[i] == earlier[i]);
        }
    }
    assert forall|i: int| 0 <= i < run.len() implies (#[trigger] run[i]).before.wf() by {
        if i < earlier.len() {
            assert(run[i] == earlier[i]);
        }
    }
    assert forall|i: int| 0 <= i < run.len() implies (#[trigger] run[i]).jitter <= max_jitter(
        start.retry().pause_after((i + 1) as u32),
    ) by {
        if i < earlier.len() {
            assert(run[i] == earlier[i]);
        }
    }
    assert forall|i: int, j: int|
        #![trigger run[i], run[j]]
        0 <= i < run.len() - 1 && j == i + 1 implies run[j].before == run[i].after by {
        assert(run[i] == earlier[i]);
        if j < earlier.len() {
            assert(run[j] == earlier[j]);
        } else {
            assert(earlier.last() == earlier[i]);
        }
    }
    assert forall|i: int| 0 <= i < run.len() - 1 implies next_move_of(
        start.retry(),
        (i + 1) as u32,
        (#[trigger] run[i]).result(),
        run[i].jitter,
    ) == NextMoveView::RetryAfter(run[i].paused) by {
        assert(run[i] == earlier[i]);
    }
    if earlier.len() > 0 {
        assert(run[0] == earlier[0]);
    }
}

/// What holds of the attempts of a request that were retried: each ran
/// as its record says from a well-formed dispatcher, each began where
/// the one before had ended, the first at `start`, and each was followed
/// by the pause of its record.
#[verifier::opaque]
spec fn retried_so_far<F: Fn(&Admission, &RequestContext) -> (UpstreamOutcome, u64)>(
    run: Seq<AttemptRecord>,
    ctx: RequestContext,
    forward: F,
    start: Proxy,
) -> bool {
    &&& run.len() > 0 ==> run[0].before == start
    &&& forall|i: int| 0 <= i < run.len() ==> (#[trigger] run[i]).ran(ctx, forward)
    &&& forall|i: int| 0 <= i < run.len() ==> (#[trigger] run[i]).before.wf()
    &&& forall|i: int|
        0 <= i < run.len() ==> (#[trigger] run[i]).jitter <= max_jitter(
            start.retry().pause_after((i + 1) as u32),
        )
    &&& linked(run)
    &&& forall|i: int|
        0 <= i < run.len() ==> next_move_of(
            start.retry(),
            (i + 1) as u32,
            (#[trigger] run[i]).result(),
            run[i].jitter,
        ) == NextMoveView::RetryAfter(run[i].paused)
}

/// A run of retried attempts with one more retried attempt behind it is
/// such a run again.
proof fn lemma_run_extended<F: Fn(&Admission, &RequestContext) -> (UpstreamOutcome, u64)>(
    run: Seq<AttemptRecord>,
    rec: AttemptRecord,
    ctx: RequestContext,
    forward: F,
    start: Proxy,
    number: u32,
)
    requires
        run.len() == number - 1,
        number >= 1,
        retried_so_far(run, ctx, forward, start),
        rec.ran(ctx, forward),
        rec.before.wf(),
        rec.jitter <= max_jitter(start.retry().pause_after(number)),
        next_move_of(start.retry(), number, rec.result(), rec.jitter) == NextMoveView::RetryAfter(
            rec.paused,
        ),
        run.len() == 0 ==> rec.before == start,
        run.len() > 0 ==> run.last().after == rec.before,
    ensures
        retried_so_far(run.push(rec), ctx, forward, start),
{
    reveal(retried_so_far);
    let full = run.push(rec);
    assert forall|i: int| 0 <= i < full.len() implies (#[trigger] full[i]).ran(ctx, forward) by {
        if i < run.len() {
            assert(full[i] == run[i]);
        }
    }
    assert forall|i: int| 0 <= i < full.len() implies (#[trigger] full[i]).before.wf() by {
        if i < run.len() {
            assert(full[i] == run[i]);
        }
    }
    assert forall|i: int| 0 <= i < full.len() implies (#[trigger] full[i]).jitter <= max_jitter(
        start.retry().pause_after((i + 1) as u32),
    ) by {
        if i < run.len() {
            assert(full[i] == run[i]);
        }
    }
    assert forall|i: int, j: int|
        #![trigger full[i], full[j]]
        0 <= i < full.len() - 1 && j == i + 1 implies full[j].before == full[i].after by {
        assert(full[i] == run[i]);
        if j < run.len() {
            assert(full[j] == run[j]);
        } else {
            assert(run.last() == run[i]);
        }
    }
    assert forall|i: int| 0 <= i < full.len() implies next_move_of(
        start.retry(),
        (i + 1) as u32,
        (#[trigger] full[i]).result(),
        full[i].jitter,
    ) == NextMoveView::RetryAfter(full[i].paused) by {
        if i < run.len() {
            assert(full[i] == run[i]);
        }
    }
    if run.len() > 0 {
        assert(full[0] == run[0]);
    }
}

/// Connection cap: in a well-formed dispatcher, and so after every one
/// of its operations, no backend holds more connections than its cap.
pub proof fn lemma_cap_holds(p: Proxy)
    requires
        p.wf(),
    ensures
        forall|i: int|
            0 <= i < p.pool().backends().len() ==> (
            #[trigger] p.pool().backends()[i]).active_connections
                <= p.pool().backends()[i].max_connections,
        ids_of(p.pool().backends()).no_duplicates(),
{
    p.pool().lemma_wf();
    assert forall|i: int| 0 <= i < p.pool().backends().len() implies (
    #[trigger] p.pool().backends()[i]).active_connections
        <= p.pool().backends()[i].max_connections by {
        assert(p.pool().backends()[i].within_cap());
    }
}

/// A slot is taken only by an admission: an attempt that is turned away
/// leaves every backend's connections as they were.
pub proof fn lemma_rejection_takes_no_slot(
    before: Proxy,
    admitted: Proxy,
    r: Result<Admission, ProxyError>,
    id: Seq<char>,
    elapsed: u64,
)
    requires
        before.attempt_started(admitted, r, id, elapsed),
        r is Err,
    ensures
        admitted.pool().backends() == before.pool().backends(),
{
}

/// Acquire/release symmetry: when an attempt that was admitted is
/// finished, whatever its outcome, the backend holds as many connections
/// as before the attempt, and so does every other backend.
pub proof fn lemma_attempt_restores_connections(
    before: Proxy,
    admitted: Proxy,
    after: Proxy,
    r: Result<Admission, ProxyError>,
    id: Seq<char>,
    elapsed: u64,
    outcome: UpstreamOutcome,
    duration_ms: u64,
    now: Instant,
)
    requires
        before.attempt_started(admitted, r, id, elapsed),
        r is Ok,
        admitted.attempt_finished(after, id, outcome, duration_ms, now),
    ensures
        after.pool().backends().len() == before.pool().backends().len(),
        forall|i: int|
            0 <= i < before.pool().backends().len() ==> (
            #[trigger] after.pool().backends()[i]).active_connections
                == before.pool().backends()[i].active_connections,
        forall|i: int|
            0 <= i < before.pool().backends().len() && Some(i) != before.pool().slot_of(id) ==> (
            #[trigger] after.pool().backends()[i]) == before.pool().backends()[i],
        before.pool().slot_of(id) matches Some(slot) && after.pool().backends()[slot]
            == before.pool().backends()[slot].record(outcome.succeeded()),
{
    let slot = before.pool().slot_of(id)->0;
    let b0 = before.pool().backends();
    let b1 = admitted.pool().backends();
    assert(0 <= slot < b0.len() && ids_of(b0)[slot] == id);
    assert(b1 == b0.update(slot, b0[slot].acquire()));
    assert(ids_of(b1) =~= ids_of(b0));
    assert(admitted.pool().slot_of(id) == Some(slot));
    assert(b0[slot].acquire().release() == b0[slot]);
}

/// A request ends with the client being told something: the move after
/// an attempt is a retry only while attempts are left, so the attempt
/// whose number reaches `max_attempts` is the last.
pub proof fn lemma_last_attempt_ends_the_request(
    retry: RetryStrategy,
    attempt: u32,
    result: AttemptResultView,
    jitter: u64,
)
    requires
        attempt >= retry.config().max_attempts,
    ensures
        next_move_of(retry, attempt, result, jitter) == result.last_word(),
{
}

/// An error that the policy does not retry ends the request at once,
/// and a success is handed on at once.
pub proof fn lemma_final_results_are_not_retried(
    retry: RetryStrategy,
    attempt: u32,
    result: AttemptResultView,
    jitter: u64,
)
    requires
        result.succeeded() || result.decision() == RetryDecision::NoRetry,
    ensures
        next_move_of(retry, attempt, result, jitter) == result.last_word(),
{
}

} // verus!
