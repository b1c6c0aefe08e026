//! One upstream endpoint: identity, capacity, live counters and health.

use vstd::prelude::*;
use url::Url;
use crate::outside::clock::utc_now_millis;
use crate::outside::urls::{host_str, port_or_known_default, url_host, url_port_or_known_default};
use crate::text::{decimal, decimal_string, join3};

verus! {

/// Health of a backend as its latest probe found it.
#[derive(Debug, Clone, Copy, PartialEq, Eq, Structural)]
pub enum HealthStatus {
    Healthy,
    Unhealthy,
    Unknown,
}

/// A snapshot of a backend's request counters.
#[derive(Debug, Clone, Copy, PartialEq, Eq, Structural)]
pub struct BackendMetrics {
    pub active_connections: usize,
    pub total_requests: u64,
    pub failed_requests: u64,
}

/// The identifier of an endpoint: host, a colon, the port in decimal. A
/// URL without a host is named `unknown`, one without a port gets 80.
pub open spec fn endpoint_id(host: Option<Seq<char>>, port: Option<u16>) -> Seq<char> {
    (match host {
        Some(h) => h,
        None => "unknown"@,
    }) + ":"@ + decimal(
        (match port {
            Some(p) => p,
            None => 80u16,
        }) as nat,
    )
}

/// `n + 1`, or `n` where that does not fit: a streak never wraps.
pub open spec fn streak_succ(n: usize) -> usize {
    if n < usize::MAX {
        (n + 1) as usize
    } else {
        n
    }
}

/// `n + 1` modulo 2^64, the way a monitoring counter advances.
pub open spec fn counter_succ(n: u64) -> u64 {
    if n < u64::MAX {
        (n + 1) as u64
    } else {
        0
    }
}

/// One upstream endpoint. Identity and capacity are fixed at
/// construction; the counters and the health state change as requests and
/// probes are recorded.
#[derive(Debug)]
pub struct Backend {
    id: String,
    url: Url,
    weight: u32,
    max_connections: usize,
    active_connections: usize,
    total_requests: u64,
    failed_requests: u64,
    health_status: HealthStatus,
    last_health_check: Option<i64>,
    consecutive_failures: usize,
    consecutive_successes: usize,
}

/// What a backend holds, as mathematical values.
pub ghost struct BackendView {
    pub id: Seq<char>,
    pub url: Url,
    pub weight: u32,
    pub max_connections: usize,
    pub active_connections: usize,
    pub total_requests: u64,
    pub failed_requests: u64,
    pub health_status: HealthStatus,
    pub last_health_check: Option<i64>,
    pub consecutive_failures: usize,
    pub consecutive_successes: usize,
}

impl BackendView {
    /// The state of a backend that was just built from `url`.
    pub open spec fn initial(url: Url, weight: u32, max_connections: usize) -> BackendView {
        BackendView {
            id: endpoint_id(url_host(url), url_port_or_known_default(url)),
            url,
            weight,
            max_connections,
            active_connections: 0,
            total_requests: 0,
            failed_requests: 0,
            health_status: HealthStatus::Unknown,
            last_health_check: None,
            consecutive_failures: 0,
            consecutive_successes: 0,
        }
    }

    /// No more connections are held than the cap allows.
    pub open spec fn within_cap(self) -> bool {
        self.active_connections <= self.max_connections
    }

    /// A connection slot is free.
    pub open spec fn has_slot(self) -> bool {
        self.active_connections < self.max_connections
    }

    /// The state after a slot was asked for: one more connection where a
    /// slot was free, no change where none was.
    pub open spec fn acquire(self) -> BackendView {
        if self.has_slot() {
            BackendView { active_connections: (self.active_connections + 1) as usize, ..self }
        } else {
            self
        }
    }

    /// The state after a held slot was given back.
    pub open spec fn release(self) -> BackendView {
        BackendView { active_connections: (self.active_connections - 1) as usize, ..self }
    }

    /// The state after the outcome of one request was recorded.
    pub open spec fn record(self, success: bool) -> BackendView {
        BackendView {
            total_requests: counter_succ(self.total_requests),
            failed_requests: if success {
                self.failed_requests
            } else {
                counter_succ(self.failed_requests)
            },
            ..self
        }
    }

    /// The state after a probe that ended at `now` found the backend
    /// healthy or not: the status follows the probe, the matching streak
    /// grows by one and the opposite streak starts over.
    pub open spec fn probe(self, healthy: bool, now: i64) -> BackendView {
        if healthy {
            BackendView {
                health_status: HealthStatus::Healthy,
                consecutive_failures: 0,
                consecutive_successes: streak_succ(self.consecutive_successes),
                last_health_check: Some(now),
                ..self
            }
        } else {
            BackendView {
                health_status: HealthStatus::Unhealthy,
                consecutive_successes: 0,
                consecutive_failures: streak_succ(self.consecutive_failures),
                last_health_check: Some(now),
                ..self
            }
        }
    }

    pub open spec fn is_healthy(self) -> bool {
        self.health_status == HealthStatus::Healthy
    }
}

impl View for Backend {
    type V = BackendView;

    closed spec fn view(&self) -> BackendView {
        BackendView {
            id: self.id@,
            url: self.url,
            weight: self.weight,
            max_connections: self.max_connections,
            active_connections: self.active_connections,
            total_requests: self.total_requests,
            failed_requests: self.failed_requests,
            health_status: self.health_status,
            last_health_check: self.last_health_check,
            consecutive_failures: self.consecutive_failures,
            consecutive_successes: self.consecutive_successes,
        }
    }
}

impl Backend {
    /// A backend for `url` with no connections, no requests recorded and
    /// health not yet known. Its identifier is derived from the URL once,
    /// here.
    pub fn new(url: Url, weight: u32, max_connections: usize) -> (b: Self)
        ensures
            b@ == BackendView::initial(url, weight, max_connections),
    {
        let host = match host_str(&url) {
            Some(h) => h,
            None => "unknown".to_string(),
        };
        let port: u16 = match port_or_known_default(&url) {
            Some(p) => p,
            None => 80,
        };
        let digits = decimal_string(port as u64);
        let id = join3(host.as_str(), ":", digits.as_str());
        Backend {
            id,
            url,
            weight,
            max_connections,
            active_connections: 0,
            total_requests: 0,
            failed_requests: 0,
            health_status: HealthStatus::Unknown,
            last_health_check: None,
            consecutive_failures: 0,
            consecutive_successes: 0,
        }
    }

    pub fn id(&self) -> (r: &String)
        ensures
            r@ == self@.id,
    {
        &self.id
    }

    pub fn url(&self) -> (r: &Url)
        ensures
            *r == self@.url,
    {
        &self.url
    }

    pub fn weight(&self) -> (r: u32)
        ensures
            r == self@.weight,
    {
        self.weight
    }

    pub fn max_connections(&self) -> (r: usize)
        ensures
            r == self@.max_connections,
    {
        self.max_connections
    }

    pub fn active_connections(&self) -> (r: usize)
        ensures
            r == self@.active_connections,
    {
        self.active_connections
    }

    /// Takes a connection slot if one is free, and says whether it did.
    pub fn increment_connections(&mut self) -> (granted: bool)
        ensures
            granted == old(self)@.has_slot(),
            final(self)@ == old(self)@.acquire(),
    {
        if self.active_connections >= self.max_connections {
            return false;
        }
        self.active_connections = self.active_connections + 1;
        true
    }

    /// Gives back a slot taken by `increment_connections`.
    pub fn decrement_connections(&mut self)
        requires
            old(self)@.active_connections > 0,
        ensures
            final(self)@ == old(self)@.release(),
    {
        self.active_connections = self.active_connections - 1;
    }

    /// Counts one finished request, and one failure where it failed.
    pub fn record_request(&mut self, success: bool)
        ensures
            final(self)@ == old(self)@.record(success),
    {
        self.total_requests = self.total_requests.wrapping_add(1);
        if !success {
            self.failed_requests = self.failed_requests.wrapping_add(1);
        }
    }

    pub fn is_healthy(&self) -> (r: bool)
        ensures
            r == self@.is_healthy(),
    {
        self.health_status == HealthStatus::Healthy
    }

    /// Records a probe result that was obtained at `now` (milliseconds
    /// since the Unix epoch).
    pub fn observe_probe(&mut self, healthy: bool, now: i64)
        ensures
            final(self)@ == old(self)@.probe(healthy, now),
    {
        if healthy {
            self.consecutive_failures = 0;
            if self.consecutive_successes < usize::MAX {
                self.consecutive_successes = self.consecutive_successes + 1;
            }
            self.health_status = HealthStatus::Healthy;
        } else {
            self.consecutive_successes = 0;
            if self.consecutive_failures < usize::MAX {
                self.consecutive_failures = self.consecutive_failures + 1;
            }
            self.health_status = HealthStatus::Unhealthy;
        }
        self.last_health_check = Some(now);
    }

    /// Records a probe result, stamped with the current time.
    pub fn update_health(&mut self, healthy: bool)
        ensures
            exists|now: i64| final(self)@ == #[trigger] old(self)@.probe(healthy, now),
    {
        let now = utc_now_millis();
        self.observe_probe(healthy, now);
    }

    pub fn get_metrics(&self) -> (m: BackendMetrics)
        ensures
            m == (BackendMetrics {
                active_connections: self@.active_connections,
                total_requests: self@.total_requests,
                failed_requests: self@.failed_requests,
            }),
    {
        BackendMetrics {
            active_connections: self.active_connections,
            total_requests: self.total_requests,
            failed_requests: self.failed_requests,
        }
    }

    pub fn last_health_check(&self) -> (r: Option<i64>)
        ensures
            r == self@.last_health_check,
    {
        self.last_health_check
    }

    /// The number of probes in a row that found the backend healthy.
    pub fn consecutive_successes(&self) -> (r: usize)
        ensures
            r == self@.consecutive_successes,
    {
        self.consecutive_successes
    }

    /// The number of probes in a row that found the backend unhealthy.
    pub fn consecutive_failures(&self) -> (r: usize)
        ensures
            r == self@.consecutive_failures,
    {
        self.consecutive_failures
    }

    /// The streak of healthy probes has reached `threshold`.
    pub fn is_stably_healthy(&self, threshold: usize) -> (r: bool)
        ensures
            r == (self@.consecutive_successes >= threshold),
    {
        self.consecutive_successes >= threshold
    }

    /// The streak of unhealthy probes has reached `threshold`.
    pub fn is_stably_unhealthy(&self, threshold: usize) -> (r: bool)
        ensures
            r == (self@.consecutive_failures >= threshold),
    {
        self.consecutive_failures >= threshold
    }
}

/// A step in the life of a backend's connection slots.
pub enum SlotEvent {
    /// A request asks for a slot.
    Acquire,
    /// A request that holds a slot gives it back.
    Release,
}

impl BackendView {
    /// The state after one slot event. A release with no slot held does
    /// not occur in a run of the proxy and leaves the state as it is.
    pub open spec fn step(self, e: SlotEvent) -> BackendView {
        match e {
            SlotEvent::Acquire => self.acquire(),
            SlotEvent::Release => if self.active_connections > 0 {
                self.release()
            } else {
                self
            },
        }
    }

    /// The state after a run of slot events, first to last.
    pub open spec fn replay(self, events: Seq<SlotEvent>) -> BackendView
        decreases events.len(),
    {
        if events.len() == 0 {
            self
        } else {
            self.replay(events.drop_last()).step(events.last())
        }
    }
}

/// A new backend holds no connection, so it is within its cap.
pub proof fn lemma_initial_within_cap(url: Url, weight: u32, max_connections: usize)
    ensures
        BackendView::initial(url, weight, max_connections).within_cap(),
        BackendView::initial(url, weight, max_connections).active_connections == 0,
{
}

/// Connection cap: whatever requests acquire and release slots, in
/// whatever order, the number of connections held never exceeds
/// `max_connections`.
pub proof fn lemma_connection_cap(v: BackendView, events: Seq<SlotEvent>)
    requires
        v.within_cap(),
    ensures
        v.replay(events).within_cap(),
        v.replay(events).max_connections == v.max_connections,
    decreases events.len(),
{
    if events.len() > 0 {
        lemma_connection_cap(v, events.drop_last());
    }
}

/// A grant is given exactly while fewer than `max_connections` slots are
/// held, and each grant takes one slot.
pub proof fn lemma_acquire_counts(v: BackendView)
    ensures
        v.has_slot() ==> v.acquire().active_connections == v.active_connections + 1,
        !v.has_slot() ==> v.acquire() == v,
{
}

/// Acquire/release symmetry: giving back a granted slot restores the
/// state from before the grant, whatever was recorded in between.
pub proof fn lemma_release_undoes_acquire(v: BackendView, success: bool)
    requires
        v.has_slot(),
    ensures
        v.acquire().release() == v,
        v.acquire().record(success).release().active_connections == v.active_connections,
        v.acquire().release().record(success).active_connections == v.active_connections,
{
}

/// Recording requests and probes leaves the connection slots alone.
pub proof fn lemma_recording_keeps_slots(v: BackendView, success: bool, healthy: bool, now: i64)
    ensures
        v.record(success).active_connections == v.active_connections,
        v.record(success).max_connections == v.max_connections,
        v.probe(healthy, now).active_connections == v.active_connections,
        v.probe(healthy, now).max_connections == v.max_connections,
{
}

/// The streaks reset each other: after a probe one of them is zero, and
/// the status is the probe's verdict.
pub proof fn lemma_streaks_reset_each_other(v: BackendView, healthy: bool, now: i64)
    ensures
        healthy ==> v.probe(healthy, now).consecutive_failures == 0,
        !healthy ==> v.probe(healthy, now).consecutive_successes == 0,
        v.probe(healthy, now).is_healthy() == healthy,
        healthy ==> v.probe(healthy, now).consecutive_successes >= v.consecutive_successes,
        !healthy ==> v.probe(healthy, now).consecutive_failures >= v.consecutive_failures,
{
}

} // verus!
