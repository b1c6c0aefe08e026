//! The metrics collector: a write-only buffer of what happened, in the
//! labels and values that a metrics sink takes.

use vstd::prelude::*;
use std::time::Duration;
use crate::circuit_breaker::breaker::CircuitBreakerState;
use crate::outside::clock::{stopwatch_read, stopwatch_start};
use crate::text::{decimal, decimal_string};

verus! {

/// One report to the metrics sink.
#[derive(Debug, PartialEq, Eq)]
pub enum MetricEvent {
    /// A client request ended: counted and timed under method, status
    /// and backend.
    Request { method: String, status_code: String, backend: String, duration_ms: u64 },
    /// A forwarded request ended: counted under backend and
    /// `success`/`failure`, timed under backend.
    BackendRequest { backend: String, status: String, duration_ms: u64 },
    /// The number of connections that a backend holds.
    BackendConnections { backend: String, count: i64 },
    /// The health of a backend: 1 healthy, 0 unhealthy.
    BackendHealth { backend: String, value: i64 },
    /// The state of a backend's breaker: 0 closed, 1 open, 2 half-open.
    CircuitBreakerState { backend: String, value: i64 },
    /// One more client request is in flight.
    ConnectionOpened,
    /// One client request less is in flight.
    ConnectionClosed,
    /// The sizes of the healthy view and of the pool.
    BackendCounts { healthy: i64, total: i64 },
}

/// A report as mathematical values.
pub enum MetricEventView {
    Request { method: Seq<char>, status_code: Seq<char>, backend: Seq<char>, duration_ms: u64 },
    BackendRequest { backend: Seq<char>, status: Seq<char>, duration_ms: u64 },
    BackendConnections { backend: Seq<char>, count: i64 },
    BackendHealth { backend: Seq<char>, value: i64 },
    CircuitBreakerState { backend: Seq<char>, value: i64 },
    ConnectionOpened,
    ConnectionClosed,
    BackendCounts { healthy: i64, total: i64 },
}

impl View for MetricEvent {
    type V = MetricEventView;

    open spec fn view(&self) -> MetricEventView {
        match self {
            MetricEvent::Request { method, status_code, backend, duration_ms } => {
                MetricEventView::Request {
                    method: method@,
                    status_code: status_code@,
                    backend: backend@,
                    duration_ms: *duration_ms,
                }
            },
            MetricEvent::BackendRequest { backend, status, duration_ms } => {
                MetricEventView::BackendRequest {
                    backend: backend@,
                    status: status@,
                    duration_ms: *duration_ms,
                }
            },
            MetricEvent::BackendConnections { backend, count } => {
                MetricEventView::BackendConnections { backend: backend@, count: *count }
            },
            MetricEvent::BackendHealth { backend, value } => {
                MetricEventView::BackendHealth { backend: backend@, value: *value }
            },
            MetricEvent::CircuitBreakerState { backend, value } => {
                MetricEventView::CircuitBreakerState { backend: backend@, value: *value }
            },
            MetricEvent::ConnectionOpened => MetricEventView::ConnectionOpened,
            MetricEvent::ConnectionClosed => MetricEventView::ConnectionClosed,
            MetricEvent::BackendCounts { healthy, total } => {
                MetricEventView::BackendCounts { healthy: *healthy, total: *total }
            },
        }
    }
}

/// The gauge value of a breaker state.
pub open spec fn state_value(state: CircuitBreakerState) -> i64 {
    match state {
        CircuitBreakerState::Closed => 0,
        CircuitBreakerState::Open => 1,
        CircuitBreakerState::HalfOpen => 2,
    }
}

/// The gauge value of a health verdict.
pub open spec fn health_value(healthy: bool) -> i64 {
    if healthy {
        1
    } else {
        0
    }
}

/// The label of a forwarded request's outcome.
pub open spec fn outcome_label(success: bool) -> Seq<char> {
    if success {
        "success"@
    } else {
        "failure"@
    }
}

/// A count as a gauge value: itself, or the largest gauge value where
/// it is larger than that.
pub open spec fn gauge_of(n: usize) -> i64 {
    if n <= i64::MAX {
        n as i64
    } else {
        i64::MAX
    }
}

/// Turns a count into a gauge value.
pub fn to_gauge(n: usize) -> (g: i64)
    ensures
        g == gauge_of(n),
{
    if n as u64 > i64::MAX as u64 {
        i64::MAX
    } else {
        n as i64
    }
}

/// The buffer of reports. The proxy only ever adds to it; whoever feeds
/// the sink takes the reports out.
#[derive(Debug)]
pub struct MetricsCollector {
    events: Vec<MetricEvent>,
}

impl View for MetricsCollector {
    type V = Seq<MetricEventView>;

    /// The reports that wait in the buffer, oldest first.
    closed spec fn view(&self) -> Seq<MetricEventView> {
        Seq::new(self.events@.len(), |i: int| self.events@[i]@)
    }
}

impl MetricsCollector {
    /// An empty buffer.
    pub fn new() -> (c: Self)
        ensures
            c@ == Seq::<MetricEventView>::empty(),
    {
        let c = MetricsCollector { events: Vec::new() };
        assert(c@ =~= Seq::<MetricEventView>::empty());
        c
    }

    fn push(&mut self, event: MetricEvent)
        ensures
            final(self)@ == old(self)@.push(event@),
    {
        self.events.push(event);
        assert(self@ =~= old(self)@.push(event@));
    }

    /// Takes the waiting reports out of the buffer, oldest first.
    pub fn drain(&mut self) -> (events: Vec<MetricEvent>)
        ensures
            final(self)@ == Seq::<MetricEventView>::empty(),
            events@.len() == old(self)@.len(),
            forall|i: int| 0 <= i < events@.len() ==> (#[trigger] events@[i])@ == old(self)@[i],
    {
        let mut taken: Vec<MetricEvent> = Vec::new();
        std::mem::swap(&mut self.events, &mut taken);
        assert(self@ =~= Seq::<MetricEventView>::empty());
        taken
    }

    /// A client request ended with `status_code` after `duration_ms`.
    pub fn record_request(&mut self, method: &str, status_code: u16, backend: &str, duration_ms: u64)
        ensures
            final(self)@ == old(self)@.push(
                MetricEventView::Request {
                    method: method@,
                    status_code: decimal(status_code as nat),
                    backend: backend@,
                    duration_ms,
                },
            ),
    {
        let status = decimal_string(status_code as u64);
        self.push(
            MetricEvent::Request {
                method: method.to_owned(),
                status_code: status,
                backend: backend.to_owned(),
                duration_ms,
            },
        );
    }

    /// A forwarded request ended after `duration_ms`.
    pub fn record_backend_request(&mut self, backend: &str, success: bool, duration_ms: u64)
        ensures
            final(self)@ == old(self)@.push(
                MetricEventView::BackendRequest {
                    backend: backend@,
                    status: outcome_label(success),
                    duration_ms,
                },
            ),
    {
        let status = if success {
            "success"
        } else {
            "failure"
        };
        self.push(
            MetricEvent::BackendRequest {
                backend: backend.to_owned(),
                status: status.to_owned(),
                duration_ms,
            },
        );
    }

    /// A backend now holds `count` connections.
    pub fn update_backend_connections(&mut self, backend: &str, count: i64)
        ensures
            final(self)@ == old(self)@.push(
                MetricEventView::BackendConnections { backend: backend@, count },
            ),
    {
        self.push(MetricEvent::BackendConnections { backend: backend.to_owned(), count });
    }

    /// A probe found a backend healthy or not.
    pub fn update_backend_health(&mut self, backend: &str, healthy: bool)
        ensures
            final(self)@ == old(self)@.push(
                MetricEventView::BackendHealth { backend: backend@, value: health_value(healthy) },
            ),
    {
        let value: i64 = if healthy {
            1
        } else {
            0
        };
        self.push(MetricEvent::BackendHealth { backend: backend.to_owned(), value });
    }

    /// A backend's breaker is in `state`.
    pub fn update_circuit_breaker_state(&mut self, backend: &str, state: CircuitBreakerState)
        ensures
            final(self)@ == old(self)@.push(
                MetricEventView::CircuitBreakerState {
                    backend: backend@,
                    value: state_value(state),
                },
            ),
    {
        let value: i64 = match state {
            CircuitBreakerState::Closed => 0,
            CircuitBreakerState::Open => 1,
            CircuitBreakerState::HalfOpen => 2,
        };
        self.push(MetricEvent::CircuitBreakerState { backend: backend.to_owned(), value });
    }

    /// A client request came in.
    pub fn increment_active_connections(&mut self)
        ensures
            final(self)@ == old(self)@.push(MetricEventView::ConnectionOpened),
    {
        self.push(MetricEvent::ConnectionOpened);
    }

    /// A client request was answered.
    pub fn decrement_active_connections(&mut self)
        ensures
            final(self)@ == old(self)@.push(MetricEventView::ConnectionClosed),
    {
        self.push(MetricEvent::ConnectionClosed);
    }

    /// The healthy view holds `healthy` of `total` backends.
    pub fn update_backend_counts(&mut self, healthy: usize, total: usize)
        ensures
            final(self)@ == old(self)@.push(
                MetricEventView::BackendCounts {
                    healthy: gauge_of(healthy),
                    total: gauge_of(total),
                },
            ),
    {
        self.push(
            MetricEvent::BackendCounts { healthy: to_gauge(healthy), total: to_gauge(total) },
        );
    }
}

/// A stopwatch for timing requests.
pub struct Timer {
    start: std::time::Instant,
}

impl Timer {
    /// Starts the stopwatch.
    pub fn new() -> Self {
        Timer { start: stopwatch_start() }
    }

    /// The time since the stopwatch was started.
    pub fn elapsed(&self) -> Duration {
        stopwatch_read(&self.start)
    }
}

} // verus!
