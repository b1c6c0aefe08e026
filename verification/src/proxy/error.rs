//! The errors of the dispatcher, and what a client is told of them.

use vstd::prelude::*;
use crate::retry::strategy::RetryDecision;
use crate::text::join2;

verus! {

/// Why a request could not be answered by a backend.
#[derive(Debug, PartialEq, Eq)]
pub enum ProxyError {
    NoHealthyBackends,
    BackendError(String),
    Timeout,
    CircuitBreakerOpen(String),
    ConnectionLimitReached(String),
    InvalidUri(String),
    RequestError(String),
}

/// An error as mathematical values.
pub enum ProxyErrorView {
    NoHealthyBackends,
    BackendError(Seq<char>),
    Timeout,
    CircuitBreakerOpen(Seq<char>),
    ConnectionLimitReached(Seq<char>),
    InvalidUri(Seq<char>),
    RequestError(Seq<char>),
}

/// The response that tells a client of an error.
#[derive(Debug, PartialEq, Eq)]
pub struct ErrorResponse {
    /// The HTTP status.
    pub status: u16,
    /// The value of the `x-error` header: the text of the error.
    pub x_error: String,
    /// The body.
    pub body: String,
}

impl View for ProxyError {
    type V = ProxyErrorView;

    open spec fn view(&self) -> ProxyErrorView {
        match self {
            ProxyError::NoHealthyBackends => ProxyErrorView::NoHealthyBackends,
            ProxyError::BackendError(why) => ProxyErrorView::BackendError(why@),
            ProxyError::Timeout => ProxyErrorView::Timeout,
            ProxyError::CircuitBreakerOpen(id) => ProxyErrorView::CircuitBreakerOpen(id@),
            ProxyError::ConnectionLimitReached(id) => ProxyErrorView::ConnectionLimitReached(id@),
            ProxyError::InvalidUri(why) => ProxyErrorView::InvalidUri(why@),
            ProxyError::RequestError(why) => ProxyErrorView::RequestError(why@),
        }
    }
}

impl ProxyErrorView {
    /// The text of the error.
    pub open spec fn text(self) -> Seq<char> {
        match self {
            ProxyErrorView::NoHealthyBackends => "No healthy backends available"@,
            ProxyErrorView::BackendError(why) => "Backend error: "@ + why,
            ProxyErrorView::Timeout => "Request timeout"@,
            ProxyErrorView::CircuitBreakerOpen(id) => "Circuit breaker open for backend: "@ + id,
            ProxyErrorView::ConnectionLimitReached(id) => "Connection limit reached for backend: "@
                + id,
            ProxyErrorView::InvalidUri(why) => "Invalid URI: "@ + why,
            ProxyErrorView::RequestError(why) => "Request error: "@ + why,
        }
    }

    /// The HTTP status that a client gets: 503 where no backend can take
    /// the request, 502 where the backend failed, 504 where it took too
    /// long, 400 where the request is at fault.
    pub open spec fn status(self) -> u16 {
        match self {
            ProxyErrorView::NoHealthyBackends => 503,
            ProxyErrorView::BackendError(_) => 502,
            ProxyErrorView::Timeout => 504,
            ProxyErrorView::CircuitBreakerOpen(_) => 503,
            ProxyErrorView::ConnectionLimitReached(_) => 503,
            ProxyErrorView::InvalidUri(_) => 400,
            ProxyErrorView::RequestError(_) => 400,
        }
    }

    /// The body of the response that a client gets.
    pub open spec fn body(self) -> Seq<char> {
        match self {
            ProxyErrorView::NoHealthyBackends => "No healthy backends available"@,
            ProxyErrorView::BackendError(_) => "Backend error"@,
            ProxyErrorView::Timeout => "Gateway timeout"@,
            ProxyErrorView::CircuitBreakerOpen(_) => "Service temporarily unavailable"@,
            ProxyErrorView::ConnectionLimitReached(_) => "Backend overloaded"@,
            ProxyErrorView::InvalidUri(_) => "Invalid request URI"@,
            ProxyErrorView::RequestError(_) => "Invalid request"@,
        }
    }

    /// Whether the dispatcher tries again after this error: it does when
    /// no backend was healthy, when the backend failed and when it took
    /// too long.
    pub open spec fn retryable(self) -> bool {
        self is NoHealthyBackends || self is BackendError || self is Timeout
    }
}

impl ProxyError {
    /// The text of the error.
    pub fn message(&self) -> (s: String)
        ensures
            s@ == self@.text(),
    {
        match self {
            ProxyError::NoHealthyBackends => "No healthy backends available".to_string(),
            ProxyError::BackendError(why) => join2("Backend error: ", why.as_str()),
            ProxyError::Timeout => "Request timeout".to_string(),
            ProxyError::CircuitBreakerOpen(id) => join2(
                "Circuit breaker open for backend: ",
                id.as_str(),
            ),
            ProxyError::ConnectionLimitReached(id) => join2(
                "Connection limit reached for backend: ",
                id.as_str(),
            ),
            ProxyError::InvalidUri(why) => join2("Invalid URI: ", why.as_str()),
            ProxyError::RequestError(why) => join2("Request error: ", why.as_str()),
        }
    }

    /// The HTTP status that a client gets.
    pub fn status_code(&self) -> (code: u16)
        ensures
            code == self@.status(),
    {
        match self {
            ProxyError::NoHealthyBackends => 503,
            ProxyError::BackendError(_) => 502,
            ProxyError::Timeout => 504,
            ProxyError::CircuitBreakerOpen(_) => 503,
            ProxyError::ConnectionLimitReached(_) => 503,
            ProxyError::InvalidUri(_) => 400,
            ProxyError::RequestError(_) => 400,
        }
    }

    /// The body of the response that a client gets.
    pub fn body(&self) -> (s: &'static str)
        ensures
            s@ == self@.body(),
    {
        match self {
            ProxyError::NoHealthyBackends => "No healthy backends available",
            ProxyError::BackendError(_) => "Backend error",
            ProxyError::Timeout => "Gateway timeout",
            ProxyError::CircuitBreakerOpen(_) => "Service temporarily unavailable",
            ProxyError::ConnectionLimitReached(_) => "Backend overloaded",
            ProxyError::InvalidUri(_) => "Invalid request URI",
            ProxyError::RequestError(_) => "Invalid request",
        }
    }

    /// The dispatcher's retry policy for this error.
    pub fn retry_decision(&self) -> (d: RetryDecision)
        ensures
            d == (if self@.retryable() {
                RetryDecision::Retry
            } else {
                RetryDecision::NoRetry
            }),
    {
        match self {
            ProxyError::NoHealthyBackends => RetryDecision::Retry,
            ProxyError::BackendError(_) => RetryDecision::Retry,
            ProxyError::Timeout => RetryDecision::Retry,
            _ => RetryDecision::NoRetry,
        }
    }

    /// The response that tells a client of this error.
    pub fn to_response(&self) -> (r: ErrorResponse)
        ensures
            r.status == self@.status(),
            r.x_error@ == self@.text(),
            r.body@ == self@.body(),
    {
        ErrorResponse {
            status: self.status_code(),
            x_error: self.message(),
            body: self.body().to_string(),
        }
    }
}

impl From<ProxyError> for ErrorResponse {
    fn from(err: ProxyError) -> (r: ErrorResponse)
        ensures
            r.status == err@.status(),
            r.x_error@ == err@.text(),
            r.body@ == err@.body(),
    {
        err.to_response()
    }
}

impl vstd::std_specs::convert::FromSpecImpl<ProxyError> for ErrorResponse {
    open spec fn obeys_from_spec() -> bool {
        false
    }

    open spec fn from_spec(err: ProxyError) -> ErrorResponse {
        arbitrary()
    }
}

} // verus!
