//! URLs, as the `url` crate parses and serializes them.

use vstd::prelude::*;
use url::{ParseError, Url};

verus! {

/// `url::Url`, taken as it is: nothing of its inside is known here.
#[verifier::external_type_specification]
#[verifier::external_body]
pub struct ExUrl(Url);

/// `url::ParseError`, taken as it is.
#[verifier::external_type_specification]
#[verifier::external_body]
pub struct ExParseError(ParseError);

/// The serialization of a URL: what `Url::as_str` returns.
pub uninterp spec fn url_text(u: Url) -> Seq<char>;

/// The host of a URL as text, absent for URLs without one: what
/// `Url::host_str` returns.
pub uninterp spec fn url_host(u: Url) -> Option<Seq<char>>;

/// The port of a URL, or the default port of its scheme where the URL
/// names none and the scheme is `http`, `https`, `ws`, `wss` or `ftp`: what
/// `Url::port_or_known_default` returns.
pub uninterp spec fn url_port_or_known_default(u: Url) -> Option<u16>;

/// The serialization of the URL that `input` resolves to against the base
/// `u`, absent where `input` does not parse: what `Url::join` returns.
pub uninterp spec fn url_join(u: Url, input: Seq<char>) -> Option<Seq<char>>;

/// `Url::as_str`, copied into an owned string. Trusted: the result is the
/// URL's serialization.
#[verifier::external_body]
pub(crate) fn as_text(u: &Url) -> (s: String)
    ensures
        s@ == url_text(*u),
{
    u.as_str().to_string()
}

/// `Url::host_str`, copied into an owned string. Trusted: the result is
/// the URL's host, absent exactly where the URL has none.
#[verifier::external_body]
pub(crate) fn host_str(u: &Url) -> (h: Option<String>)
    ensures
        (match h {
            Some(s) => url_host(*u) == Some(s@),
            None => url_host(*u) is None,
        }),
{
    u.host_str().map(|s| s.to_string())
}

/// `Url::port_or_known_default`. Trusted: the result is the URL's port or
/// the known default of its scheme.
#[verifier::external_body]
pub(crate) fn port_or_known_default(u: &Url) -> (p: Option<u16>)
    ensures
        p == url_port_or_known_default(*u),
{
    u.port_or_known_default()
}

/// `Url::join`. Trusted: the call succeeds exactly where the input
/// resolves against the base, and the result then serializes to the
/// resolved text.
#[verifier::external_body]
pub(crate) fn join(u: &Url, input: &str) -> (r: Result<Url, ParseError>)
    ensures
        (match r {
            Ok(joined) => url_join(*u, input@) == Some(url_text(joined)),
            Err(_) => url_join(*u, input@) is None,
        }),
{
    u.join(input)
}

} // verus!
