//! HTTP status codes and URIs, as the `hyper` crate hands them on.

use vstd::prelude::*;
use hyper::{StatusCode, Uri};

verus! {

/// `hyper::StatusCode`, taken as it is.
#[verifier::external_type_specification]
#[verifier::external_body]
pub struct ExStatusCode(StatusCode);

/// The number of a status code: what `StatusCode::as_u16` returns.
pub uninterp spec fn status_number(status: StatusCode) -> u16;

/// `StatusCode::as_u16`. Trusted: the result is the number of the code.
#[verifier::external_body]
pub(crate) fn as_u16(status: &StatusCode) -> (code: u16)
    ensures
        code == status_number(*status),
{
    status.as_u16()
}

/// What parsing `text` as a URI gives: the scheme and the authority of
/// the URI, each absent where the URI has none, or the parser's message
/// where `text` is no URI. This is `str::parse::<Uri>` followed by
/// `Uri::scheme_str` and `Uri::authority`.
pub uninterp spec fn uri_parts(text: Seq<char>) -> Result<
    (Option<Seq<char>>, Option<Seq<char>>),
    Seq<char>,
>;

/// What building a URI from a scheme, an authority and a path with
/// query gives: the text of the URI, or the builder's message where the
/// parts do not make one. This is `Uri::builder` with its three setters,
/// followed by `build`.
pub uninterp spec fn uri_built(
    scheme: Seq<char>,
    authority: Seq<char>,
    path_and_query: Seq<char>,
) -> Result<Seq<char>, Seq<char>>;

/// The texts of a pair of optional strings.
pub open spec fn pair_text(parts: (Option<String>, Option<String>)) -> (
    Option<Seq<char>>,
    Option<Seq<char>>,
) {
    (
        match parts.0 {
            Some(s) => Some(s@),
            None => None,
        },
        match parts.1 {
            Some(a) => Some(a@),
            None => None,
        },
    )
}

/// Parses `text` with `str::parse::<Uri>` and copies out the scheme
/// (`Uri::scheme_str`) and the authority (`Uri::authority`). Trusted:
/// the result is what parsing gives, the error being the parser's
/// message.
#[verifier::external_body]
pub(crate) fn parse_uri_parts(text: &str) -> (r: Result<(Option<String>, Option<String>), String>)
    ensures
        (match r {
            Ok(parts) => uri_parts(text@) == Ok::<
                (Option<Seq<char>>, Option<Seq<char>>),
                Seq<char>,
            >(pair_text(parts)),
            Err(why) => uri_parts(text@) == Err::<
                (Option<Seq<char>>, Option<Seq<char>>),
                Seq<char>,
            >(why@),
        }),
{
    match text.parse::<Uri>() {
        Ok(uri) => Ok(
            (
                uri.scheme_str().map(|s| s.to_string()),
                uri.authority().map(|a| a.as_str().to_string()),
            ),
        ),
        Err(e) => Err(e.to_string()),
    }
}

/// Builds a URI with `Uri::builder` from the three parts and renders it.
/// Trusted: the result is what the builder gives, the error being the
/// builder's message.
#[verifier::external_body]
pub(crate) fn build_uri(scheme: &str, authority: &str, path_and_query: &str) -> (r: Result<
    String,
    String,
>)
    ensures
        (match r {
            Ok(text) => uri_built(scheme@, authority@, path_and_query@) == Ok::<
                Seq<char>,
                Seq<char>,
            >(text@),
            Err(why) => uri_built(scheme@, authority@, path_and_query@) == Err::<
                Seq<char>,
                Seq<char>,
            >(why@),
        }),
{
    let built = Uri::builder().scheme(scheme).authority(authority).path_and_query(
        path_and_query,
    ).build();
    match built {
        Ok(uri) => Ok(uri.to_string()),
        Err(e) => Err(e.to_string()),
    }
}

} // verus!
