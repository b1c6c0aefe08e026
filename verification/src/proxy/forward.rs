//! What the dispatcher reads from a client's request and writes into the
//! request that it forwards.

use vstd::prelude::*;
use vstd::string::StringExecFns;
use vstd::string::StrSliceExecFns;
use crate::outside::http::{build_uri, parse_uri_parts, uri_built, uri_parts};
use crate::proxy::error::{ProxyError, ProxyErrorView};
use crate::text::{join2, join3};

verus! {

/// Spaces and tabs are what may surround an entry of a header list.
pub open spec fn is_blank(c: char) -> bool {
    c == ' ' || c == '\t'
}

/// `end` is where the first entry of the comma-separated list `header`
/// ends: at the first comma, or at the end where there is none.
pub open spec fn first_entry_end(header: Seq<char>, end: int) -> bool {
    &&& 0 <= end <= header.len()
    &&& end == header.len() || header[end] == ','
    &&& forall|j: int| 0 <= j < end ==> #[trigger] header[j] != ','
}

/// The entry that ends at `end` is, without the blanks around it, what
/// lies between `from` and `to`.
pub open spec fn hop_bounds(header: Seq<char>, from: int, to: int, end: int) -> bool {
    &&& first_entry_end(header, end)
    &&& 0 <= from <= to <= end
    &&& forall|j: int| 0 <= j < from ==> is_blank(#[trigger] header[j])
    &&& forall|j: int| to <= j < end ==> is_blank(#[trigger] header[j])
    &&& from < to ==> !is_blank(header[from]) && !is_blank(header[to - 1])
    &&& from == to ==> forall|j: int| 0 <= j < end ==> is_blank(#[trigger] header[j])
}

/// `hop` is the first entry of the comma-separated list `header`,
/// without the blanks around it.
pub open spec fn is_first_hop(header: Seq<char>, hop: Seq<char>) -> bool {
    exists|from: int, to: int, end: int| #[trigger]
        hop_bounds(header, from, to, end) && hop == header.subrange(from, to)
}

/// The first hop of an `x-forwarded-for` header: its first entry without
/// the blanks around it, or nothing where that entry is empty.
pub fn first_hop(header: &str) -> (hop: Option<String>)
    ensures
        (match hop {
            Some(addr) => addr@.len() > 0 && is_first_hop(header@, addr@),
            None => is_first_hop(header@, Seq::<char>::empty()),
        }),
{
    let n = header.unicode_len();
    let mut end: usize = 0;
    while end < n && header.get_char(end) != ','
        invariant
            end <= n,
            n == header@.len(),
            forall|j: int| 0 <= j < end ==> #[trigger] header@[j] != ',',
        decreases n - end,
    {
        end = end + 1;
    }
    let mut from: usize = 0;
    while from < end && (header.get_char(from) == ' ' || header.get_char(from) == '\t')
        invariant
            from <= end <= n,
            n == header@.len(),
            forall|j: int| 0 <= j < from ==> is_blank(#[trigger] header@[j]),
        decreases end - from,
    {
        from = from + 1;
    }
    let mut to: usize = end;
    while to > from && (header.get_char(to - 1) == ' ' || header.get_char(to - 1) == '\t')
        invariant
            from <= to <= end <= n,
            n == header@.len(),
            from < end ==> !is_blank(header@[from as int]),
            forall|j: int| to <= j < end ==> is_blank(#[trigger] header@[j]),
        decreases to - from,
    {
        to = to - 1;
    }
    assert(first_entry_end(header@, end as int));
    if from == to {
        proof {
            assert(header@.subrange(from as int, to as int) =~= Seq::<char>::empty());
            assert(hop_bounds(header@, from as int, to as int, end as int));
        }
        None
    } else {
        let hop = header.substring_char(from, to);
        proof {
            assert(hop_bounds(header@, from as int, to as int, end as int));
        }
        Some(String::from_str(hop))
    }
}

/// A header has one first hop only.
pub proof fn lemma_first_hop_unique(header: Seq<char>, a: Seq<char>, b: Seq<char>)
    requires
        is_first_hop(header, a),
        is_first_hop(header, b),
    ensures
        a == b,
{
    let (f1, t1, e1) = choose|from: int, to: int, end: int| #[trigger]
        hop_bounds(header, from, to, end) && a == header.subrange(from, to);
    let (f2, t2, e2) = choose|from: int, to: int, end: int| #[trigger]
        hop_bounds(header, from, to, end) && b == header.subrange(from, to);
    assert(e1 == e2) by {
        if e1 < e2 {
            assert(header[e1] != ',');
        } else if e2 < e1 {
            assert(header[e2] != ',');
        }
    }
    if f1 < t1 && f2 < t2 {
        assert(f1 == f2) by {
            if f1 < f2 {
                assert(is_blank(header[f1]));
            } else if f2 < f1 {
                assert(is_blank(header[f2]));
            }
        }
        assert(t1 == t2) by {
            if t1 < t2 {
                assert(is_blank(header[t2 - 1]));
            } else if t2 < t1 {
                assert(is_blank(header[t1 - 1]));
            }
        }
    } else if f1 < t1 {
        assert(is_blank(header[f1]));
    } else if f2 < t2 {
        assert(is_blank(header[f2]));
    } else {
        assert(a =~= b);
    }
}

/// The value of the `x-forwarded-for` header of the forwarded request:
/// the client's address behind what the header held before, or alone
/// where it held nothing; `unknown` where neither is there.
pub open spec fn forwarded_for_value(prior: Option<Seq<char>>, client: Option<Seq<char>>) -> Seq<
    char,
> {
    match (prior, client) {
        (Some(p), Some(c)) => p + ", "@ + c,
        (Some(p), None) => p,
        (None, Some(c)) => c,
        (None, None) => "unknown"@,
    }
}

/// Computes the `x-forwarded-for` header of the forwarded request.
pub fn forwarded_for(prior: Option<&str>, client: Option<&str>) -> (value: String)
    ensures
        value@ == forwarded_for_value(
            match prior {
                Some(p) => Some(p@),
                None => None,
            },
            match client {
                Some(c) => Some(c@),
                None => None,
            },
        ),
{
    match prior {
        Some(p) => match client {
            Some(c) => join3(p, ", ", c),
            None => String::from_str(p),
        },
        None => match client {
            Some(c) => String::from_str(c),
            None => "unknown".to_string(),
        },
    }
}

/// The URI that a request is forwarded to: scheme and authority of the
/// backend's URL, path and query of the client's request (`/` where the
/// request names none). A backend URL that is no URI, or has no scheme
/// or no authority, and parts that do not make a URI give `InvalidUri`.
pub open spec fn upstream_uri_of(backend_url: Seq<char>, path_and_query: Option<Seq<char>>) -> Result<
    Seq<char>,
    ProxyErrorView,
> {
    let path = match path_and_query {
        Some(p) => p,
        None => "/"@,
    };
    match uri_parts(backend_url) {
        Err(why) => Err(ProxyErrorView::InvalidUri("Invalid backend URL: "@ + why)),
        Ok((Some(scheme), Some(authority))) => match uri_built(scheme, authority, path) {
            Ok(uri) => Ok(uri),
            Err(why) => Err(ProxyErrorView::InvalidUri("Failed to build URI: "@ + why)),
        },
        Ok(_) => Err(
            ProxyErrorView::InvalidUri("Invalid backend URL: missing scheme or authority"@),
        ),
    }
}

/// Rewrites the URI of a request for the backend that it goes to.
pub fn upstream_uri(backend_url: &str, path_and_query: Option<&str>) -> (r: Result<String, ProxyError>)
    ensures
        (match r {
            Ok(uri) => upstream_uri_of(
                backend_url@,
                match path_and_query {
                    Some(p) => Some(p@),
                    None => None,
                },
            ) == Ok::<Seq<char>, ProxyErrorView>(uri@),
            Err(e) => upstream_uri_of(
                backend_url@,
                match path_and_query {
                    Some(p) => Some(p@),
                    None => None,
                },
            ) == Err::<Seq<char>, ProxyErrorView>(e@),
        }),
{
    let path = match path_and_query {
        Some(p) => p,
        None => "/",
    };
    match parse_uri_parts(backend_url) {
        Err(why) => Err(ProxyError::InvalidUri(join2("Invalid backend URL: ", why.as_str()))),
        Ok(parts) => match parts {
            (Some(scheme), Some(authority)) => {
                match build_uri(scheme.as_str(), authority.as_str(), path) {
                    Ok(uri) => Ok(uri),
                    Err(why) => Err(
                        ProxyError::InvalidUri(join2("Failed to build URI: ", why.as_str())),
                    ),
                }
            },
            _ => Err(
                ProxyError::InvalidUri(
                    "Invalid backend URL: missing scheme or authority".to_string(),
                ),
            ),
        },
    }
}

} // verus!
