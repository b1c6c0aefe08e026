//! Request identifiers, as the `uuid` crate draws them.

use vstd::prelude::*;
use uuid::Uuid;

verus! {

/// `Uuid::new_v4`, rendered by `to_string`. Trusted: the text has the 36
/// characters of the hyphenated form. Which identifier comes is left
/// open: it is drawn at random.
#[verifier::external_body]
pub(crate) fn new_v4_text() -> (id: String)
    ensures
        id@.len() == 36,
{
    Uuid::new_v4().to_string()
}

} // verus!
