//! The shared-secret gate in front of the chat endpoint.

use vstd::prelude::*;

verus! {

/// Whether a request may pass: an empty shared secret gates nothing;
/// otherwise the caller's secret header must match it exactly, and a
/// request without the header is turned away.
pub open spec fn authorized(provided: Option<&str>, shared_secret: Seq<char>) -> bool {
    if shared_secret.len() == 0 {
        true
    } else {
        match provided {
            Some(p) => p@ == shared_secret,
            None => false,
        }
    }
}

/// Check a request's secret header against the shared secret.
pub fn is_authorized(provided: Option<&str>, shared_secret: &str) -> (r: bool)
    ensures
        r == authorized(provided, shared_secret@),
{
    if shared_secret.is_empty() {
        return true;
    }
    match provided {
        Some(p) => {
            let given: String = p.to_owned();
            let expected: String = shared_secret.to_owned();
            given == expected
        },
        None => false,
    }
}

} // verus!
