//! The wall clock.
use vstd::prelude::*;

verus! {

/// Relies on chrono's `Utc::now`: the current unix time in seconds; nothing is known of its value.
#[verifier::external_body]
pub(crate) fn now_unix() -> (r: i64) {
    chrono::Utc::now().timestamp()
}

} // verus!
