//! The wall clock, behind a trusted wrapper.

use vstd::prelude::*;

verus! {

/// Relies on chrono::Utc::now and chrono::DateTime::timestamp: the current
/// wall-clock time as whole seconds since the Unix epoch. Nothing is assumed
/// of the value. It panics only when the system clock reads before the epoch.
#[verifier::external_body]
pub(crate) fn now_seconds() -> i64 {
    chrono::Utc::now().timestamp()
}

} // verus!
