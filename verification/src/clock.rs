//! The wall clock, taken from outside the library.

use vstd::prelude::*;

verus! {

/// Relies on `chrono::Utc::now` and `timestamp`: the current Unix time in
/// seconds.  Nothing is assumed of the value; callers that need to reason
/// about timestamps take one as an argument instead.
#[verifier::external_body]
pub(crate) fn now_ts() -> u64 {
    chrono::Utc::now().timestamp() as u64
}

} // verus!
