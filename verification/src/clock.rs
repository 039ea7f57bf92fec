//! The wall clock, read through chrono.

use vstd::prelude::*;

verus! {

/// Relies on chrono::Utc::now (and DateTime::timestamp): the current time as
/// Unix seconds. Nothing is promised of the value; callers state what holds
/// of whatever instant comes back. chrono aborts only on a system clock set
/// before the Unix epoch.
#[verifier::external_body]
pub(crate) fn now_timestamp() -> i64 {
    chrono::Utc::now().timestamp()
}

} // verus!
