//! The one place where the store touches the wall clock.

use vstd::prelude::*;

verus! {

/// Relies on `chrono::Utc::now` and `DateTime::to_rfc3339_opts`: the current
/// time rendered as RFC 3339 text. The value depends on the clock, so nothing
/// is assumed about it; callers treat it as an arbitrary string.
#[verifier::external_body]
pub fn now_rfc3339() -> String {
    chrono::Utc::now().to_rfc3339_opts(chrono::SecondsFormat::AutoSi, true)
}

} // verus!
