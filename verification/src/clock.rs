//! The one clock read the library makes: stamping a data-file record.

use vstd::prelude::*;

verus! {

/// Relies on std's `SystemTime::now`: the wall time, read once and
/// converted to milliseconds since the Unix epoch. A clock set before
/// the epoch reads as 0 rather than failing, so the read is total; the
/// result depends on the clock, so nothing is promised of its value.
#[verifier::external_body]
pub(crate) fn now_millis() -> i64 {
    match std::time::SystemTime::now().duration_since(std::time::UNIX_EPOCH) {
        Ok(d) => d.as_millis() as i64,
        Err(_) => 0,
    }
}

} // verus!
