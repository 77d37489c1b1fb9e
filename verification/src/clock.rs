//! The wall clock, read as time since the Unix epoch.
use std::time::SystemTime;
use std::time::UNIX_EPOCH;
use vstd::prelude::*;

verus! {

/// Calls `std::time::SystemTime::now` and measures it from the Unix epoch
/// with `duration_since`, giving whole seconds and the nanoseconds past them;
/// `None` when the clock is set before 1970 (the error `duration_since`
/// reports). Trusted: the nanoseconds are below one second, as
/// `Duration::subsec_nanos` documents; the value itself is the clock's.
#[verifier::external_body]
pub(crate) fn time_since_unix_epoch() -> (t: Option<(u64, u32)>)
    ensures
        t matches Some((_, n)) ==> n < 1_000_000_000,
{
    match SystemTime::now().duration_since(UNIX_EPOCH) {
        Ok(d) => Some((d.as_secs(), d.subsec_nanos())),
        Err(_) => None,
    }
}

} // verus!
