//! The wall clock that blocks are stamped with.
use vstd::prelude::*;

verus! {

#[verifier::external_type_specification]
#[verifier::external_body]
pub struct ExSystemTime(std::time::SystemTime);

/// Calls `std::time::SystemTime::now`. Trusted: nothing is claimed of the
/// time.
#[verifier::external_body]
fn system_now() -> (now: std::time::SystemTime) {
    std::time::SystemTime::now()
}

/// Calls `std::time::SystemTime::duration_since` with the Unix epoch.
/// Trusted: nothing is claimed of the duration; `None` where the time lies
/// before the epoch.
#[verifier::external_body]
fn since_epoch(time: &std::time::SystemTime) -> (elapsed: Option<std::time::Duration>) {
    time.duration_since(std::time::UNIX_EPOCH).ok()
}

/// Calls `std::time::Duration::as_millis`. Trusted: nothing is claimed of
/// the number.
#[verifier::external_body]
fn whole_millis(elapsed: &std::time::Duration) -> (millis: u128) {
    elapsed.as_millis()
}

/// Reads the clock: milliseconds since the Unix epoch. `None` where the
/// clock stands before the epoch.
pub(crate) fn now_millis() -> (millis: Option<u128>) {
    let now = system_now();
    match since_epoch(&now) {
        Some(elapsed) => Some(whole_millis(&elapsed)),
        None => None,
    }
}

} // verus!
