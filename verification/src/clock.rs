use vstd::prelude::*;

verus! {

#[verifier::external_type_specification]
#[verifier::external_body]
pub struct ExInstant(std::time::Instant);

#[verifier::external_type_specification]
#[verifier::external_body]
pub struct ExSystemTime(std::time::SystemTime);

/// Reads the monotonic clock with `std::time::Instant::now`.
/// Nothing is stated of the reading: it depends on the time.
#[verifier::external_body]
pub(crate) fn instant_now() -> (res: std::time::Instant) {
    std::time::Instant::now()
}

/// Whole milliseconds elapsed since `since`, from `Instant::elapsed`
/// converted with `Duration::as_millis`. Nothing is stated of the value:
/// it depends on the time.
#[verifier::external_body]
pub(crate) fn millis_since(since: &std::time::Instant) -> (res: u128) {
    since.elapsed().as_millis()
}

/// Reads the wall clock with `std::time::SystemTime::now`.
/// Nothing is stated of the reading: it depends on the time.
#[verifier::external_body]
pub(crate) fn system_time_now() -> (res: std::time::SystemTime) {
    std::time::SystemTime::now()
}

/// Whole seconds from the Unix epoch to `t`, from `SystemTime::duration_since`
/// converted with `Duration::as_secs`; `None` when `t` is before the epoch.
/// Nothing is stated of the value: the reading it comes from is opaque.
#[verifier::external_body]
pub(crate) fn secs_since_unix_epoch(t: &std::time::SystemTime) -> (res: Option<u64>) {
    match t.duration_since(std::time::UNIX_EPOCH) {
        Ok(d) => Some(d.as_secs()),
        Err(_) => None,
    }
}

} // verus!
