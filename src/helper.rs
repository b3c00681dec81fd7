//! Small shared helpers.

use vstd::prelude::*;

verus! {

/// The value `true`, the default of the boolean settings of a host sampler.
pub fn default_true() -> (r: bool)
    ensures
        r,
{
    true
}

#[verifier::external_type_specification]
#[verifier::external_body]
pub struct ExSystemTime(std::time::SystemTime);

#[verifier::external_type_specification]
#[verifier::external_body]
pub struct ExSystemTimeError(std::time::SystemTimeError);

/// Relies on `SystemTime::now`: the clock's reading; nothing is known of it.
#[verifier::external_body]
fn clock_now() -> std::time::SystemTime {
    std::time::SystemTime::now()
}

/// Relies on `SystemTime::duration_since`: the time elapsed since the epoch, or an error
/// when the reading is earlier than the epoch.
#[verifier::external_body]
fn since_epoch(t: &std::time::SystemTime) -> std::result::Result<std::time::Duration, std::time::SystemTimeError> {
    t.duration_since(std::time::UNIX_EPOCH)
}

/// Relies on `Duration::as_secs`: the whole seconds of a duration.
#[verifier::external_body]
fn whole_seconds(d: &std::time::Duration) -> u64 {
    d.as_secs()
}

/// The current time in whole seconds since the epoch, or 0 when the clock reads earlier
/// than the epoch.
pub fn now() -> u64 {
    match since_epoch(&clock_now()) {
        Ok(d) => whole_seconds(&d),
        Err(_) => 0,
    }
}

} // verus!
