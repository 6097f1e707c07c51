//! Wall-clock time in milliseconds.

use std::time::Duration;
use std::time::SystemTime;
use std::time::SystemTimeError;
use vstd::prelude::*;

verus! {

#[verifier::external_type_specification]
#[verifier::external_body]
pub struct ExSystemTime(std::time::SystemTime);

#[verifier::external_type_specification]
#[verifier::external_body]
pub struct ExSystemTimeError(std::time::SystemTimeError);

/// The whole milliseconds that `d` spans.
pub uninterp spec fn duration_millis(d: Duration) -> u128;

/// `Duration::from_millis` builds the span of the given number of
/// milliseconds.
pub assume_specification[ Duration::from_millis ](millis: u64) -> (d: Duration)
    ensures
        duration_millis(d) == millis,
;

/// `Duration::as_millis` gives the whole milliseconds of a span.
pub assume_specification[ Duration::as_millis ](d: &Duration) -> (r: u128)
    ensures
        r == duration_millis(*d),
;

/// `SystemTime::now` reads the system clock; nothing is known of the reading.
pub assume_specification[ SystemTime::now ]() -> SystemTime;

/// `SystemTime::duration_since` against `UNIX_EPOCH`: the span from the epoch
/// to `time`, or an error where `time` lies before the epoch.
#[verifier::external_body]
pub(crate) fn since_epoch(time: &SystemTime) -> Result<Duration, SystemTimeError> {
    time.duration_since(SystemTime::UNIX_EPOCH)
}

/// The milliseconds of a span since the epoch; zero where there is none
/// because the time lies before the epoch.
pub fn millis_of(elapsed: Result<Duration, SystemTimeError>) -> (r: u128)
    ensures
        r == (match elapsed {
            Ok(span) => duration_millis(span),
            Err(_) => 0,
        }),
{
    match elapsed {
        Ok(span) => span.as_millis(),
        Err(_) => 0,
    }
}

/// The present time in milliseconds since the Unix epoch; zero where the
/// system clock is set before the epoch.
pub fn unix_millis() -> (r: u128)
    ensures
        exists|elapsed: Result<Duration, SystemTimeError>| r == #[trigger] millis_in(elapsed),
{
    let now = SystemTime::now();
    let elapsed = since_epoch(&now);
    let ghost read = elapsed;
    let r = millis_of(elapsed);
    assert(r == millis_in(read));
    r
}

/// The milliseconds that an answer of the clock stands for: those of the span
/// since the epoch, or zero where the clock is set before the epoch and there
/// is no such span.
pub open spec fn millis_in(elapsed: Result<Duration, SystemTimeError>) -> u128 {
    match elapsed {
        Ok(span) => duration_millis(span),
        Err(_) => 0,
    }
}

} // verus!
