//! The clocks of the standard library.

use std::time::{Instant, SystemTime};
use vstd::prelude::*;

verus! {

/// A reading of the monotonic clock, `std::time::Instant`.
#[verifier::external_type_specification]
#[verifier::external_body]
pub struct ExInstant(Instant);

/// A reading of the wall clock, `std::time::SystemTime`.
#[verifier::external_type_specification]
#[verifier::external_body]
pub struct ExSystemTime(SystemTime);

/// `Instant::now`: reads the monotonic clock. Nothing is claimed of the
/// reading.
pub assume_specification[ Instant::now ]() -> (now: Instant)
;

/// `SystemTime::now`: reads the wall clock. Nothing is claimed of the reading.
pub assume_specification[ SystemTime::now ]() -> (now: SystemTime)
;

/// The nanoseconds from `earlier` to `later`, as
/// `Instant::saturating_duration_since` counts them.
pub uninterp spec fn span_between(earlier: Instant, later: Instant) -> nat;

/// `Instant::saturating_duration_since`: the time from `earlier` to `later`, as
/// whole seconds and the nanoseconds of the last one.
///
/// The span is a function of the two readings. How the readings of a clock
/// follow one another is not claimed.
#[verifier::external_body]
pub(crate) fn duration_between(earlier: &Instant, later: &Instant) -> (parts: (u64, u32))
    ensures
        parts.1 < 1_000_000_000,
        parts.0 * 1_000_000_000 + parts.1 == span_between(*earlier, *later),
{
    let duration = later.saturating_duration_since(*earlier);
    (duration.as_secs(), duration.subsec_nanos())
}

/// The nanoseconds from the Unix epoch to `time`, as
/// `SystemTime::duration_since` counts them; `None` for a time before the
/// epoch.
pub uninterp spec fn epoch_nanos(time: SystemTime) -> Option<nat>;

/// `SystemTime::duration_since` with the Unix epoch: how long after the epoch
/// `time` is, as whole seconds and the nanoseconds of the last one, and `None`
/// for a time before the epoch.
///
/// The span is a function of `time`. What time a clock shows is not claimed.
#[verifier::external_body]
pub(crate) fn since_epoch(time: &SystemTime) -> (parts: Option<(u64, u32)>)
    ensures
        match parts {
            Some(p) => p.1 < 1_000_000_000 && epoch_nanos(*time) == Some(
                (p.0 * 1_000_000_000 + p.1) as nat,
            ),
            None => epoch_nanos(*time) is None,
        },
{
    match time.duration_since(SystemTime::UNIX_EPOCH) {
        Ok(duration) => Some((duration.as_secs(), duration.subsec_nanos())),
        Err(_) => None,
    }
}

/// The text that the `Debug` format of `std::time::Duration` gives to
/// `subsec_nanos` nanoseconds after `secs` seconds.
pub uninterp spec fn duration_text(secs: u64, subsec_nanos: u32) -> Seq<char>;

/// `Debug` of `std::time::Duration`: the duration as text, such as `1.5s`.
#[verifier::external_body]
pub(crate) fn format_duration(secs: u64, subsec_nanos: u32) -> (text: String)
    requires
        subsec_nanos < 1_000_000_000,
    ensures
        text@ == duration_text(secs, subsec_nanos),
{
    format!("{:?}", std::time::Duration::new(secs, subsec_nanos))
}

} // verus!
