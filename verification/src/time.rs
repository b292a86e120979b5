//! Points in time and the whole days between them, as the `chrono` crate
//! reads and counts them.

use vstd::prelude::*;

verus! {

/// A point in time: the seconds since the start of 1970 in UTC, and the
/// nanoseconds into that second.
#[derive(Clone, Copy, Debug)]
pub struct Instant {
    pub secs: i64,
    pub nanos: u32,
}

/// The point in time that `text` denotes when `chrono` reads it as a
/// `DateTime<Utc>`, as seconds and nanoseconds; `None` where `chrono` does
/// not take `text` for a timestamp.
pub uninterp spec fn utc_timestamp(text: Seq<char>) -> Option<(i64, u32)>;

/// The whole days that `chrono` counts from the earlier point in time to
/// the later one, negative where the "earlier" one is in fact later;
/// `None` where `chrono` cannot represent one of the two.
pub uninterp spec fn days_between(
    later_secs: i64,
    later_nanos: u32,
    earlier_secs: i64,
    earlier_nanos: u32,
) -> Option<i64>;

/// Reads a timestamp with `chrono`: `str::parse::<DateTime<Utc>>`, which
/// takes a relaxed form of RFC 3339. The result is handed on as the
/// seconds and nanoseconds of `DateTime::timestamp` and
/// `DateTime::timestamp_subsec_nanos`. Nothing is claimed of which texts
/// are timestamps, only that the same text always reads the same.
#[verifier::external_body]
pub(crate) fn parse_utc(text: &str) -> (r: Option<Instant>)
    ensures
        match r {
            Some(time) => utc_timestamp(text@) == Some((time.secs, time.nanos)),
            None => utc_timestamp(text@) is None,
        },
{
    match text.parse::<chrono::DateTime<chrono::Utc>>() {
        Ok(time) => Some(Instant { secs: time.timestamp(), nanos: time.timestamp_subsec_nanos() }),
        Err(_) => None,
    }
}

/// The current time, from `chrono::Utc::now`. Nothing is claimed of it.
/// `Utc::now` panics where the system clock stands before 1970.
#[verifier::external_body]
pub(crate) fn utc_now() -> Instant {
    let time = chrono::Utc::now();
    Instant { secs: time.timestamp(), nanos: time.timestamp_subsec_nanos() }
}

/// Counts the whole days from `earlier` to `later` with `chrono`: both are
/// made into a `DateTime<Utc>` by `DateTime::from_timestamp`, which fails
/// on seconds or nanoseconds out of its range, and the count is
/// `signed_duration_since` followed by `TimeDelta::num_days`. Nothing is
/// claimed of the count, only that the same two points always give the
/// same.
#[verifier::external_body]
pub(crate) fn whole_days(later: &Instant, earlier: &Instant) -> (r: Option<i64>)
    ensures
        r == days_between(later.secs, later.nanos, earlier.secs, earlier.nanos),
{
    let to = chrono::DateTime::from_timestamp(later.secs, later.nanos)?;
    let from = chrono::DateTime::from_timestamp(earlier.secs, earlier.nanos)?;
    Some(to.signed_duration_since(from).num_days())
}

} // verus!
