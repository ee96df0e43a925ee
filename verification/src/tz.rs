//! The library's view of the tz database and of business-day arithmetic,
//! through trusted wrappers over `chrono`, `chrono-tz` and `workdays`.
use vstd::prelude::*;
use chrono::{Datelike, Timelike};

use crate::dates::{Date, LocalDateTime, day_number, work_end_dn};

verus! {

/// Earliest accepted timestamp: two days after 0001-01-01T00:00:00Z, so that
/// the civil date read in any zone still has year at least 1.
pub const MIN_TIMESTAMP_MS: i64 = -62135424000000;

/// Latest accepted timestamp: two days before the end of 9999-12-31, so that
/// the civil date read in any zone still has year at most 9999.
pub const MAX_TIMESTAMP_MS: i64 = 253402127999999;

/// The canonical name of the zone a string denotes, or `None` when it
/// denotes no zone of the tz database.
pub uninterp spec fn tz_canon(s: Seq<char>) -> Option<Seq<char>>;

/// The civil date and wall-clock time of a timestamp read in the named zone;
/// a name denoting no zone is read as UTC, so the result is a function of
/// the name and the timestamp alone.
pub uninterp spec fn local_civil(tz: Seq<char>, ms: int) -> LocalDateTime;

/// Relies on `chrono_tz::Tz::from_str` and `Tz::name`: a string naming a
/// zone of the tz database maps to that zone's canonical name, and any other
/// string is rejected. A canonical name parses back to the same zone, so a
/// second canonicalization returns it unchanged.
#[verifier::external_body]
pub(crate) exec fn canonicalize_tz(s: &str) -> (r: Option<String>)
    ensures
        match r {
            Some(c) => tz_canon(s@) == Some(c@) && tz_canon(c@) == Some(c@),
            None => tz_canon(s@) is None,
        },
{
    match s.parse::<chrono_tz::Tz>() {
        Ok(zone) => Some(zone.name().to_string()),
        Err(_) => None,
    }
}

/// Relies on `chrono::DateTime::from_timestamp_millis` and on
/// `chrono_tz::Tz`'s offset rules: converts a timestamp to the civil date
/// and wall-clock time in the named zone. A name that parses as no zone
/// falls back to UTC. The timestamp bounds keep the civil year within
/// 1..=9999 in every zone, since no zone's offset reaches two days.
#[verifier::external_body]
pub(crate) exec fn civil_in_zone(tz: &str, ms: i64) -> (r: LocalDateTime)
    requires
        MIN_TIMESTAMP_MS <= ms <= MAX_TIMESTAMP_MS,
    ensures
        r == local_civil(tz@, ms as int),
        r.wf(),
        r.date.year <= 9999,
{
    let zone: chrono_tz::Tz = tz.parse().unwrap_or(chrono_tz::Tz::UTC);
    let utc = chrono::DateTime::from_timestamp_millis(ms).unwrap();
    let local = utc.with_timezone(&zone);
    LocalDateTime {
        date: Date { year: local.year(), month: local.month() as u8, day: local.day() as u8 },
        hour: local.hour() as u8,
        minute: local.minute() as u8,
    }
}

/// Relies on `workdays::WorkCalendar::compute_end_date` with a Monday-to-
/// Friday work week and no holidays, and on `chrono::NaiveDate`'s day
/// stepping and weekday: starting from `start` (which counts when it falls
/// on a work day), it advances one day at a time until `n` work days are
/// covered, and returns the number of calendar days covered. The bounds on
/// `start` and `n` keep the walk inside `chrono`'s supported date range.
#[verifier::external_body]
pub(crate) exec fn work_window_delta(start: &Date, n: i64) -> (delta: i64)
    requires
        start.wf(),
        start.year <= 9999,
        0 <= n <= 400_000,
    ensures
        day_number(*start) + delta == work_end_dn(day_number(*start), n as int),
{
    let date = chrono::NaiveDate::from_ymd_opt(start.year, start.month as u32, start.day as u32)
        .unwrap();
    let mut calendar = workdays::WorkCalendar::new();
    calendar.set_work_days("Mon,Tue,Wed,Thu,Fri").unwrap();
    let (_, duration) = calendar.compute_end_date(date, n).unwrap();
    duration.num_days()
}

} // verus!
