//! The calendar facts that only the chrono crate can supply: the current
//! local time, and parsing of date and time texts in the fixed formats the
//! entry parser accepts.
use vstd::prelude::*;

use crate::datetime::{Date, DateTime, Time};
use chrono::{Datelike, Timelike};

verus! {

/// The date that `chrono::NaiveDate::parse_from_str` with the "%Y-%m-%d"
/// format reads out of a text, if any.
pub uninterp spec fn ymd_parse(s: Seq<char>) -> Option<Date>;

/// The time that `chrono::NaiveTime::parse_from_str` with the "%H-%M-%S"
/// format reads out of a text, if any.
pub uninterp spec fn hms_parse(s: Seq<char>) -> Option<Time>;

/// Relies on chrono::NaiveDate::parse_from_str with the "%Y-%m-%d" format:
/// which date a text denotes depends on the characters alone, and a parsed
/// date is a valid calendar date.
#[verifier::external_body]
pub(crate) fn parse_ymd(s: &str) -> (r: Option<Date>)
    ensures
        r == ymd_parse(s@),
        r matches Some(d) ==> d.valid(),
{
    match chrono::NaiveDate::parse_from_str(s, "%Y-%m-%d") {
        Ok(d) => Some(Date { year: d.year(), month: d.month() as u8, day: d.day() as u8 }),
        Err(_) => None,
    }
}

/// Relies on chrono::NaiveTime::parse_from_str with the "%H-%M-%S" format:
/// which time a text denotes depends on the characters alone, and a parsed
/// time is a valid wall-clock time.
#[verifier::external_body]
pub(crate) fn parse_hms(s: &str) -> (r: Option<Time>)
    ensures
        r == hms_parse(s@),
        r matches Some(t) ==> t.valid(),
{
    match chrono::NaiveTime::parse_from_str(s, "%H-%M-%S") {
        Ok(t) => Some(
            Time {
                hour: t.hour() as u8,
                minute: t.minute() as u8,
                second: t.second() as u8,
                nano: t.nanosecond(),
            },
        ),
        Err(_) => None,
    }
}

/// Relies on chrono::Local::now: the current moment in the local calendar;
/// nothing is known of the value but that it is a valid calendar time.
#[verifier::external_body]
pub(crate) fn now_local() -> (r: DateTime)
    ensures
        r.valid(),
{
    let now = chrono::Local::now();
    DateTime {
        date: Date { year: now.year(), month: now.month() as u8, day: now.day() as u8 },
        time: Time {
            hour: now.hour() as u8,
            minute: now.minute() as u8,
            second: now.second() as u8,
            nano: now.nanosecond(),
        },
    }
}

} // verus!
