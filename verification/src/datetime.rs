//! Calendar values as plain fields. Entries carry a local calendar date and
//! wall-clock time; ordering and filtering compare the fields
//! lexicographically, which matches comparing local timestamps.
use vstd::prelude::*;

verus! {

/// A calendar date: year, month and day as plain numbers.
#[derive(Clone, Copy, PartialEq, Eq, Structural, Debug)]
pub struct Date {
    pub year: i32,
    pub month: u8,
    pub day: u8,
}

/// A wall-clock time: hour, minute and second as plain numbers.
#[derive(Clone, Copy, PartialEq, Eq, Structural, Debug)]
pub struct Time {
    pub hour: u8,
    pub minute: u8,
    pub second: u8,
    pub nano: u32,
}

/// A local calendar date together with a wall-clock time.
#[derive(Clone, Copy, PartialEq, Eq, Structural, Debug)]
pub struct DateTime {
    pub date: Date,
    pub time: Time,
}

impl Date {
    /// The field ranges that every date handed out by this crate satisfies.
    pub open spec fn valid(self) -> bool {
        &&& -400000 <= self.year <= 400000
        &&& 1 <= self.month <= 12
        &&& 1 <= self.day <= 31
    }
}

impl Time {
    /// The field ranges that every time handed out by this crate satisfies.
    pub open spec fn valid(self) -> bool {
        &&& self.hour < 24
        &&& self.minute < 60
        &&& self.second < 60
        &&& self.nano < 2000000000
    }
}

impl DateTime {
    pub open spec fn valid(self) -> bool {
        self.date.valid() && self.time.valid()
    }
}

/// Strict lexicographic order on dates.
pub open spec fn date_before(a: Date, b: Date) -> bool {
    ||| a.year < b.year
    ||| (a.year == b.year && a.month < b.month)
    ||| (a.year == b.year && a.month == b.month && a.day < b.day)
}

/// Strict lexicographic order on times.
pub open spec fn time_before(a: Time, b: Time) -> bool {
    ||| a.hour < b.hour
    ||| (a.hour == b.hour && a.minute < b.minute)
    ||| (a.hour == b.hour && a.minute == b.minute && a.second < b.second)
    ||| (a.hour == b.hour && a.minute == b.minute && a.second == b.second && a.nano < b.nano)
}

/// Strict order on datetimes: date first, then time.
pub open spec fn before(a: DateTime, b: DateTime) -> bool {
    ||| date_before(a.date, b.date)
    ||| (a.date == b.date && time_before(a.time, b.time))
}

/// Decides `before(a, b)`.
pub fn datetime_lt(a: &DateTime, b: &DateTime) -> (r: bool)
    ensures
        r == before(*a, *b),
{
    if a.date.year != b.date.year {
        a.date.year < b.date.year
    } else if a.date.month != b.date.month {
        a.date.month < b.date.month
    } else if a.date.day != b.date.day {
        a.date.day < b.date.day
    } else if a.time.hour != b.time.hour {
        a.time.hour < b.time.hour
    } else if a.time.minute != b.time.minute {
        a.time.minute < b.time.minute
    } else if a.time.second != b.time.second {
        a.time.second < b.time.second
    } else {
        a.time.nano < b.time.nano
    }
}

/// The strict order is a total order: exactly one of `before(a, b)`,
/// `before(b, a)` or `a == b` holds.
pub proof fn lemma_before_trichotomy(a: DateTime, b: DateTime)
    ensures
        before(a, b) || before(b, a) || a == b,
        before(a, b) ==> !before(b, a) && a != b,
{
}

pub proof fn lemma_before_transitive(a: DateTime, b: DateTime, c: DateTime)
    requires
        before(a, b),
        before(b, c),
    ensures
        before(a, c),
{
}

} // verus!
