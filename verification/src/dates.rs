//! Calendar dates, as plain numbers.

use vstd::prelude::*;
use chrono::{DateTime, Datelike, NaiveDate, Weekday};
use crate::accounting::moment::Moment;

verus! {

/// A day of the proleptic Gregorian calendar.
#[derive(Debug, Clone, Copy, PartialEq, Eq, Structural)]
pub struct Date {
    pub year: i32,
    pub month: u32,
    pub day: u32,
}

/// Whether `year` is a leap year.
pub open spec fn leap(year: int) -> bool {
    year % 4 == 0 && (year % 100 != 0 || year % 400 == 0)
}

/// The number of days of the month `month` of the year `year`.
pub open spec fn month_length(year: int, month: int) -> int {
    if month == 2 {
        if leap(year) {
            29
        } else {
            28
        }
    } else if month == 4 || month == 6 || month == 9 || month == 11 {
        30
    } else {
        31
    }
}

/// Whether `date` is a day of the calendar, in a year that the crate
/// `chrono` can represent.
pub open spec fn is_date(date: Date) -> bool {
    &&& -262143 <= date.year <= 262142
    &&& 1 <= date.month <= 12
    &&& 1 <= date.day <= month_length(date.year as int, date.month as int)
}

/// The day before `date`.
pub open spec fn day_before(date: Date) -> Date {
    if date.day > 1 {
        Date { year: date.year, month: date.month, day: (date.day - 1) as u32 }
    } else if date.month > 1 {
        Date {
            year: date.year,
            month: (date.month - 1) as u32,
            day: month_length(date.year as int, date.month - 1) as u32,
        }
    } else {
        Date { year: (date.year - 1) as i32, month: 12, day: 31 }
    }
}

/// The day after `date`.
pub open spec fn day_after(date: Date) -> Date {
    if date.day < month_length(date.year as int, date.month as int) {
        Date { year: date.year, month: date.month, day: (date.day + 1) as u32 }
    } else if date.month < 12 {
        Date { year: date.year, month: (date.month + 1) as u32, day: 1 }
    } else {
        Date { year: (date.year + 1) as i32, month: 1, day: 1 }
    }
}

/// `NaiveDate::from_ymd_opt` of the crate `chrono`, with the date taken
/// apart again by `year`, `month` and `day` of `Datelike`: the date of these
/// numbers, if there is such a day in a year that `chrono` represents.
#[verifier::external_body]
fn from_ymd_opt(year: i32, month: u32, day: u32) -> (date: Option<Date>)
    ensures
        date == if is_date((Date { year, month, day })) {
            Some(Date { year, month, day })
        } else {
            None
        },
{
    match NaiveDate::from_ymd_opt(year, month, day) {
        Some(date) => Some(Date { year: date.year(), month: date.month(), day: date.day() }),
        None => None,
    }
}

/// `NaiveDate::pred_opt` of the crate `chrono`, on plain numbers: the
/// previous day of the calendar. The first day that `chrono` represents has
/// none.
#[verifier::external_body]
fn pred(date: Date) -> (before: Date)
    requires
        is_date(date),
        date.year > -262143 || date.month > 1 || date.day > 1,
    ensures
        before == day_before(date),
{
    let day = NaiveDate::from_ymd_opt(date.year, date.month, date.day).unwrap().pred_opt().unwrap();
    Date { year: day.year(), month: day.month(), day: day.day() }
}

/// `NaiveDate::succ_opt` of the crate `chrono`, on plain numbers: the next
/// day of the calendar. The last day that `chrono` represents has none.
#[verifier::external_body]
pub(crate) fn succ(date: Date) -> (after: Date)
    requires
        is_date(date),
        date.year < 262142 || date.month < 12 || date.day < 31,
    ensures
        after == day_after(date),
{
    let day = NaiveDate::from_ymd_opt(date.year, date.month, date.day).unwrap().succ_opt().unwrap();
    Date { year: day.year(), month: day.month(), day: day.day() }
}

/// The number of days from 1970-01-01 to the day `year`-`month`-`day`, as
/// the crate `chrono` counts them; negative for earlier days.
pub uninterp spec fn epoch_day(year: int, month: int, day: int) -> int;

/// The calendar day of the moment that lies `seconds` seconds and
/// `nanoseconds` nanoseconds after 1970-01-01 00:00:00, if the crate
/// `chrono` can represent that moment.
pub uninterp spec fn day_of(seconds: int, nanoseconds: int) -> Option<Date>;

/// The number of the ISO week that the day `year`-`month`-`day` lies in.
pub uninterp spec fn iso_week_of(year: int, month: int, day: int) -> int;

/// The Monday, or with `sunday` the Sunday, of the ISO week `week` of the
/// year `year`, if the year has such a week.
pub uninterp spec fn iso_day(year: int, week: int, sunday: bool) -> Option<Date>;

/// `NaiveDate::and_hms_opt` of the crate `chrono`, and `timestamp` of the
/// result read as UTC: the whole seconds from 1970-01-01 00:00:00 to the
/// given time of the given day, which are 86400 for each day and the
/// seconds of the time of day.
#[verifier::external_body]
pub(crate) fn day_at(date: Date, hour: u32, minute: u32, second: u32) -> (moment: Moment)
    requires
        is_date(date),
        hour < 24,
        minute < 60,
        second < 60,
    ensures
        moment.nanoseconds == 0,
        moment.seconds == epoch_day(date.year as int, date.month as int, date.day as int) * 86400
            + hour * 3600 + minute * 60 + second,
{
    let day = NaiveDate::from_ymd_opt(date.year, date.month, date.day).unwrap();
    let time = day.and_hms_opt(hour, minute, second).unwrap().and_utc();
    Moment { seconds: time.timestamp(), nanoseconds: time.timestamp_subsec_nanos() }
}

/// `DateTime::from_timestamp` of the crate `chrono`, and the date of the
/// result taken apart by `year`, `month` and `day` of `Datelike`: the
/// calendar day of a moment, a day that exists.
#[verifier::external_body]
pub(crate) fn date_of(moment: Moment) -> (date: Option<Date>)
    ensures
        date == day_of(moment.seconds as int, moment.nanoseconds as int),
        date matches Some(day) ==> is_date(day),
{
    match DateTime::from_timestamp(moment.seconds, moment.nanoseconds) {
        Some(time) => {
            let day = time.naive_utc().date();
            Some(Date { year: day.year(), month: day.month(), day: day.day() })
        },
        None => None,
    }
}

/// `iso_week` of `Datelike` and `IsoWeek::week` of the crate `chrono`: the
/// number of the ISO week of a day.
#[verifier::external_body]
pub(crate) fn iso_week(date: Date) -> (week: u32)
    requires
        is_date(date),
    ensures
        week == iso_week_of(date.year as int, date.month as int, date.day as int),
{
    NaiveDate::from_ymd_opt(date.year, date.month, date.day).unwrap().iso_week().week()
}

/// `NaiveDate::from_isoywd_opt` of the crate `chrono`, for `Weekday::Mon`
/// or, with `sunday`, for `Weekday::Sun`: a day given by ISO year, week and
/// weekday, if the year has that week and `chrono` represents the day.
#[verifier::external_body]
pub(crate) fn from_isoywd_opt(year: i32, week: u32, sunday: bool) -> (date: Option<Date>)
    requires
        -262143 <= year <= 262142,
    ensures
        date == iso_day(year as int, week as int, sunday),
        date matches Some(day) ==> is_date(day),
{
    let weekday = if sunday {
        Weekday::Sun
    } else {
        Weekday::Mon
    };
    match NaiveDate::from_isoywd_opt(year, week, weekday) {
        Some(day) => Some(Date { year: day.year(), month: day.month(), day: day.day() }),
        None => None,
    }
}

impl Date {
    /// The first moment of the day.
    pub open spec fn first_moment(self) -> Moment {
        Moment {
            seconds: (epoch_day(self.year as int, self.month as int, self.day as int) * 86400) as i64,
            nanoseconds: 0,
        }
    }

    /// The last whole second of the day.
    pub open spec fn last_moment(self) -> Moment {
        Moment {
            seconds: (epoch_day(self.year as int, self.month as int, self.day as int) * 86400
                + 86399) as i64,
            nanoseconds: 0,
        }
    }

    /// The Monday, or with `sunday` the Sunday, of the week of the day:
    /// the day of that weekday in the ISO week of the day's number, taken in
    /// the day's own calendar year.
    pub open spec fn week_day(self, sunday: bool) -> Option<Date> {
        iso_day(
            self.year as int,
            iso_week_of(self.year as int, self.month as int, self.day as int),
            sunday,
        )
    }

    /// Whether `self` comes before `other`.
    pub open spec fn earlier(self, other: Date) -> bool {
        self.year < other.year || (self.year == other.year && (self.month < other.month || (
        self.month == other.month && self.day < other.day)))
    }

    /// The months from the year 0 to the month of the date.
    pub open spec fn month_index(self) -> int {
        self.year * 12 + self.month
    }

    /// The date of these numbers, if there is such a day.
    pub fn from_ymd_opt(year: i32, month: u32, day: u32) -> (date: Option<Date>)
        ensures
            date == if is_date((Date { year, month, day })) {
                Some(Date { year, month, day })
            } else {
                None
            },
    {
        from_ymd_opt(year, month, day)
    }

    /// Whether `self` comes before `other`.
    pub fn is_earlier(&self, other: &Date) -> (result: bool)
        ensures
            result == self.earlier(*other),
    {
        self.year < other.year || (self.year == other.year && (self.month < other.month || (
        self.month == other.month && self.day < other.day)))
    }
}

/// The last day of the month of `date`: the day before the first day of
/// the following month.
pub fn last_day_of_month(date: Date) -> (last: Date)
    requires
        is_date(date),
        date.year < 262142 || date.month < 12,
    ensures
        last == (Date {
            year: date.year,
            month: date.month,
            day: month_length(date.year as int, date.month as int) as u32,
        }),
        is_date(last),
{
    let year = date.year;
    let month = date.month;
    let next = match from_ymd_opt(year, month + 1, 1) {
        Some(first) => first,
        None => Date { year: year + 1, month: 1, day: 1 },
    };
    pred(next)
}

} // verus!
