//! The periods that a report can be asked for.

use vstd::prelude::*;
use crate::dates::{is_date, last_day_of_month, month_length, Date};
use crate::text::{parse_i32, parts, parts_of, same_text, small_integer_of, texts};

verus! {

/// A period of time: one named relative to today, or the days from one date
/// to another.
#[derive(Debug, Clone, Copy, PartialEq, Eq, Structural)]
pub enum TimePeriod {
    Today,
    ThisWeek,
    ThisMonth,
    ThisYear,
    Any(Date, Date),
}

/// Why a text names no period.
#[derive(Debug, Clone, Copy, PartialEq, Eq, Structural)]
pub enum PeriodError {
    /// The text is none of the known names.
    InvalidEnumVariant,
    /// The year is no 32-bit integer.
    InvalidYear,
    /// The calendar has no such year or day.
    InvalidDate,
}

/// The days of the year `year`, from its first to its last, for the years
/// whose end the calendar can represent.
pub open spec fn year_days(year: int) -> Result<TimePeriod, PeriodError> {
    if -262143 <= year < 262142 {
        Ok(
            TimePeriod::Any(
                Date { year: year as i32, month: 1, day: 1 },
                Date { year: year as i32, month: 12, day: 31 },
            ),
        )
    } else {
        Err(PeriodError::InvalidDate)
    }
}

/// The year that the decimal text `year_number` names.
pub open spec fn year_of(year_number: Seq<char>) -> Result<TimePeriod, PeriodError> {
    match small_integer_of(year_number) {
        Some(year) => year_days(year as int),
        None => Err(PeriodError::InvalidYear),
    }
}

/// The period that the text `raw` names: `day`, `week`, `month` and `year`
/// stand for the current ones, and `year-` with a number behind it for the
/// year of that number. What follows a second `-` is not read.
pub open spec fn period_of(raw: Seq<char>) -> Result<TimePeriod, PeriodError> {
    let all = parts_of(raw, '-');
    let dimension = all[0];
    if all.len() == 1 {
        if dimension == "day"@ {
            Ok(TimePeriod::Today)
        } else if dimension == "week"@ {
            Ok(TimePeriod::ThisWeek)
        } else if dimension == "month"@ {
            Ok(TimePeriod::ThisMonth)
        } else if dimension == "year"@ {
            Ok(TimePeriod::ThisYear)
        } else {
            Err(PeriodError::InvalidEnumVariant)
        }
    } else if dimension == "year"@ {
        year_of(all[1])
    } else {
        Err(PeriodError::InvalidEnumVariant)
    }
}

/// The month `month` of the year of `today`, from its first day to its
/// last, if the calendar can represent it.
pub open spec fn month_days(today: Option<Date>, month: int) -> Result<TimePeriod, PeriodError> {
    match today {
        Some(day) => if 1 <= month <= 12 && (day.year < 262142 || month < 12) {
            Ok(
                TimePeriod::Any(
                    Date { year: day.year, month: month as u32, day: 1 },
                    Date {
                        year: day.year,
                        month: month as u32,
                        day: month_length(day.year as int, month) as u32,
                    },
                ),
            )
        } else {
            Err(PeriodError::InvalidDate)
        },
        None => Err(PeriodError::InvalidDate),
    }
}

/// The days of the year `year`.
pub fn year(number: i32) -> (result: Result<TimePeriod, PeriodError>)
    ensures
        result == year_days(number as int),
{
    let start = match Date::from_ymd_opt(number, 1, 1) {
        Some(start) => start,
        None => {
            return Err(PeriodError::InvalidDate);
        },
    };
    let december = match Date::from_ymd_opt(number, 12, 1) {
        Some(december) => december,
        None => {
            return Err(PeriodError::InvalidDate);
        },
    };
    if number >= 262142 {
        return Err(PeriodError::InvalidDate);
    }
    Ok(TimePeriod::Any(start, last_day_of_month(december)))
}

/// Reads a year.
pub fn parse_year(year_number: &str) -> (result: Result<TimePeriod, PeriodError>)
    ensures
        result == year_of(year_number@),
{
    match parse_i32(year_number) {
        Some(number) => year(number),
        None => Err(PeriodError::InvalidYear),
    }
}

/// The month `month` of the year of `today`.
pub fn month(today: Option<Date>, number: u32) -> (result: Result<TimePeriod, PeriodError>)
    requires
        today matches Some(day) ==> is_date(day),
    ensures
        result == month_days(today, number as int),
{
    let now = match today {
        Some(now) => now,
        None => {
            return Err(PeriodError::InvalidDate);
        },
    };
    let start = match Date::from_ymd_opt(now.year, number, 1) {
        Some(start) => start,
        None => {
            return Err(PeriodError::InvalidDate);
        },
    };
    if now.year >= 262142 && number >= 12 {
        return Err(PeriodError::InvalidDate);
    }
    Ok(TimePeriod::Any(start, last_day_of_month(start)))
}

/// `parts_of` gives at least one part.
proof fn lemma_parts_not_empty(text: Seq<char>, mark: char)
    ensures
        parts_of(text, mark).len() >= 1,
{
}

impl TimePeriod {
    /// Reads the name of a period.
    pub fn from_str(raw: &str) -> (result: Result<TimePeriod, PeriodError>)
        ensures
            result == period_of(raw@),
    {
        let split = parts(raw, '-');
        proof {
            lemma_parts_not_empty(raw@, '-');
            assert(texts(split@).len() == split@.len());
            assert(texts(split@)[0] == split@[0]@);
            if split@.len() > 1 {
                assert(texts(split@)[1] == split@[1]@);
            }
        }
        let dimension = split[0];
        if split.len() == 1 {
            if same_text(dimension, "day") {
                Ok(TimePeriod::Today)
            } else if same_text(dimension, "week") {
                Ok(TimePeriod::ThisWeek)
            } else if same_text(dimension, "month") {
                Ok(TimePeriod::ThisMonth)
            } else if same_text(dimension, "year") {
                Ok(TimePeriod::ThisYear)
            } else {
                Err(PeriodError::InvalidEnumVariant)
            }
        } else if same_text(dimension, "year") {
            parse_year(split[1])
        } else {
            Err(PeriodError::InvalidEnumVariant)
        }
    }
}

} // verus!
