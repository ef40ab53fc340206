//! Report requests of the bot: which report is asked for, and for which
//! month.

use vstd::prelude::*;
use crate::accounting::moment::local_now;
use crate::accounting::period::{
    month, month_days, parse_year, year_of, PeriodError, TimePeriod,
};
use crate::dates::{date_of, is_date, Date};
use crate::error::AppError;
use crate::text::same_text;

verus! {

/// The report that a message asks for.
#[derive(Debug)]
pub enum ReportRequest {
    /// The report of the current week, as a reply.
    Week,
    /// The report of the named period, as a reply.
    Print { time_period: String },
    /// The report of the named period, sent to an e-mail address.
    Send { time_period: String, email: String },
}

/// The error for a report request with too many words.
pub fn wrong_bot_usage() -> (error: AppError)
    ensures
        error matches AppError::BotUsage { reason } && reason@ == "ожидается два аргумента"@,
{
    AppError::BotUsage { reason: "ожидается два аргумента".to_owned() }
}

/// Reads the words that follow the report command: none asks for the report
/// of the week, one names the period, two name the period and an address,
/// and a third word is an error. A word cannot follow a missing one.
pub fn report(time_period: Option<&str>, email: Option<&str>, last: Option<&str>) -> (result:
    Result<ReportRequest, AppError>)
    requires
        time_period is None ==> email is None && last is None,
    ensures
        match (time_period, email, last) {
            (None, _, _) => result matches Ok(ReportRequest::Week),
            (Some(period), None, _) => result matches Ok(ReportRequest::Print { time_period })
                && time_period@ == period@,
            (Some(period), Some(address), None) => {
                &&& result matches Ok(ReportRequest::Send { time_period, email })
                &&& time_period@ == period@
                &&& email@ == address@
            },
            (Some(_), Some(_), Some(_)) => {
                &&& result matches Err(AppError::BotUsage { reason })
                &&& reason@ == "ожидается два аргумента"@
            },
        },
{
    match (time_period, email, last) {
        (None, _, _) => Ok(ReportRequest::Week),
        (Some(time_period), None, _) => Ok(
            ReportRequest::Print { time_period: time_period.to_owned() },
        ),
        (Some(time_period), Some(email), None) => Ok(
            ReportRequest::Send { time_period: time_period.to_owned(), email: email.to_owned() },
        ),
        (Some(_), Some(_), Some(_)) => Err(wrong_bot_usage()),
    }
}

/// The name of the month with the number `month`, January being 1.
pub open spec fn month_name_of(month: int) -> Seq<char> {
    if month == 1 {
        "январь"@
    } else if month == 2 {
        "февраль"@
    } else if month == 3 {
        "март"@
    } else if month == 4 {
        "апрель"@
    } else if month == 5 {
        "май"@
    } else if month == 6 {
        "июнь"@
    } else if month == 7 {
        "июль"@
    } else if month == 8 {
        "август"@
    } else if month == 9 {
        "сентябрь"@
    } else if month == 10 {
        "октябрь"@
    } else if month == 11 {
        "ноябрь"@
    } else {
        "декабрь"@
    }
}

/// The name of the month with the number `month`, January being 1.
pub fn month_name(month: u32) -> (name: &'static str)
    requires
        1 <= month <= 12,
    ensures
        name@ == month_name_of(month as int),
{
    match month {
        1 => "январь",
        2 => "февраль",
        3 => "март",
        4 => "апрель",
        5 => "май",
        6 => "июнь",
        7 => "июль",
        8 => "август",
        9 => "сентябрь",
        10 => "октябрь",
        11 => "ноябрь",
        _ => "декабрь",
    }
}

/// The number of the first month from `from` on whose name is `text`.
pub open spec fn month_of(text: Seq<char>, from: int) -> Option<u32>
    decreases 13 - from,
{
    if from < 1 || from > 12 {
        None
    } else if text == month_name_of(from) {
        Some(from as u32)
    } else {
        month_of(text, from + 1)
    }
}

/// The number of the month that `time_period` names, if it names one.
pub fn month_number(time_period: &str) -> (number: Option<u32>)
    ensures
        number == month_of(time_period@, 1),
{
    let mut month: u32 = 1;
    while month <= 12
        invariant
            1 <= month <= 13,
            month_of(time_period@, 1) == month_of(time_period@, month as int),
        decreases 13 - month,
    {
        if same_text(time_period, month_name(month)) {
            return Some(month);
        }
        month = month + 1;
    }
    None
}

/// The period that a report request names when it is read on the day
/// `today`: the name of a month stands for that month of the year of
/// `today`, anything else is read as a year.
pub open spec fn requested_period(today: Option<Date>, time_period: Seq<char>) -> Result<
    TimePeriod,
    PeriodError,
> {
    match month_of(time_period, 1) {
        Some(number) => month_days(today, number as int),
        None => year_of(time_period),
    }
}

/// Reads the period of a report request on the day `today`.
pub fn time_period_on(today: Option<Date>, time_period: &str) -> (result: Result<
    TimePeriod,
    PeriodError,
>)
    requires
        today matches Some(day) ==> is_date(day),
    ensures
        result == requested_period(today, time_period@),
{
    match month_number(time_period) {
        Some(number) => month(today, number),
        None => parse_year(time_period),
    }
}

/// Reads the period of a report request on the day that the clock shows:
/// the result is that of `time_period_on` for some day, and for a year it
/// does not depend on the day.
pub fn parse_time_period(time_period: &str) -> (result: Result<TimePeriod, PeriodError>)
    ensures
        exists|today: Option<Date>| #[trigger]
            requested_period(today, time_period@) == result,
        month_of(time_period@, 1) is None ==> result == year_of(time_period@),
{
    let today = date_of(local_now());
    time_period_on(today, time_period)
}

} // verus!
