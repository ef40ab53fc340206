//! Titles of reports.

use vstd::prelude::*;
use vstd::string::{to_string_from_display_ensures, StringExecFns};
use crate::bot::report::{month_name, month_name_of};
use crate::dates::Date;

verus! {

/// Whether `text` is what the standard library writes for the number
/// `year`.
pub open spec fn written(year: i32, text: Seq<char>) -> bool {
    exists|string: String| string@ == text && #[trigger] to_string_from_display_ensures::<i32>(
        &year,
        string,
    )
}

/// Whether `name` is the title of a report from `from` to `to`, with the
/// years written as `from_year` and `to_year`: the two months of one year,
/// the two months with their years, or, where both dates lie in months of
/// the same number, the first month with its year.
pub open spec fn titles(
    name: Seq<char>,
    from: Date,
    to: Date,
    from_year: Seq<char>,
    to_year: Seq<char>,
) -> bool {
    let from_month = month_name_of(from.month as int);
    let to_month = month_name_of(to.month as int);
    if from.month != to.month && from.year == to.year {
        name == from_year + ": "@ + from_month + " - "@ + to_month
    } else if from.month != to.month {
        name == from_month + " "@ + from_year + " - "@ + to_month + " "@ + to_year
    } else {
        name == from_month + " "@ + from_year
    }
}

/// The title of a report on the period from `from` to `to`.
pub fn report_name(from: Date, to: Date) -> (name: String)
    requires
        1 <= from.month <= 12,
        1 <= to.month <= 12,
    ensures
        exists|from_year: Seq<char>, to_year: Seq<char>|
            written(from.year, from_year) && written(to.year, to_year) && #[trigger] titles(
                name@,
                from,
                to,
                from_year,
                to_year,
            ),
{
    let from_year = from.year.to_string();
    let to_year = to.year.to_string();
    let mut name = String::new();
    if from.month != to.month && from.year == to.year {
        name.append(from_year.as_str());
        name.append(": ");
        name.append(month_name(from.month));
        name.append(" - ");
        name.append(month_name(to.month));
    } else if from.month != to.month {
        name.append(month_name(from.month));
        name.append(" ");
        name.append(from_year.as_str());
        name.append(" - ");
        name.append(month_name(to.month));
        name.append(" ");
        name.append(to_year.as_str());
    } else {
        name.append(month_name(from.month));
        name.append(" ");
        name.append(from_year.as_str());
    }
    proof {
        assert(written(from.year, from_year@));
        assert(written(to.year, to_year@));
        assert(Seq::<char>::empty() + from_year@ == from_year@);
        assert(Seq::<char>::empty() + month_name_of(from.month as int) == month_name_of(
            from.month as int,
        ));
        assert(titles(name@, from, to, from_year@, to_year@));
    }
    name
}

} // verus!
