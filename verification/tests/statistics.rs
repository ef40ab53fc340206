use accounting::accounting::category::Category;
use accounting::accounting::entry::{Entry, Product};
use accounting::accounting::id::{CategoryId, EntryId, UserId};
use accounting::accounting::moment::Moment;
use accounting::accounting::period::TimePeriod;
use accounting::accounting::statistics::{
    by_category, category_name, entries_in_period, overflow, period_days, stats, subperiods,
    total_spent, Statistics,
};
use accounting::accounting::tag::Tags;
use accounting::dates::{last_day_of_month, Date};
use accounting::error::AppError;
use accounting::representation::report_name;

fn entry(name: &str, price: i32, seconds: i64) -> Entry {
    Entry {
        id: EntryId::new(format!("{}-{}", name, seconds)),
        user_id: UserId::new("u".to_string()),
        product: Product { name: name.to_string(), price },
        time: Moment { seconds, nanoseconds: 0 },
        tags: Tags::empty(),
    }
}

fn label(product: &str, category: &str) -> Category {
    Category {
        id: CategoryId::new(format!("{}-{}", product, category)),
        user_id: UserId::new("u".to_string()),
        product: product.to_string(),
        category: category.to_string(),
    }
}

fn date(year: i32, month: u32, day: u32) -> Date {
    Date::from_ymd_opt(year, month, day).unwrap()
}

fn is_overflow(error: &AppError) -> bool {
    matches!(error, AppError::Calculation { reason } if reason == "Overflow")
}

#[test]
fn correct_subperiods() {
    assert_eq!(subperiods(date(2018, 1, 1), date(2018, 1, 30)), None);
    assert_eq!(
        subperiods(date(2018, 1, 1), date(2018, 2, 28)),
        Some(vec![
            (date(2018, 1, 1), date(2018, 1, 31)),
            (date(2018, 2, 1), date(2018, 2, 28)),
        ])
    );
}

#[test]
fn subperiods_across_years() {
    assert_eq!(
        subperiods(date(2019, 11, 15), date(2020, 2, 29)),
        Some(vec![
            (date(2019, 11, 15), date(2019, 11, 30)),
            (date(2019, 12, 1), date(2019, 12, 31)),
            (date(2020, 1, 1), date(2020, 1, 31)),
            (date(2020, 2, 1), date(2020, 2, 29)),
        ])
    );
    assert_eq!(
        subperiods(date(2018, 1, 31), date(2018, 2, 1)),
        Some(vec![
            (date(2018, 1, 31), date(2018, 1, 31)),
            (date(2018, 2, 1), date(2018, 2, 1)),
        ])
    );
    assert_eq!(subperiods(date(2018, 3, 1), date(2018, 2, 1)), None);
    assert_eq!(subperiods(date(2019, 1, 1), date(2018, 12, 1)), None);
    assert_eq!(
        subperiods(date(2018, 12, 1), date(2019, 1, 1)),
        Some(vec![
            (date(2018, 12, 1), date(2018, 12, 31)),
            (date(2019, 1, 1), date(2019, 1, 1)),
        ])
    );
}

#[test]
fn last_days_of_months() {
    assert_eq!(last_day_of_month(date(2018, 1, 1)), date(2018, 1, 31));
    assert_eq!(last_day_of_month(date(2018, 2, 10)), date(2018, 2, 28));
    assert_eq!(last_day_of_month(date(2020, 2, 10)), date(2020, 2, 29));
    assert_eq!(last_day_of_month(date(1900, 2, 1)), date(1900, 2, 28));
    assert_eq!(last_day_of_month(date(2000, 2, 1)), date(2000, 2, 29));
    assert_eq!(last_day_of_month(date(-4, 2, 1)), date(-4, 2, 29));
    assert_eq!(last_day_of_month(date(2018, 4, 30)), date(2018, 4, 30));
    assert_eq!(last_day_of_month(date(2018, 12, 31)), date(2018, 12, 31));
    assert_eq!(last_day_of_month(date(262142, 11, 1)), date(262142, 11, 30));
}

#[test]
fn dates_must_exist() {
    assert_eq!(Date::from_ymd_opt(2018, 2, 29), None);
    assert_eq!(Date::from_ymd_opt(2018, 0, 1), None);
    assert_eq!(Date::from_ymd_opt(2018, 13, 1), None);
    assert_eq!(Date::from_ymd_opt(2018, 4, 31), None);
    assert_eq!(Date::from_ymd_opt(2018, 4, 0), None);
    assert_eq!(Date::from_ymd_opt(262143, 1, 1), None);
    assert_eq!(Date::from_ymd_opt(-262144, 12, 31), None);
    assert_eq!(
        Date::from_ymd_opt(262142, 12, 31),
        Some(Date { year: 262142, month: 12, day: 31 })
    );
    assert_eq!(
        Date::from_ymd_opt(-262143, 1, 1),
        Some(Date { year: -262143, month: 1, day: 1 })
    );
    assert!(date(2018, 1, 31).is_earlier(&date(2018, 2, 1)));
    assert!(date(2017, 12, 31).is_earlier(&date(2018, 1, 1)));
    assert!(!date(2018, 1, 1).is_earlier(&date(2018, 1, 1)));
    assert!(!date(2018, 2, 1).is_earlier(&date(2018, 1, 31)));
}

#[test]
fn total_spent_adds_prices() {
    let entries = vec![entry("tea", 75, 1), entry("rent", 1000, 2), entry("refund", -20, 3)];
    let references: Vec<&Entry> = entries.iter().collect();
    assert_eq!(total_spent(&references).ok(), Some(1055));
    assert_eq!(stats(&references).ok(), Some((1055, 3)));
    assert_eq!(total_spent(&vec![]).ok(), Some(0));
}

#[test]
fn total_spent_fails_at_the_first_overflow() {
    let entries = vec![entry("a", i32::MAX, 1), entry("b", 1, 2), entry("c", -5, 3)];
    let references: Vec<&Entry> = entries.iter().collect();
    assert!(is_overflow(&total_spent(&references).unwrap_err()));
    assert!(is_overflow(&stats(&references).unwrap_err()));
    assert!(is_overflow(&overflow()));
    let entries = vec![entry("a", i32::MAX, 1), entry("c", -5, 3), entry("b", 1, 2)];
    let references: Vec<&Entry> = entries.iter().collect();
    assert_eq!(total_spent(&references).ok(), Some(i32::MAX - 4));
}

#[test]
fn entries_are_selected_by_time() {
    let entries = vec![entry("a", 1, 10), entry("b", 2, 20), entry("c", 3, 30), entry("d", 4, 15)];
    let from = Moment { seconds: 15, nanoseconds: 0 };
    let till = Moment { seconds: 30, nanoseconds: 0 };
    let chosen = entries_in_period(&entries, &from, &till);
    let names: Vec<&str> = chosen.iter().map(|e| e.product.name.as_str()).collect();
    assert_eq!(names, vec!["b", "c", "d"]);
}

#[test]
fn the_last_category_record_of_a_product_counts() {
    let categories = vec![label("tea", "drinks"), label("rent", "home"), label("tea", "food")];
    assert_eq!(category_name(&categories, &"tea".to_string()), "food");
    assert_eq!(category_name(&categories, &"rent".to_string()), "home");
    assert_eq!(category_name(&categories, &"bus".to_string()), "bus");
}

#[test]
fn entries_are_grouped_by_category() {
    let categories = vec![label("tea", "drinks"), label("coffee", "drinks"), label("rent", "home")];
    let entries = vec![
        entry("tea", 75, 1),
        entry("bus", 30, 2),
        entry("rent", 1000, 3),
        entry("coffee", 120, 4),
        entry("bus", 30, 5),
    ];
    let references: Vec<&Entry> = entries.iter().collect();
    let groups = by_category(&categories, &references).ok().unwrap();
    let summary: Vec<(&str, i32, i32, Vec<&str>)> = groups
        .iter()
        .map(|g| {
            (
                g.category,
                g.total_spent,
                g.total_products,
                g.entries.iter().map(|e| e.product.name.as_str()).collect(),
            )
        })
        .collect();
    assert_eq!(
        summary,
        vec![
            ("home", 1000, 1, vec!["rent"]),
            ("drinks", 195, 2, vec!["tea", "coffee"]),
            ("bus", 60, 2, vec!["bus", "bus"]),
        ]
    );
}

#[test]
fn grouping_fails_when_a_category_overflows() {
    let entries = vec![
        entry("a", i32::MAX, 1),
        entry("b", -10, 2),
        entry("a", 1, 3),
    ];
    let references: Vec<&Entry> = entries.iter().collect();
    assert_eq!(total_spent(&references).ok(), Some(i32::MAX - 9));
    assert!(is_overflow(&by_category(&vec![], &references).unwrap_err()));
}

#[test]
fn report_covers_the_period() {
    let statistics = Statistics::new(
        vec![entry("tea", 75, 10), entry("rent", 1000, 20), entry("tea", 25, 30), entry("bus", 5, 40)],
        vec![label("tea", "drinks")],
    );
    let from = Moment { seconds: 10, nanoseconds: 0 };
    let till = Moment { seconds: 30, nanoseconds: 0 };
    let report = statistics.report_between(from, till).ok().unwrap().unwrap();
    assert_eq!(report.period, (from, till));
    assert_eq!(report.total_spent, 1100);
    assert_eq!(report.total_products, 3);
    assert_eq!(report.by_category.len(), 2);
    assert_eq!(report.by_category[0].category, "rent");
    assert_eq!(report.by_category[0].total_spent, 1000);
    assert_eq!(report.by_category[1].category, "drinks");
    assert_eq!(report.by_category[1].total_spent, 100);
    assert_eq!(report.by_category[1].total_products, 2);
    assert!(std::ptr::eq(report.stats, &statistics));
    assert!(statistics.now().seconds > 1_500_000_000);
}

#[test]
fn report_of_an_empty_period_is_none() {
    let statistics = Statistics::new(vec![entry("tea", 75, 10)], vec![]);
    let from = Moment { seconds: 11, nanoseconds: 0 };
    let till = Moment { seconds: 30, nanoseconds: 0 };
    assert!(statistics.report_between(from, till).ok().unwrap().is_none());
    assert!(statistics.report_between(till, from).ok().unwrap().is_none());
}

#[test]
fn report_fails_on_overflow() {
    let statistics = Statistics::new(vec![entry("a", i32::MAX, 10), entry("b", 1, 11)], vec![]);
    let from = Moment { seconds: 0, nanoseconds: 0 };
    let till = Moment { seconds: 30, nanoseconds: 0 };
    assert!(is_overflow(&statistics.report_between(from, till).unwrap_err()));
}

#[test]
fn report_titles() {
    assert_eq!(report_name(date(2018, 1, 1), date(2018, 3, 31)), "2018: январь - март");
    assert_eq!(
        report_name(date(2018, 12, 1), date(2019, 1, 31)),
        "декабрь 2018 - январь 2019"
    );
    assert_eq!(report_name(date(2018, 5, 1), date(2018, 5, 31)), "май 2018");
    assert_eq!(report_name(date(2018, 5, 1), date(2019, 5, 31)), "май 2018");
    assert_eq!(report_name(date(-44, 3, 15), date(-44, 3, 15)), "март -44");
}

const DAY: i64 = 86400;

/// Seconds from 1970-01-01 to 2018-01-01.
const YEAR_2018: i64 = 1514764800;

fn bounds(statistics: &Statistics, from: Date, to: Date) -> (i64, i64) {
    let (first, last) = statistics.period(TimePeriod::Any(from, to)).ok().unwrap();
    assert_eq!(first.nanoseconds, 0);
    assert_eq!(last.nanoseconds, 0);
    (first.seconds, last.seconds)
}

#[test]
fn days_have_their_first_and_last_second() {
    let statistics = Statistics::new(vec![], vec![]);
    assert_eq!(bounds(&statistics, date(1970, 1, 1), date(1970, 1, 1)), (0, 86399));
    assert_eq!(
        bounds(&statistics, date(1969, 12, 31), date(1970, 1, 2)),
        (-86400, DAY + 86399)
    );
    assert_eq!(
        bounds(&statistics, date(2018, 1, 1), date(2018, 3, 1)),
        (YEAR_2018, YEAR_2018 + 60 * DAY - 1)
    );
}

#[test]
fn weeks_run_from_monday_to_sunday() {
    let week = |day: Date| period_days(Some(day), TimePeriod::ThisWeek);
    assert_eq!(week(date(2018, 6, 13)), Some((date(2018, 6, 11), date(2018, 6, 17))));
    assert_eq!(week(date(2018, 6, 11)), Some((date(2018, 6, 11), date(2018, 6, 17))));
    assert_eq!(week(date(2018, 6, 17)), Some((date(2018, 6, 11), date(2018, 6, 17))));
    // The week number is taken in the calendar year of the day.
    assert_eq!(week(date(2018, 12, 31)), Some((date(2018, 1, 1), date(2018, 1, 7))));
    assert_eq!(week(date(2017, 1, 1)), Some((date(2017, 12, 25), date(2017, 12, 31))));
    assert_eq!(week(date(2016, 1, 1)), None);
}

#[test]
fn periods_are_given_in_days() {
    let today = Some(date(2018, 6, 13));
    assert_eq!(
        period_days(today, TimePeriod::Today),
        Some((date(2018, 6, 13), date(2018, 6, 13)))
    );
    assert_eq!(
        period_days(today, TimePeriod::ThisWeek),
        Some((date(2018, 6, 11), date(2018, 6, 17)))
    );
    assert_eq!(
        period_days(today, TimePeriod::ThisMonth),
        Some((date(2018, 6, 1), date(2018, 6, 30)))
    );
    assert_eq!(
        period_days(today, TimePeriod::ThisYear),
        Some((date(2018, 1, 1), date(2018, 12, 31)))
    );
    assert_eq!(
        period_days(today, TimePeriod::Any(date(2017, 2, 3), date(2019, 4, 5))),
        Some((date(2017, 2, 3), date(2019, 4, 5)))
    );
    assert_eq!(
        period_days(None, TimePeriod::Any(date(2017, 2, 3), date(2019, 4, 5))),
        Some((date(2017, 2, 3), date(2019, 4, 5)))
    );
    let no_day = Date { year: 2018, month: 2, day: 30 };
    assert_eq!(period_days(today, TimePeriod::Any(no_day, date(2019, 4, 5))), None);
    assert_eq!(period_days(today, TimePeriod::Any(date(2017, 2, 3), no_day)), None);
    assert_eq!(period_days(None, TimePeriod::Today), None);
    assert_eq!(period_days(None, TimePeriod::ThisWeek), None);
    assert_eq!(period_days(None, TimePeriod::ThisMonth), None);
    assert_eq!(period_days(None, TimePeriod::ThisYear), None);
    assert_eq!(period_days(Some(date(2016, 1, 1)), TimePeriod::ThisWeek), None);
    assert_eq!(period_days(Some(date(262142, 5, 1)), TimePeriod::ThisYear), None);
    assert_eq!(period_days(Some(date(262142, 12, 1)), TimePeriod::ThisMonth), None);
    assert_eq!(
        period_days(Some(date(262142, 11, 5)), TimePeriod::ThisMonth),
        Some((date(262142, 11, 1), date(262142, 11, 30)))
    );
}

#[test]
fn statistics_period_is_counted_from_its_clock() {
    let statistics = Statistics::new(vec![], vec![]);
    let now = statistics.now();
    let (from, till) = statistics.period(TimePeriod::Today).ok().unwrap();
    assert_eq!(from.seconds.rem_euclid(DAY), 0);
    assert_eq!(till.seconds, from.seconds + DAY - 1);
    assert!(from.is_not_after(&now));
    assert!(now.seconds <= till.seconds);
    let (month_from, month_till) = statistics.period(TimePeriod::ThisMonth).ok().unwrap();
    assert!(month_from.is_not_after(&from) && till.is_not_after(&month_till));
    assert!(month_till.seconds - month_from.seconds < 31 * DAY);
    // In the first days of January the week may belong to the year before,
    // and then the year of the day has no week of that number.
    match statistics.period(TimePeriod::ThisWeek) {
        Ok((week_from, week_till)) => {
            assert_eq!(week_till.seconds - week_from.seconds, 7 * DAY - 1)
        }
        Err(error) => assert!(matches!(error, AppError::InvalidDate)),
    }
    let (year_from, year_till) = statistics.period(TimePeriod::ThisYear).ok().unwrap();
    assert!(year_from.is_not_after(&month_from) && month_till.is_not_after(&year_till));
    assert!(year_till.seconds - year_from.seconds >= 365 * DAY - 1);
    let (from, till) = statistics
        .period(TimePeriod::Any(date(2018, 1, 1), date(2018, 1, 2)))
        .ok()
        .unwrap();
    assert_eq!(from.seconds, YEAR_2018);
    assert_eq!(till.seconds, YEAR_2018 + 2 * DAY - 1);
    let no_day = Date { year: 2018, month: 13, day: 1 };
    assert!(matches!(
        statistics.period(TimePeriod::Any(no_day, date(2018, 1, 2))),
        Err(AppError::InvalidDate)
    ));
}

fn year_2018() -> Statistics {
    Statistics::new(
        vec![
            entry("tea", 75, YEAR_2018 + 5),
            entry("rent", 1000, YEAR_2018 + 31 * DAY - 1),
            entry("bus", 30, YEAR_2018 + 59 * DAY),
            entry("tea", 25, YEAR_2018 + 60 * DAY),
            entry("late", 1, YEAR_2018 + 90 * DAY),
        ],
        vec![label("tea", "drinks")],
    )
}

#[test]
fn report_on_a_period() {
    let statistics = year_2018();
    let report = statistics
        .report(TimePeriod::Any(date(2018, 1, 1), date(2018, 3, 31)))
        .ok()
        .unwrap()
        .unwrap();
    assert_eq!(report.period.0.seconds, YEAR_2018);
    assert_eq!(report.period.1.seconds, YEAR_2018 + 90 * DAY - 1);
    assert_eq!(report.total_spent, 1130);
    assert_eq!(report.total_products, 4);
    assert!(statistics
        .report(TimePeriod::Any(date(2017, 1, 1), date(2017, 12, 31)))
        .ok()
        .unwrap()
        .is_none());
    assert!(matches!(
        statistics.report(TimePeriod::Any(Date { year: 2018, month: 0, day: 1 }, date(2018, 3, 31))),
        Err(AppError::InvalidDate)
    ));
}

#[test]
fn subreports_by_month() {
    let statistics = year_2018();
    let report = statistics
        .report(TimePeriod::Any(date(2018, 1, 1), date(2018, 3, 31)))
        .ok()
        .unwrap()
        .unwrap();
    let subreports = report.subreports().ok().unwrap().unwrap();
    let summary: Vec<(i64, i64, i32, i32)> = subreports
        .iter()
        .map(|r| (r.period.0.seconds, r.period.1.seconds, r.total_spent, r.total_products))
        .collect();
    assert_eq!(
        summary,
        vec![
            (YEAR_2018, YEAR_2018 + 31 * DAY - 1, 1075, 2),
            (YEAR_2018 + 59 * DAY, YEAR_2018 + 90 * DAY - 1, 55, 2),
        ]
    );
    assert!(std::ptr::eq(subreports[0].stats, &statistics));
}

#[test]
fn subreports_need_more_than_one_month() {
    let statistics = year_2018();
    let report = statistics
        .report(TimePeriod::Any(date(2018, 1, 1), date(2018, 1, 31)))
        .ok()
        .unwrap()
        .unwrap();
    assert!(report.subreports().ok().unwrap().is_none());
}

#[test]
fn subreports_fail_on_overflow_and_on_days_out_of_range() {
    let statistics = Statistics::new(
        vec![
            entry("a", i32::MAX, YEAR_2018),
            entry("b", 1, YEAR_2018 + 1),
            entry("c", -5, YEAR_2018 + 40 * DAY),
        ],
        vec![label("a", "x"), label("c", "x")],
    );
    let total = statistics
        .report_between(
            Moment { seconds: YEAR_2018 + 1, nanoseconds: 0 },
            Moment { seconds: YEAR_2018 + 50 * DAY, nanoseconds: 0 },
        )
        .ok()
        .unwrap()
        .unwrap();
    assert_eq!(total.total_spent, -4);
    let mut wide = total;
    wide.period.0 = Moment { seconds: YEAR_2018, nanoseconds: 0 };
    assert!(is_overflow(&wide.subreports().unwrap_err()));
    wide.period.1 = Moment { seconds: i64::MAX, nanoseconds: 0 };
    assert!(matches!(wide.subreports(), Err(AppError::InvalidDate)));
}

#[test]
fn subreports_begin_on_the_day_of_the_first_moment() {
    let statistics = year_2018();
    let mut report = statistics
        .report(TimePeriod::Any(date(2018, 1, 1), date(2018, 3, 31)))
        .ok()
        .unwrap()
        .unwrap();
    report.period.0 = Moment { seconds: YEAR_2018 + 59 * DAY - 1, nanoseconds: 999_999_999 };
    report.period.1 = Moment { seconds: YEAR_2018 + 59 * DAY, nanoseconds: 0 };
    let subreports = report.subreports().ok().unwrap().unwrap();
    let periods: Vec<(i64, i64)> =
        subreports.iter().map(|r| (r.period.0.seconds, r.period.1.seconds)).collect();
    // The last day of February has no entries; the first of March has one.
    assert_eq!(periods, vec![(YEAR_2018 + 59 * DAY, YEAR_2018 + 60 * DAY - 1)]);
    report.period.0 = Moment { seconds: YEAR_2018 + 30 * DAY, nanoseconds: 0 };
    let subreports = report.subreports().ok().unwrap().unwrap();
    let periods: Vec<(i64, i64)> =
        subreports.iter().map(|r| (r.period.0.seconds, r.period.1.seconds)).collect();
    assert_eq!(
        periods,
        vec![
            (YEAR_2018 + 30 * DAY, YEAR_2018 + 31 * DAY - 1),
            (YEAR_2018 + 59 * DAY, YEAR_2018 + 60 * DAY - 1),
        ]
    );
}
