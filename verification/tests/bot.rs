use accounting::accounting::evaluation::Error;
use accounting::accounting::moment::Moment;
use accounting::accounting::period::{PeriodError, TimePeriod};
use accounting::bot::category::category;
use accounting::bot::email::{not_set_up, EmailSender};
use accounting::bot::handler::{handle, help, Refusal, Request};
use accounting::bot::launcher::{is_allowed, Launches};
use accounting::bot::report::{
    month_name, month_number, parse_time_period, report, time_period_on, wrong_bot_usage,
    ReportRequest,
};
use accounting::config::Config;
use accounting::dates::Date;
use accounting::error::AppError;

fn config() -> Config {
    Config {
        data_path: "data".to_string(),
        telegram_user_id: 1,
        allowed_telegram_users: vec![1, 2],
        max_number_of_tries: 3,
        email_from: Some("me@example.org".to_string()),
        email_smtp_host: Some("smtp.example.org".to_string()),
        email_smtp_credential_username: Some("me".to_string()),
        email_smtp_credential_password: Some("secret".to_string()),
    }
}

fn missing_property(config: &Config) -> String {
    match EmailSender::from_config(config) {
        Err(AppError::EmailNotSetUp { property }) => property,
        Err(other) => panic!("unexpected error {:?}", other),
        Ok(_) => panic!("unexpected success"),
    }
}

#[test]
fn email_sender_takes_all_four_settings() {
    let sender = EmailSender::from_config(&config()).ok().unwrap();
    assert_eq!(sender.from(), "me@example.org");
    assert_eq!(sender.host(), "smtp.example.org");
    assert_eq!(sender.username(), "me");
    assert_eq!(sender.password(), "secret");
}

#[test]
fn email_sender_names_the_first_missing_setting() {
    let mut incomplete = config();
    incomplete.email_smtp_credential_password = None;
    assert_eq!(missing_property(&incomplete), "email_smtp_credential_password");
    incomplete.email_smtp_credential_username = None;
    assert_eq!(missing_property(&incomplete), "email_smtp_credential_username");
    incomplete.email_smtp_host = None;
    assert_eq!(missing_property(&incomplete), "email_smtp_host");
    incomplete.email_from = None;
    assert_eq!(missing_property(&incomplete), "email_from");
}

#[test]
fn not_set_up_names_the_property() {
    match not_set_up("email_from") {
        AppError::EmailNotSetUp { property } => assert_eq!(property, "email_from"),
        other => panic!("unexpected error {:?}", other),
    }
}

#[test]
fn help_lists_the_commands() {
    assert_eq!(help(), "/help\n/отчет");
}

#[test]
fn category_command_is_not_implemented() {
    assert!(matches!(category(), Err(AppError::NotImplementedYet)));
}

#[test]
fn handle_answers_help() {
    for data in ["help", "Help", "/help", "  /help  now", "", "   \n"] {
        assert!(matches!(handle(data), Ok(Request::Help)), "{:?}", data);
    }
}

#[test]
fn handle_reads_report_requests() {
    assert!(matches!(handle("отчет"), Ok(Request::Report(ReportRequest::Week))));
    assert!(matches!(handle("/отчет "), Ok(Request::Report(ReportRequest::Week))));
    match handle("Отчет май") {
        Ok(Request::Report(ReportRequest::Print { time_period })) => {
            assert_eq!(time_period, "май")
        }
        other => panic!("unexpected {:?}", other),
    }
    match handle("отчет \t 2018   me@example.org") {
        Ok(Request::Report(ReportRequest::Send { time_period, email })) => {
            assert_eq!(time_period, "2018");
            assert_eq!(email, "me@example.org");
        }
        other => panic!("unexpected {:?}", other),
    }
    match handle("отчет 2018 me@example.org more") {
        Err(Refusal::Command(AppError::BotUsage { reason })) => {
            assert_eq!(reason, "ожидается два аргумента")
        }
        other => panic!("unexpected {:?}", other),
    }
}

#[test]
fn handle_refuses_the_category_command() {
    assert!(matches!(
        handle("Кат чай напитки"),
        Err(Refusal::Command(AppError::NotImplementedYet))
    ));
    assert!(matches!(
        handle("кат"),
        Err(Refusal::Command(AppError::NotImplementedYet))
    ));
}

#[test]
fn handle_books_everything_else() {
    match handle("чай 75+25") {
        Ok(Request::Entry(product)) => {
            assert_eq!(product.name, "чай");
            assert_eq!(product.price, 100);
        }
        other => panic!("unexpected {:?}", other),
    }
    match handle("helper 5") {
        Ok(Request::Entry(product)) => {
            assert_eq!(product.name, "helper");
            assert_eq!(product.price, 5);
        }
        other => panic!("unexpected {:?}", other),
    }
    assert!(matches!(
        handle("чай"),
        Err(Refusal::Entry(Error::InvalidEntryFormat))
    ));
    assert!(matches!(
        handle("чай 1/0"),
        Err(Refusal::Entry(Error::ArithmeticOverflow))
    ));
}

#[test]
fn report_counts_its_words() {
    assert!(matches!(report(None, None, None), Ok(ReportRequest::Week)));
    match report(Some("май"), None, None) {
        Ok(ReportRequest::Print { time_period }) => assert_eq!(time_period, "май"),
        other => panic!("unexpected {:?}", other),
    }
    match report(Some("май"), None, Some("x")) {
        Ok(ReportRequest::Print { time_period }) => assert_eq!(time_period, "май"),
        other => panic!("unexpected {:?}", other),
    }
    match report(Some("май"), Some("a@b"), None) {
        Ok(ReportRequest::Send { time_period, email }) => {
            assert_eq!(time_period, "май");
            assert_eq!(email, "a@b");
        }
        other => panic!("unexpected {:?}", other),
    }
    assert!(matches!(
        report(Some("май"), Some("a@b"), Some("c")),
        Err(AppError::BotUsage { .. })
    ));
    match wrong_bot_usage() {
        AppError::BotUsage { reason } => assert_eq!(reason, "ожидается два аргумента"),
        other => panic!("unexpected {:?}", other),
    }
}

#[test]
fn months_have_their_names() {
    let names = [
        "январь", "февраль", "март", "апрель", "май", "июнь", "июль", "август", "сентябрь",
        "октябрь", "ноябрь", "декабрь",
    ];
    for (index, name) in names.iter().enumerate() {
        let month = index as u32 + 1;
        assert_eq!(month_name(month), *name);
        assert_eq!(month_number(name), Some(month));
    }
    assert_eq!(month_number("May"), None);
    assert_eq!(month_number(""), None);
    assert_eq!(month_number("май "), None);
}

fn day(year: i32, month: u32, day: u32) -> Date {
    Date::from_ymd_opt(year, month, day).unwrap()
}

fn whole_year(year: i32) -> TimePeriod {
    TimePeriod::Any(day(year, 1, 1), day(year, 12, 31))
}

#[test]
fn time_period_of_a_report_request() {
    let today = Some(day(2020, 6, 15));
    assert_eq!(
        time_period_on(today, "март"),
        Ok(TimePeriod::Any(day(2020, 3, 1), day(2020, 3, 31)))
    );
    assert_eq!(
        time_period_on(today, "февраль"),
        Ok(TimePeriod::Any(day(2020, 2, 1), day(2020, 2, 29)))
    );
    assert_eq!(
        time_period_on(Some(day(2019, 1, 1)), "февраль"),
        Ok(TimePeriod::Any(day(2019, 2, 1), day(2019, 2, 28)))
    );
    assert_eq!(
        time_period_on(today, "декабрь"),
        Ok(TimePeriod::Any(day(2020, 12, 1), day(2020, 12, 31)))
    );
    assert_eq!(time_period_on(today, "2018"), Ok(whole_year(2018)));
    assert_eq!(time_period_on(None, "2018"), Ok(whole_year(2018)));
    assert_eq!(time_period_on(None, "март"), Err(PeriodError::InvalidDate));
    assert_eq!(
        time_period_on(Some(day(262142, 1, 1)), "декабрь"),
        Err(PeriodError::InvalidDate)
    );
    assert_eq!(
        time_period_on(Some(day(262142, 1, 1)), "ноябрь"),
        Ok(TimePeriod::Any(day(262142, 11, 1), day(262142, 11, 30)))
    );
    assert_eq!(time_period_on(today, "week"), Err(PeriodError::InvalidYear));
    assert_eq!(time_period_on(today, "2147483648"), Err(PeriodError::InvalidYear));
    assert_eq!(time_period_on(today, "262142"), Err(PeriodError::InvalidDate));
    assert_eq!(time_period_on(today, "-262144"), Err(PeriodError::InvalidDate));
}

#[test]
fn time_period_of_a_report_request_now() {
    assert_eq!(parse_time_period("2018"), Ok(whole_year(2018)));
    assert_eq!(parse_time_period("-5"), Ok(whole_year(-5)));
    assert_eq!(parse_time_period("x"), Err(PeriodError::InvalidYear));
    match parse_time_period("март") {
        Ok(TimePeriod::Any(from, to)) => {
            assert!(from.year > 2017);
            assert_eq!((from.month, from.day), (3, 1));
            assert_eq!((to.year, to.month, to.day), (from.year, 3, 31));
        }
        other => panic!("unexpected {:?}", other),
    }
}

#[test]
fn time_period_names() {
    assert_eq!(TimePeriod::from_str("day"), Ok(TimePeriod::Today));
    assert_eq!(TimePeriod::from_str("week"), Ok(TimePeriod::ThisWeek));
    assert_eq!(TimePeriod::from_str("month"), Ok(TimePeriod::ThisMonth));
    assert_eq!(TimePeriod::from_str("year"), Ok(TimePeriod::ThisYear));
    assert_eq!(TimePeriod::from_str("year-2018"), Ok(whole_year(2018)));
    assert_eq!(TimePeriod::from_str("year-2018-05"), Ok(whole_year(2018)));
    assert_eq!(TimePeriod::from_str("year--3"), Err(PeriodError::InvalidYear));
    assert_eq!(TimePeriod::from_str("year-+7"), Ok(whole_year(7)));
    assert_eq!(TimePeriod::from_str("year-"), Err(PeriodError::InvalidYear));
    assert_eq!(TimePeriod::from_str("year-x"), Err(PeriodError::InvalidYear));
    assert_eq!(TimePeriod::from_str("year-262142"), Err(PeriodError::InvalidDate));
    assert_eq!(TimePeriod::from_str("year-262141"), Ok(whole_year(262141)));
    assert_eq!(TimePeriod::from_str("year-0"), Ok(whole_year(0)));
    assert_eq!(TimePeriod::from_str("year-2147483648"), Err(PeriodError::InvalidYear));
    assert_eq!(TimePeriod::from_str("day-1"), Err(PeriodError::InvalidEnumVariant));
    assert_eq!(TimePeriod::from_str("Day"), Err(PeriodError::InvalidEnumVariant));
    assert_eq!(TimePeriod::from_str(""), Err(PeriodError::InvalidEnumVariant));
    assert_eq!(TimePeriod::from_str("-"), Err(PeriodError::InvalidEnumVariant));
}

fn at(seconds: i64, nanoseconds: u32) -> Moment {
    Moment { seconds, nanoseconds }
}

#[test]
fn launches_in_quick_succession_are_limited() {
    let mut launches = Launches::new(&config(), at(100, 0));
    assert_eq!(launches.number_of_tries, 0);
    assert_eq!(launches.max_number_of_tries, 3);
    assert!(launches.start(at(100, 5)).is_ok());
    assert_eq!(launches.number_of_tries, 1);
    assert!(launches.start(at(105, 0)).is_ok());
    assert_eq!(launches.number_of_tries, 2);
    assert!(matches!(
        launches.start(at(110, 999_999_999)),
        Err(AppError::NumberOfLauchesExeeded)
    ));
    assert_eq!(launches.number_of_tries, 3);
    assert_eq!(launches.latest_start, at(100, 0));
}

#[test]
fn launches_count_again_after_a_rest() {
    let mut launches = Launches::new(&config(), at(100, 500));
    assert!(launches.start(at(101, 0)).is_ok());
    assert!(launches.start(at(102, 0)).is_ok());
    assert!(launches.start(at(111, 499)).is_err());
    assert_eq!(launches.latest_start, at(100, 500));
    assert!(launches.start(at(111, 500)).is_ok());
    assert_eq!(launches.number_of_tries, 1);
    assert_eq!(launches.latest_start, at(111, 500));
    assert!(launches.start(at(50, 0)).is_ok());
    assert_eq!(launches.number_of_tries, 2);
}

#[test]
fn only_listed_users_are_allowed() {
    assert!(is_allowed(&vec![1, 2, 3], 2));
    assert!(!is_allowed(&vec![1, 2, 3], 4));
    assert!(!is_allowed(&vec![], 0));
}
