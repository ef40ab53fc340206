use accounting::accounting::category::Category;
use accounting::accounting::entry::{Entry, Product};
use accounting::accounting::id::{CategoryId, EntryId, SmsId, UserId};
use accounting::accounting::moment::Moment;
use accounting::accounting::sms::{latest_time, NewSms, Sms};
use accounting::accounting::tag::Tags;
use accounting::accounting::user::{AndroidAuth, TelegramId, User};
use accounting::web::android_adapter::new_sms;
use accounting::web::android_adapter::Sms as ClientSms;

fn is_hyphenated_uuid(text: &str) -> bool {
    text.len() == 36
        && text.char_indices().all(|(index, c)| match index {
            8 | 13 | 18 | 23 => c == '-',
            _ => c.is_ascii_hexdigit() && !c.is_ascii_uppercase(),
        })
}

#[test]
fn generated_identifiers_are_fresh_uuids() {
    let first = UserId::generate();
    let second = UserId::generate();
    assert!(is_hyphenated_uuid(&first.0));
    assert!(is_hyphenated_uuid(&second.0));
    assert_ne!(first, second);
    assert!(is_hyphenated_uuid(&CategoryId::generate().0));
    assert!(is_hyphenated_uuid(&EntryId::generate().0));
    assert!(is_hyphenated_uuid(&SmsId::generate().0));
}

#[test]
fn identifiers_keep_their_text() {
    assert_eq!(UserId::new("abc".to_string()).0, "abc");
    assert_eq!(CategoryId::new("c".to_string()).0, "c");
    assert_eq!(EntryId::new("e".to_string()).0, "e");
    assert_eq!(SmsId::new("s".to_string()).0, "s");
    let id = UserId::new("abc".to_string());
    assert!(id.same(&UserId::new("abc".to_string())));
    assert!(!id.same(&UserId::new("abd".to_string())));
    assert_eq!(id.duplicate(), id);
}

#[test]
fn category_new_keeps_its_arguments() {
    let category = Category::new(
        UserId::new("u".to_string()),
        "tea".to_string(),
        "drinks".to_string(),
    );
    assert_eq!(category.user_id, UserId::new("u".to_string()));
    assert_eq!(category.product, "tea");
    assert_eq!(category.category, "drinks");
    assert!(is_hyphenated_uuid(&category.id.0));
}

#[test]
fn tags_empty_has_no_tags() {
    assert!(Tags::empty().tags.is_empty());
}

#[test]
fn entry_new_keeps_user_and_product() {
    let clock = std::time::SystemTime::now()
        .duration_since(std::time::UNIX_EPOCH)
        .unwrap()
        .as_secs() as i64;
    let entry = Entry::new(
        UserId::new("u".to_string()),
        Product { name: "tea".to_string(), price: 75 },
    );
    assert_eq!(entry.user_id.0, "u");
    assert_eq!(entry.product.name, "tea");
    assert_eq!(entry.product.price, 75);
    assert!(entry.tags.tags.is_empty());
    assert!(is_hyphenated_uuid(&entry.id.0));
    // Local time lies within a day of the time of the world clock.
    assert!((entry.time.seconds - clock).abs() < 2 * 86400);
    assert!(entry.time.nanoseconds < 2_000_000_000);
}

#[test]
fn moments_are_ordered_by_seconds_then_nanoseconds() {
    let early = Moment { seconds: 10, nanoseconds: 999 };
    let late = Moment { seconds: 11, nanoseconds: 0 };
    let later = Moment { seconds: 11, nanoseconds: 1 };
    assert!(early.is_not_after(&late));
    assert!(!late.is_not_after(&early));
    assert!(late.is_not_after(&late));
    assert!(late.is_not_after(&later));
    assert!(!later.is_not_after(&late));
    assert!(late.is_within(&early, &later));
    assert!(early.is_within(&early, &later));
    assert!(later.is_within(&early, &later));
    assert!(!later.is_within(&early, &late));
    assert!(!early.is_within(&late, &later));
}

#[test]
fn user_with_telegram_id() {
    let user = User::with_telegram_id(TelegramId(42));
    assert_eq!(user.telegram_id, Some(TelegramId(42)));
    assert!(user.offset.is_none());
    assert!(user.android_auth_token.is_none());
    assert!(is_hyphenated_uuid(&user.id.0));
    assert!(user.has_telegram_id(TelegramId(42)));
    assert!(!user.has_telegram_id(TelegramId(43)));
    assert!(!user.has_android_token("secret"));
}

#[test]
fn user_android_token() {
    let mut user = User::with_telegram_id(TelegramId(1));
    user.android_auth_token = Some(AndroidAuth("secret".to_string()));
    user.telegram_id = None;
    assert!(user.has_android_token("secret"));
    assert!(!user.has_android_token("Secret"));
    assert!(!user.has_android_token(""));
    assert!(!user.has_telegram_id(TelegramId(1)));
}

fn message(seconds: i64, nanoseconds: u32) -> Sms {
    Sms {
        id: SmsId::new("s".to_string()),
        user: UserId::new("u".to_string()),
        from: "bank".to_string(),
        text: "paid".to_string(),
        time: Moment { seconds, nanoseconds },
    }
}

#[test]
fn latest_time_is_the_maximum() {
    assert_eq!(latest_time(&vec![]), None);
    assert_eq!(
        latest_time(&vec![message(5, 0)]),
        Some(Moment { seconds: 5, nanoseconds: 0 })
    );
    assert_eq!(
        latest_time(&vec![message(5, 0), message(9, 1), message(9, 0), message(-3, 7)]),
        Some(Moment { seconds: 9, nanoseconds: 1 })
    );
}

#[test]
fn new_sms_gets_an_identifier() {
    let new = NewSms {
        user: UserId::new("u".to_string()),
        from: "bank".to_string(),
        text: "paid".to_string(),
        time: Moment { seconds: 7, nanoseconds: 0 },
    };
    let sms = new.into_sms();
    assert_eq!(sms.user.0, "u");
    assert_eq!(sms.from, "bank");
    assert_eq!(sms.text, "paid");
    assert_eq!(sms.time, Moment { seconds: 7, nanoseconds: 0 });
    assert!(is_hyphenated_uuid(&sms.id.0));
}

fn client_sms(time: &str) -> ClientSms {
    ClientSms { time: time.to_string(), from: "bank".to_string(), text: "paid 75".to_string() }
}

#[test]
fn client_sms_time_is_cut_to_seconds() {
    let user = UserId::new("u".to_string());
    let sms = new_sms(&user, client_sms("1530000000999")).unwrap();
    assert_eq!(sms.time, Moment { seconds: 1530000000, nanoseconds: 0 });
    assert_eq!(sms.user, user);
    assert_eq!(sms.from, "bank");
    assert_eq!(sms.text, "paid 75");
    assert_eq!(new_sms(&user, client_sms("-1500")).unwrap().time.seconds, -1);
    assert_eq!(new_sms(&user, client_sms("+999")).unwrap().time.seconds, 0);
    assert_eq!(new_sms(&user, client_sms("-0")).unwrap().time.seconds, 0);
    assert_eq!(
        new_sms(&user, client_sms("9223372036854775807")).unwrap().time.seconds,
        9223372036854775
    );
    assert_eq!(
        new_sms(&user, client_sms("-9223372036854775808")).unwrap().time.seconds,
        -9223372036854775
    );
}

#[test]
fn client_sms_time_must_be_an_integer() {
    let user = UserId::new("u".to_string());
    for time in ["", "+", "-", "12a", " 12", "12 ", "1_000", "9223372036854775808", "1.5", "١٢"] {
        assert!(new_sms(&user, client_sms(time)).is_none(), "{:?}", time);
    }
}
