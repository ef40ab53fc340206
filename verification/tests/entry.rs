use accounting::accounting::entry::{price_name, segment, Product};
use accounting::accounting::evaluation::{evaluate, Error};

#[test]
fn correctly_splits() {
    assert_eq!(price_name("чай 75"), Ok((" 75", "чай")));
}

#[test]
fn segment_name_first() {
    assert_eq!(segment("чай 75"), Ok((" 75", "чай")));
    assert_eq!(evaluate(segment("чай 75").unwrap().0), Ok(75));
    assert_eq!(segment("tea 75+25"), Ok((" 75+25", "tea")));
}

#[test]
fn segment_price_first() {
    assert_eq!(segment("75 чай"), Ok(("75 ", "чай")));
    assert_eq!(segment("(10+10)*3 rent"), Ok(("(10+10)*3 ", "rent")));
}

#[test]
fn segment_loses_nothing() {
    for line in ["чай 75", "75 чай", "a1", "1a", "tea 75 usd", "7 up 7"] {
        let (price, name) = segment(line).unwrap();
        let joined_one = format!("{}{}", price, name);
        let joined_two = format!("{}{}", name, price);
        assert!(joined_one == line || joined_two == line);
    }
}

#[test]
fn segment_cuts_at_the_first_change_only() {
    assert_eq!(segment("tea 75 usd"), Ok((" 75 usd", "tea")));
    assert_eq!(segment("7 up 7"), Ok(("7 ", "up 7")));
}

#[test]
fn segment_refuses_lines_of_one_class() {
    assert_eq!(segment(""), Err(Error::InvalidEntryFormat));
    assert_eq!(segment("чай"), Err(Error::InvalidEntryFormat));
    assert_eq!(segment("75"), Err(Error::InvalidEntryFormat));
    assert_eq!(segment("(10+10) * 3"), Err(Error::InvalidEntryFormat));
    assert_eq!(segment("   "), Err(Error::InvalidEntryFormat));
}

#[test]
fn segment_counts_whitespace_as_price_like() {
    assert_eq!(segment("75\t"), Err(Error::InvalidEntryFormat));
    assert_eq!(segment("\u{a0}\n75"), Err(Error::InvalidEntryFormat));
    assert_eq!(segment("75\tx"), Ok(("75\t", "x")));
    assert_eq!(segment("a\t1"), Ok(("\t1", "a")));
    assert_eq!(segment("чай\u{a0}75"), Ok(("\u{a0}75", "чай")));
    assert_eq!(segment("\u{3000}x"), Ok(("\u{3000}", "x")));
    assert_eq!(segment("x\u{200b}1"), Ok(("1", "x\u{200b}")));
}

#[test]
fn whitespace_other_than_a_space_is_no_token() {
    assert_eq!(
        Product::from_str("a\t1").unwrap_err(),
        Error::InvalidCharacter('\t')
    );
    assert_eq!(
        Product::from_str("чай\u{a0}75").unwrap_err(),
        Error::InvalidCharacter('\u{a0}')
    );
    assert_eq!(Product::from_str("a \t 1").unwrap_err(), Error::InvalidCharacter('\t'));
    assert_eq!(Product::from_str("\ta 1\n").unwrap().price, 1);
}

#[test]
fn price_name_trims_the_line() {
    assert_eq!(price_name("  чай 75 \n"), Ok((" 75", "чай")));
    assert_eq!(price_name("\t75 чай\t"), Ok(("75 ", "чай")));
    assert_eq!(price_name(" \n "), Err(Error::InvalidEntryFormat));
    assert_eq!(price_name("75\t"), Err(Error::InvalidEntryFormat));
    assert_eq!(price_name(" 75 "), Err(Error::InvalidEntryFormat));
}

#[test]
fn product_is_read_from_a_line() {
    let product = Product::from_str("чай 75+25").unwrap();
    assert_eq!(product.name, "чай");
    assert_eq!(product.price, 100);
    let product = Product::from_str(" (10+10)*3 rent ").unwrap();
    assert_eq!(product.name, "rent");
    assert_eq!(product.price, 60);
}

#[test]
fn product_errors_come_from_the_stage_that_fails() {
    assert_eq!(
        Product::from_str("чай").unwrap_err(),
        Error::InvalidEntryFormat
    );
    assert_eq!(
        Product::from_str("tea 75 usd").unwrap_err(),
        Error::InvalidCharacter('u')
    );
    assert_eq!(
        Product::from_str("tea (75").unwrap_err(),
        Error::UnbalancedParentheses
    );
    assert_eq!(
        Product::from_str("tea 75+").unwrap_err(),
        Error::MalformedExpression
    );
    assert_eq!(
        Product::from_str("tea 2147483647+1").unwrap_err(),
        Error::ArithmeticOverflow
    );
}

#[test]
fn trimming_takes_every_whitespace_character_away() {
    for code in 0..=0x10ffffu32 {
        if let Some(c) = char::from_u32(code) {
            let raw = format!("{}x 1{}", c, c);
            let whitespace = matches!(
                c,
                '\u{9}'..='\u{d}'
                    | '\u{20}'
                    | '\u{85}'
                    | '\u{a0}'
                    | '\u{1680}'
                    | '\u{2000}'..='\u{200a}'
                    | '\u{2028}'
                    | '\u{2029}'
                    | '\u{202f}'
                    | '\u{205f}'
                    | '\u{3000}'
            );
            assert_eq!(price_name(&raw) == Ok((" 1", "x")), whitespace, "U+{:04X}", code);
        }
    }
}
