use remparse::{Date, Month, Parser, Time};

#[test]
fn next_word_walks_the_line() {
    let mut p = Parser::new("  one   two\tthree ");
    assert_eq!(p.next_word(), Some("one"));
    assert_eq!(p.next_word(), Some("two"));
    assert_eq!(p.next_word(), Some("three"));
    assert_eq!(p.next_word(), None);
    assert_eq!(p.next_word(), None);
}

#[test]
fn ident_matches_case_insensitively() {
    let mut p = Parser::new("rem rest");
    assert!(p.ident("REM").is_ok());

    let mut p = Parser::new("DuRaTiOn");
    assert!(p.ident("DURATION").is_ok());

    let mut p = Parser::new("other");
    let e = p.ident("REM");
    assert_eq!(e, Err("Expecting REM at beginning of line".to_string()));

    // The mismatch message always names REM, whichever keyword was expected.
    let mut p = Parser::new("other");
    let e = p.ident("AT");
    assert_eq!(e, Err("Expecting REM at beginning of line".to_string()));

    let mut p = Parser::new("");
    assert!(p.ident("REM").is_err());
}

#[test]
fn num_reads_base_ten() {
    let mut p = Parser::new("42");
    assert_eq!(p.num(), Ok(42));

    let mut p = Parser::new("4294967295");
    assert_eq!(p.num(), Ok(u32::MAX));

    let mut p = Parser::new("4294967296");
    assert_eq!(p.num(), Err("number too large to fit in target type".to_string()));

    let mut p = Parser::new("12a");
    assert_eq!(p.num(), Err("invalid digit found in string".to_string()));

    let mut p = Parser::new("-3");
    assert_eq!(p.num(), Err("invalid digit found in string".to_string()));

    let mut p = Parser::new("");
    assert_eq!(p.num(), Err("Expecting day of month, found end of line".to_string()));
}

#[test]
fn time_error_texts_follow_the_hour_first_order() {
    // The hour digits are parsed before the minute part is looked for.
    let mut p = Parser::new("1900");
    assert_eq!(p.time_num(), Err("number too large to fit in target type".to_string()));

    let mut p = Parser::new("19");
    assert_eq!(p.time_num(), Err("Expecting hour, found end of line".to_string()));

    let mut p = Parser::new("abc");
    assert_eq!(p.time_num(), Err("invalid digit found in string".to_string()));

    let mut p = Parser::new(":08");
    assert_eq!(p.time_num(), Err("cannot parse integer from empty string".to_string()));

    let mut p = Parser::new("7:");
    assert_eq!(p.time_num(), Err("cannot parse integer from empty string".to_string()));

    let mut p = Parser::new("7:xx");
    assert_eq!(p.time_num(), Err("invalid digit found in string".to_string()));

    let mut p = Parser::new("7:300");
    assert_eq!(p.time_num(), Err("number too large to fit in target type".to_string()));

    let mut p = Parser::new("");
    assert_eq!(p.time_num(), Err("Expecting time, found end of line".to_string()));
}

#[test]
fn date_error_texts() {
    let mut p = Parser::new("");
    assert_eq!(p.date(), Err("Expecting date, found end of line".to_string()));

    let mut p = Parser::new("Foo 25 2021");
    assert_eq!(p.date(), Err("Invalid month Foo".to_string()));

    let mut p = Parser::new("Dec");
    assert_eq!(p.date(), Err("Expecting day of month, found end of line".to_string()));

    // The same message names the day of month when the year is missing.
    let mut p = Parser::new("Dec 25");
    assert_eq!(p.date(), Err("Expecting day of month, found end of line".to_string()));

    let mut p = Parser::new("Dec twenty 2021");
    assert_eq!(p.date(), Err("invalid digit found in string".to_string()));

    let mut p = Parser::new("Dec 99999999999 2021");
    assert_eq!(p.date(), Err("number too large to fit in target type".to_string()));
}

#[test]
fn date_reads_month_day_year() {
    let mut p = Parser::new("Dec 25 2021");
    assert_eq!(p.date(), Ok(Date { day: 25, month: Month::December, year: 2021 }));

    let mut p = Parser::new("Foo 25 2021");
    assert!(p.date().is_err());

    let mut p = Parser::new("Dec twenty 2021");
    assert!(p.date().is_err());

    let mut p = Parser::new("Dec 25");
    assert!(p.date().is_err());
}

#[test]
fn time_reads_at_and_literal() {
    let mut p = Parser::new("AT 7:08");
    assert_eq!(p.time(), Ok(Time { hour: 7, minute: 8 }));

    let mut p = Parser::new("AT 7");
    assert!(p.time().is_err());

    let mut p = Parser::new("7:08");
    assert!(p.time().is_err());

    let mut p = Parser::new("AT :08");
    assert!(p.time().is_err());

    let mut p = Parser::new("AT 7:");
    assert!(p.time().is_err());
}

#[test]
fn duration_converts_to_seconds() {
    let mut p = Parser::new("DURATION 2:05");
    let d = p.duration().expect("duration");
    assert_eq!(d.as_secs(), 2 * 3600 + 5 * 60);

    let mut p = Parser::new("DURATION 0:00");
    let d = p.duration().expect("duration");
    assert_eq!(d.as_secs(), 0);

    // The widest literal the fields admit still fits the span.
    let mut p = Parser::new("DURATION 255:255");
    let d = p.duration().expect("duration");
    assert_eq!(d.as_secs(), 255 * 3600 + 255 * 60);
}

#[test]
fn message_joins_remaining_words() {
    let mut p = Parser::new("MSG  hello   world ");
    assert_eq!(p.message(), Ok("hello world".to_string()));

    let mut p = Parser::new("MSG");
    assert_eq!(p.message(), Ok("".to_string()));

    let mut p = Parser::new("note hello");
    assert_eq!(p.message(), Err("Expecting REM at beginning of line".to_string()));
}

#[test]
fn entry_reads_the_whole_line() {
    let mut p = Parser::new("REM Mar 30 2018 AT 19:00 DURATION 1:15 MSG Event name");
    let e = p.entry().expect("entry");
    assert_eq!(e.date, Date { day: 30, month: Month::March, year: 2018 });
    assert_eq!(e.time, Time { hour: 19, minute: 0 });
    assert_eq!(e.duration.as_secs(), 75 * 60);
    assert_eq!(e.msg, "Event name".to_string());

    // The first failing rule's message comes back unchanged.
    let mut p = Parser::new("REM Mar 30 2018 AT 19:00 DURATION 1:15");
    assert_eq!(p.entry().unwrap_err(), "Expecting REM at beginning of line".to_string());

    let mut p = Parser::new("REM Mar 99999999999 2018 AT 19:00 DURATION 1:15 MSG x");
    assert_eq!(p.entry().unwrap_err(), "number too large to fit in target type".to_string());

    let mut p = Parser::new("REM Xyz 30 2018 AT 19:00 DURATION 1:15 MSG x");
    assert_eq!(p.entry().unwrap_err(), "Invalid month Xyz".to_string());
}
