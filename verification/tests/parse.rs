use remparse::{parse, Date, Duration, Month, Time};

#[test]
fn parse_rem() {
    let data = "REM Mar 30 2018 AT 19:00 DURATION 1:15 MSG Event name";
    let entries = parse(data);
    assert_eq!(entries[0].date, Date { day: 30, month: Month::March, year: 2018 });
    assert_eq!(entries[0].duration, Duration::from_secs(75 * 60));
    assert_eq!(entries[0].msg, "Event name".to_string());
    assert_eq!(entries[0].time, Time { hour: 19, minute: 0 });

    let data = "REM Mar 30 2018 AT 19:00 DURATION 1:15 MSG Event name
        REM Apr 9 2018 AT 12:50 DURATION 0:15 MSG Super Event";
    let entries = parse(data);
    assert_eq!(entries[0].date, Date { day: 30, month: Month::March, year: 2018 });
    assert_eq!(entries[0].duration, Duration::from_secs(75 * 60));
    assert_eq!(entries[0].msg, "Event name".to_string());
    assert_eq!(entries[0].time, Time { hour: 19, minute: 0 });
    assert_eq!(entries[1].date, Date { day: 9, month: Month::April, year: 2018 });
    assert_eq!(entries[1].duration, Duration::from_secs(15 * 60));
    assert_eq!(entries[1].msg, "Super Event".to_string());
    assert_eq!(entries[1].time, Time { hour: 12, minute: 50 });
}

#[test]
fn multi_line_ordering() {
    let data = "REM Mar 30 2018 AT 19:00 DURATION 1:15 MSG Event name\nREM Apr 9 2018 AT 12:50 DURATION 0:15 MSG Super Event";
    let entries = parse(data);
    assert_eq!(entries.len(), 2);
    assert_eq!(entries[0].date, Date { day: 30, month: Month::March, year: 2018 });
    assert_eq!(entries[1].date, Date { day: 9, month: Month::April, year: 2018 });
    assert_eq!(entries[1].time, Time { hour: 12, minute: 50 });
    assert_eq!(entries[1].duration, Duration::from_secs(15 * 60));
    assert_eq!(entries[1].msg, "Super Event".to_string());
}

#[test]
fn malformed_line_skipped() {
    let data = "REM Mar 30 2018 AT 19:00 DURATION 1:15 MSG Event name\nREM Mar 1 2020 AT 10:00 DURATION 1:00";
    let entries = parse(data);
    assert_eq!(entries.len(), 1);
    assert_eq!(entries[0].msg, "Event name".to_string());
}

#[test]
fn message_whitespace_collapsed() {
    let entries = parse("REM Mar 30 2018 AT 19:00 DURATION 1:15 MSG Event     name");
    assert_eq!(entries.len(), 1);
    assert_eq!(entries[0].msg, "Event name".to_string());

    let entries = parse("REM Mar 30 2018 AT 19:00 DURATION 1:15 MSG a \t b\t\tc");
    assert_eq!(entries[0].msg, "a b c".to_string());
}

#[test]
fn keywords_case_insensitive() {
    let lower = parse("rem mar 30 2018 at 19:00 duration 1:15 msg Event name");
    let upper = parse("REM MAR 30 2018 AT 19:00 DURATION 1:15 MSG Event name");
    let mixed = parse("Rem Mar 30 2018 At 19:00 Duration 1:15 Msg Event name");
    assert_eq!(lower.len(), 1);
    assert_eq!(lower, upper);
    assert_eq!(lower, mixed);
    assert_eq!(lower[0].date.month, Month::March);
}

#[test]
fn message_case_preserved() {
    let entries = parse("rem mar 30 2018 at 19:00 duration 1:15 msg MiXeD CaSe");
    assert_eq!(entries[0].msg, "MiXeD CaSe".to_string());
}

#[test]
fn unknown_month_fails_line() {
    let entries = parse("REM Xyz 1 2020 AT 10:00 DURATION 1:00 MSG x");
    assert_eq!(entries.len(), 0);
}

#[test]
fn empty_message_is_valid() {
    let entries = parse("REM Mar 30 2018 AT 19:00 DURATION 1:15 MSG");
    assert_eq!(entries.len(), 1);
    assert_eq!(entries[0].msg, "".to_string());
}

#[test]
fn parse_twice_equal() {
    let data = "REM Mar 30 2018 AT 19:00 DURATION 1:15 MSG Event name\nREM Apr 9 2018 AT 12:50 DURATION 0:15 MSG Super Event";
    let first = parse(data);
    let second = parse(data);
    assert_eq!(first, second);
}

#[test]
fn all_months_parse() {
    let months = [
        ("jan", Month::January),
        ("feb", Month::February),
        ("mar", Month::March),
        ("apr", Month::April),
        ("may", Month::May),
        ("jun", Month::June),
        ("jul", Month::July),
        ("aug", Month::August),
        ("sep", Month::September),
        ("oct", Month::October),
        ("nov", Month::November),
        ("dec", Month::December),
    ];
    for (name, month) in months {
        let line = format!("REM {} 1 2020 AT 0:00 DURATION 0:01 MSG x", name);
        let entries = parse(&line);
        assert_eq!(entries.len(), 1);
        assert_eq!(entries[0].date.month, month);
    }
}

#[test]
fn empty_and_blank_input() {
    assert_eq!(parse("").len(), 0);
    assert_eq!(parse("\n\n\n").len(), 0);
    assert_eq!(parse("   \n\t\n").len(), 0);
}

#[test]
fn crlf_line_endings() {
    let data = "REM Mar 30 2018 AT 19:00 DURATION 1:15 MSG a\r\nREM Apr 9 2018 AT 12:50 DURATION 0:15 MSG b\r\n";
    let entries = parse(data);
    assert_eq!(entries.len(), 2);
    assert_eq!(entries[0].msg, "a".to_string());
    assert_eq!(entries[1].msg, "b".to_string());
}

#[test]
fn day_and_year_keep_low_bits() {
    // The day and year fields are 8 and 16 bits wide; a larger number on the
    // line keeps its low bits, as a hardware-width cast does.
    let entries = parse("REM Mar 300 2018 AT 19:00 DURATION 1:15 MSG x");
    assert_eq!(entries.len(), 1);
    assert_eq!(entries[0].date.day, 44);

    let entries = parse("REM Mar 30 70000 AT 19:00 DURATION 1:15 MSG x");
    assert_eq!(entries.len(), 1);
    assert_eq!(entries[0].date.year, 4464);
}

#[test]
fn day_over_u32_fails_line() {
    let entries = parse("REM Mar 4294967296 2018 AT 19:00 DURATION 1:15 MSG x");
    assert_eq!(entries.len(), 0);
}

#[test]
fn plus_sign_accepted_in_numbers() {
    let entries = parse("REM Mar +30 2018 AT 19:00 DURATION 1:15 MSG x");
    assert_eq!(entries.len(), 1);
    assert_eq!(entries[0].date.day, 30);
}

#[test]
fn hour_over_u8_fails_line() {
    let entries = parse("REM Mar 30 2018 AT 300:00 DURATION 1:15 MSG x");
    assert_eq!(entries.len(), 0);
}

#[test]
fn time_without_colon_fails_line() {
    let entries = parse("REM Mar 30 2018 AT 1900 DURATION 1:15 MSG x");
    assert_eq!(entries.len(), 0);
}

#[test]
fn extra_colon_parts_ignored() {
    let entries = parse("REM Mar 30 2018 AT 19:00 DURATION 1:15:59 MSG x");
    assert_eq!(entries.len(), 1);
    assert_eq!(entries[0].duration, Duration::from_secs(75 * 60));
}

#[test]
fn unusual_hours_accepted() {
    // No range validation beyond the field width: hour 99 is fine.
    let entries = parse("REM Mar 30 2018 AT 99:00 DURATION 1:15 MSG x");
    assert_eq!(entries.len(), 1);
    assert_eq!(entries[0].time, Time { hour: 99, minute: 0 });
}

#[test]
fn unicode_whitespace_separates_words() {
    let entries = parse("REM\u{00A0}Mar 30 2018 AT\u{2003}19:00 DURATION 1:15 MSG x");
    assert_eq!(entries.len(), 1);
    assert_eq!(entries[0].time, Time { hour: 19, minute: 0 });
}

#[test]
fn line_not_starting_with_rem_skipped() {
    let data = "remember nothing\nREM Mar 30 2018 AT 19:00 DURATION 1:15 MSG x\n# comment";
    let entries = parse(data);
    assert_eq!(entries.len(), 1);
}
