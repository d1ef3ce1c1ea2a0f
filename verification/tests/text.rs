use marchive::text::{
    chars_of, decimal_string, find_char, list_names, name_position, owned, parse_number,
    same_text, substring, IntErrorKind,
};

#[test]
fn parse_number_reads_plain_digits() {
    assert_eq!(parse_number("0", 255), Ok(0));
    assert_eq!(parse_number("255", 255), Ok(255));
    assert_eq!(parse_number("007", 255), Ok(7));
    assert_eq!(parse_number("18446744073709551615", u64::MAX), Ok(u64::MAX));
}

#[test]
fn parse_number_takes_a_plus_sign() {
    assert_eq!(parse_number("+12", 255), Ok(12));
    assert_eq!(parse_number("+", 255), Err(IntErrorKind::InvalidDigit));
    assert_eq!(parse_number("++1", 255), Err(IntErrorKind::InvalidDigit));
    assert_eq!(parse_number("-1", 255), Err(IntErrorKind::InvalidDigit));
}

#[test]
fn parse_number_reports_the_first_fault() {
    assert_eq!(parse_number("", 255), Err(IntErrorKind::Empty));
    assert_eq!(parse_number("256", 255), Err(IntErrorKind::PosOverflow));
    assert_eq!(parse_number("25x", 255), Err(IntErrorKind::InvalidDigit));
    assert_eq!(parse_number("2567x", 255), Err(IntErrorKind::PosOverflow));
    assert_eq!(parse_number("1 ", 255), Err(IntErrorKind::InvalidDigit));
    assert_eq!(parse_number("18446744073709551616", u64::MAX), Err(IntErrorKind::PosOverflow));
    assert_eq!(parse_number("4", 3), Err(IntErrorKind::PosOverflow));
}

#[test]
fn parse_number_agrees_with_std() {
    for text in ["0", "9", "10", "+0", "00", "4294967295", "4294967296", "", "+", "x", "1x", " 1"] {
        let expected = text.parse::<u32>().ok().map(|n| n as u64);
        assert_eq!(parse_number(text, u32::MAX as u64).ok(), expected, "{text:?}");
    }
}

#[test]
fn decimal_string_writes_digits() {
    assert_eq!(decimal_string(0), "0");
    assert_eq!(decimal_string(7), "7");
    assert_eq!(decimal_string(10), "10");
    assert_eq!(decimal_string(4096), "4096");
    assert_eq!(decimal_string(u64::MAX), "18446744073709551615");
}

#[test]
fn chars_and_strings_go_both_ways() {
    assert_eq!(chars_of("a/é"), vec!['a', '/', 'é']);
    assert_eq!(owned("häuser"), "häuser");
    assert_eq!(substring(&chars_of("subtask.12"), 8, 10), "12");
    assert_eq!(substring(&chars_of("abc"), 1, 1), "");
}

#[test]
fn find_char_finds_the_first() {
    let text = chars_of("a,b,c");
    assert_eq!(find_char(&text, 0, ','), 1);
    assert_eq!(find_char(&text, 2, ','), 3);
    assert_eq!(find_char(&text, 4, ','), 5);
    assert_eq!(find_char(&text, 5, ','), 5);
}

#[test]
fn names_are_compared_by_their_text() {
    assert!(same_text("pod", "pod"));
    assert!(!same_text("pod", "pods"));
    assert!(!same_text("pod", "pob"));
    assert!(same_text("", ""));
    let list = vec!["migrate".to_string(), "purge".to_string()];
    assert!(list_names(&list, &"purge".to_string()));
    assert!(!list_names(&list, &"purg".to_string()));
    assert_eq!(name_position(&list, "migrate"), 0);
    assert_eq!(name_position(&list, "purge"), 1);
    assert_eq!(name_position(&list, "stage"), 2);
}
