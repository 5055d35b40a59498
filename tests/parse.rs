use connectz::parse::{moves_from_lines, parse_number, parse_numbers};

#[test]
fn numbers_in_decimal() {
    assert_eq!(parse_number("0"), Some(0));
    assert_eq!(parse_number("42"), Some(42));
    assert_eq!(parse_number("+7"), Some(7));
    assert_eq!(parse_number("007"), Some(7));
    assert_eq!(parse_number("4294967295"), Some(u32::MAX));
    assert_eq!(parse_number("4294967296"), None);
    assert_eq!(parse_number("99999999999999999999"), None);
    assert_eq!(parse_number(""), None);
    assert_eq!(parse_number("+"), None);
    assert_eq!(parse_number("-1"), None);
    assert_eq!(parse_number("1 "), None);
    assert_eq!(parse_number("1a"), None);
}

#[test]
fn words_split_on_ascii_whitespace() {
    assert_eq!(parse_numbers("7 6 4"), Some(vec![7, 6, 4]));
    assert_eq!(parse_numbers("  7\t6\r\n4\n"), Some(vec![7, 6, 4]));
    assert_eq!(parse_numbers(""), Some(vec![]));
    assert_eq!(parse_numbers("   "), Some(vec![]));
    assert_eq!(parse_numbers("7 six 4"), None);
}

#[test]
fn move_lines_are_counted_from_one() {
    let lines = vec![String::from("1"), String::from("3"), String::from("2")];
    assert_eq!(moves_from_lines(&lines), Some(vec![0, 2, 1]));
    assert_eq!(moves_from_lines(&vec![]), Some(vec![]));
    assert_eq!(moves_from_lines(&vec![String::from("0")]), None);
    assert_eq!(moves_from_lines(&vec![String::from("1"), String::from("x")]), None);
}
