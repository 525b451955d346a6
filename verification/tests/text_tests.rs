use tvguide::clock::code_of_moment;
use tvguide::text::{
    chars_eq, char_of_digit, date_digits, digit, digit_value, four_digits, parse_moment,
    str_chars, string_from_chars, two_digits,
};
use tvguide::clock::CalDate;

fn chars(s: &str) -> Vec<char> {
    s.chars().collect()
}

fn text(v: &[char]) -> String {
    v.iter().collect()
}

#[test]
fn parse_moment_accepts_a_valid_timestamp() {
    let m = parse_moment(&chars("202501150300")).expect("valid timestamp");
    assert_eq!(m.year, 2025);
    assert_eq!(m.month, 1);
    assert_eq!(m.day, 15);
    assert_eq!(m.hour, 3);
    assert_eq!(m.minute, 0);
    assert_eq!(code_of_moment(&m), 202501150300);
}

#[test]
fn parse_moment_rejects_bad_input() {
    // Wrong length.
    assert!(parse_moment(&chars("20250115030")).is_none());
    assert!(parse_moment(&chars("2025011503000")).is_none());
    // Non-digit characters.
    assert!(parse_moment(&chars("2025011503aa")).is_none());
    // No thirteenth month, no 29 February off leap years, no hour 24.
    assert!(parse_moment(&chars("202513150000")).is_none());
    assert!(parse_moment(&chars("202302290000")).is_none());
    assert!(parse_moment(&chars("202501152400")).is_none());
    assert!(parse_moment(&chars("202501150060")).is_none());
}

#[test]
fn parse_moment_accepts_leap_day() {
    assert!(parse_moment(&chars("202402290000")).is_some());
}

#[test]
fn digit_helpers() {
    assert!(digit('0') && digit('9'));
    assert!(!digit('a') && !digit(' '));
    assert_eq!(digit_value('7'), 7);
    assert_eq!(char_of_digit(7), '7');
}

#[test]
fn fixed_width_formatting() {
    assert_eq!(text(&two_digits(3)), "03");
    assert_eq!(text(&two_digits(59)), "59");
    assert_eq!(text(&four_digits(7)), "0007");
    assert_eq!(text(&four_digits(2025)), "2025");
    let d = CalDate { year: 2025, month: 1, day: 14 };
    assert_eq!(text(&date_digits(&d)), "20250114");
}

#[test]
fn string_round_trip() {
    let v = str_chars("a\u{3042}b");
    assert_eq!(v, vec!['a', '\u{3042}', 'b']);
    assert_eq!(string_from_chars(&v), "a\u{3042}b");
    assert!(chars_eq(&chars("abc"), &chars("abc")));
    assert!(!chars_eq(&chars("abc"), &chars("abd")));
    assert!(!chars_eq(&chars("abc"), &chars("ab")));
}
