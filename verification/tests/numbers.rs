use equation::failure::FailureKind;
use equation::parser::parse_number;
use equation::syntax::Numeral;

fn value(n: &Numeral) -> f32 {
    let magnitude: f32 = n.literal().parse().unwrap();
    if n.is_negative() {
        -magnitude
    } else {
        magnitude
    }
}

fn check_number(input: &str, expected: f32) {
    let (_, n) = parse_number(input).unwrap();
    assert_eq!(value(&n), expected);
}

fn check_no_number(input: &str) {
    let result = parse_number(input);
    assert!(result.is_err());
}

#[test]
fn test_number() {
    check_number("10.5", 10.5);
    check_number("3.141592653589793", std::f32::consts::PI);
    check_number(" 12345 --", 12345.);
    check_number("12345 and", 12345.);
    check_number(" 12345blah", 12345.);
    check_number("-20.5-3", -20.5);
    check_number("-10", -10.);
}

#[test]
fn test_parse_fail() {
    check_no_number("abc10.5");
    check_no_number("+10");
}

#[test]
fn number_reads_in_double_precision_too() {
    let (_, n) = parse_number("3.141592653589793").unwrap();
    let double: f64 = n.to_text().parse().unwrap();
    assert_eq!(double, std::f64::consts::PI);
    let (_, n) = parse_number("-0.1").unwrap();
    let double: f64 = n.to_text().parse().unwrap();
    assert_eq!(double, -0.1);
}

#[test]
fn number_keeps_the_digits_as_written() {
    let (rest, n) = parse_number("  -007.50  x").unwrap();
    assert_eq!(rest, "x");
    assert!(n.is_negative());
    assert_eq!(n.literal(), "007.50");
    assert_eq!(n.to_text(), "-007.50");
}

#[test]
fn number_leaves_what_follows() {
    assert_eq!(parse_number("12345 and").unwrap().0, "and");
    assert_eq!(parse_number("-20.5-3").unwrap().0, "-3");
    assert_eq!(parse_number(" 12345 --").unwrap().0, "--");
    assert_eq!(parse_number(" 12345blah").unwrap().0, "blah");
    assert_eq!(parse_number("7").unwrap().0, "");
}

#[test]
fn number_takes_a_point_only_between_digits() {
    let (rest, n) = parse_number("10.").unwrap();
    assert_eq!((rest, n.literal()), (".", "10"));
    let (rest, n) = parse_number("1.5.25").unwrap();
    assert_eq!((rest, n.literal()), (".25", "1.5"));
    let (rest, n) = parse_number("3.x").unwrap();
    assert_eq!((rest, n.literal()), (".x", "3"));
    assert!(parse_number(".5").is_err());
}

#[test]
fn number_takes_tabs_as_blanks() {
    let (rest, n) = parse_number("\t 42\t\t=").unwrap();
    assert_eq!((rest, n.literal()), ("=", "42"));
}

#[test]
fn number_takes_one_sign_only() {
    let failure = parse_number("--5").unwrap_err();
    assert_eq!(failure.kind, FailureKind::ExpectedDigit);
    assert_eq!(failure.input, "-5");
    let failure = parse_number("- 5").unwrap_err();
    assert_eq!(failure.input, " 5");
}

#[test]
fn number_failure_says_where() {
    let failure = parse_number("  abc10.5").unwrap_err();
    assert_eq!(failure.kind, FailureKind::ExpectedDigit);
    assert_eq!(failure.input, "abc10.5");
    let failure = parse_number("+10").unwrap_err();
    assert_eq!(failure.input, "+10");
    let failure = parse_number("").unwrap_err();
    assert_eq!(failure.input, "");
    let failure = parse_number("   -").unwrap_err();
    assert_eq!(failure.input, "");
}

#[test]
fn number_stops_before_text_that_is_not_ascii() {
    let (rest, n) = parse_number("12\u{e9}").unwrap();
    assert_eq!((rest, n.literal()), ("\u{e9}", "12"));
    let failure = parse_number(" \u{2714}1").unwrap_err();
    assert_eq!(failure.input, "\u{2714}1");
}
