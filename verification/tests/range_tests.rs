use bytedump::parse_range;

#[test]
fn parse_range_both_absent() {
    assert_eq!(parse_range(".."), Ok((None, None)));
}

#[test]
fn parse_range_both_present() {
    assert_eq!(parse_range("2..5"), Ok((Some(2), Some(5))));
}

#[test]
fn parse_range_start_only() {
    assert_eq!(parse_range("17.."), Ok((Some(17), None)));
}

#[test]
fn parse_range_stop_only() {
    assert_eq!(parse_range("..40"), Ok((None, Some(40))));
}

#[test]
fn parse_range_leading_plus_accepted() {
    assert_eq!(parse_range("+2..+5"), Ok((Some(2), Some(5))));
}

#[test]
fn parse_range_zero() {
    assert_eq!(parse_range("0..0"), Ok((Some(0), Some(0))));
}

#[test]
fn parse_range_no_separator_rejected() {
    assert!(parse_range("25").is_err());
    assert!(parse_range("").is_err());
    assert!(parse_range("2.5").is_err());
}

#[test]
fn parse_range_two_separators_rejected() {
    assert!(parse_range("1..2..3").is_err());
    assert!(parse_range("....").is_err());
}

#[test]
fn parse_range_stray_dot_rejected() {
    // the first `..` splits "..." into "" and ".", and "." is no number
    assert!(parse_range("...").is_err());
}

#[test]
fn parse_range_non_digits_rejected() {
    assert!(parse_range("a..b").is_err());
    assert!(parse_range("1..x").is_err());
    assert!(parse_range("-1..2").is_err());
    assert!(parse_range(" 1..2").is_err());
}

#[test]
fn parse_range_overflow_rejected() {
    assert!(parse_range("99999999999999999999999999..").is_err());
    assert!(parse_range("..99999999999999999999999999").is_err());
}

#[test]
fn parse_range_max_usize_accepted() {
    let max = usize::MAX.to_string();
    let written = format!("{}..", max);
    assert_eq!(parse_range(&written), Ok((Some(usize::MAX), None)));
}

#[test]
fn parse_range_error_message() {
    let e = parse_range("oops").unwrap_err();
    assert_eq!(e, "expecting a value matching the regex '[0-9]*\\.\\.[0-9]*'");
}
