use rustlight::cli::{match_infinity, parse_decimal, thread_count, ArgError};

#[test]
fn infinity_keyword() {
    assert_eq!(match_infinity("inf"), None);
    assert_eq!(match_infinity("120"), Some(120));
    assert_eq!(match_infinity("0"), Some(0));
    assert_eq!(match_infinity("+5"), Some(5));
}

#[test]
fn decimal_limits() {
    assert_eq!(parse_decimal("18446744073709551615"), Some(u64::MAX));
    assert_eq!(parse_decimal("18446744073709551616"), None);
    assert_eq!(parse_decimal("007"), Some(7));
    assert_eq!(parse_decimal("-1"), None);
    assert_eq!(parse_decimal("+5"), Some(5));
    assert_eq!(parse_decimal("+"), None);
    assert_eq!(parse_decimal("++5"), None);
    assert_eq!(parse_decimal("5+"), None);
}

#[test]
fn thread_counts() {
    assert_eq!(thread_count("auto"), Ok(None));
    assert_eq!(thread_count("8"), Ok(Some(8)));
    assert_eq!(thread_count("0"), Err(ArgError::ZeroThreads));
    assert_eq!(thread_count("+4"), Ok(Some(4)));
    assert_eq!(thread_count("+0"), Err(ArgError::ZeroThreads));
    assert_eq!(thread_count("many"), Err(ArgError::NotANumber));
    assert_eq!(thread_count("aut"), Err(ArgError::NotANumber));
}
