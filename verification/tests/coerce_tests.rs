use spotify_bootstrap::coerce::DecodeError;
use spotify_bootstrap::coerce::bool_from_csv;
use spotify_bootstrap::coerce::parse_i32;
use spotify_bootstrap::coerce::real_token_ok;
use spotify_bootstrap::coerce::str_eq;

#[test]
fn bool_accepted_tokens() {
    assert_eq!(bool_from_csv(&Some("TRUE".to_string())), Ok(Some(1)));
    assert_eq!(bool_from_csv(&Some("true".to_string())), Ok(Some(1)));
    assert_eq!(bool_from_csv(&Some("FALSE".to_string())), Ok(Some(0)));
    assert_eq!(bool_from_csv(&Some("false".to_string())), Ok(Some(0)));
}

#[test]
fn bool_rejected_tokens() {
    assert_eq!(
        bool_from_csv(&Some("maybe".to_string())),
        Err(DecodeError::InvalidBoolean)
    );
    assert_eq!(
        bool_from_csv(&Some("True".to_string())),
        Err(DecodeError::InvalidBoolean)
    );
    assert_eq!(
        bool_from_csv(&Some("1".to_string())),
        Err(DecodeError::InvalidBoolean)
    );
    assert_eq!(
        bool_from_csv(&Some("TRUEX".to_string())),
        Err(DecodeError::InvalidBoolean)
    );
}

#[test]
fn bool_absent_or_empty_is_null() {
    assert_eq!(bool_from_csv(&None), Ok(None));
    assert_eq!(bool_from_csv(&Some(String::new())), Ok(None));
}

#[test]
fn parse_i32_plain_values() {
    assert_eq!(parse_i32("42"), Some(42));
    assert_eq!(parse_i32("0"), Some(0));
    assert_eq!(parse_i32("-7"), Some(-7));
    assert_eq!(parse_i32("+8"), Some(8));
    assert_eq!(parse_i32("007"), Some(7));
}

#[test]
fn parse_i32_range_edges() {
    assert_eq!(parse_i32("2147483647"), Some(i32::MAX));
    assert_eq!(parse_i32("2147483648"), None);
    assert_eq!(parse_i32("-2147483648"), Some(i32::MIN));
    assert_eq!(parse_i32("-2147483649"), None);
    assert_eq!(parse_i32("99999999999999999999"), None);
}

#[test]
fn parse_i32_rejects_bad_shapes() {
    assert_eq!(parse_i32(""), None);
    assert_eq!(parse_i32("+"), None);
    assert_eq!(parse_i32("-"), None);
    assert_eq!(parse_i32("12a"), None);
    assert_eq!(parse_i32("a12"), None);
    assert_eq!(parse_i32("1 2"), None);
    assert_eq!(parse_i32(" 1"), None);
    assert_eq!(parse_i32("1.0"), None);
}

#[test]
fn parse_i32_matches_std() {
    let cases = [
        "42", "-7", "+8", "007", "", "+", "-", "12a", "2147483647", "2147483648", "-2147483648",
        "-2147483649", "1.0", " 1",
    ];
    for s in cases {
        assert_eq!(parse_i32(s), s.parse::<i32>().ok(), "token {:?}", s);
    }
}

#[test]
fn real_token_accepts_numbers() {
    assert!(real_token_ok("3.5"));
    assert!(real_token_ok("2"));
    assert!(real_token_ok("-0.5"));
    assert!(real_token_ok("+12."));
    assert!(real_token_ok(".5"));
    assert!(real_token_ok("1e3"));
    assert!(real_token_ok("1E-2"));
    assert!(real_token_ok("6.02e+23"));
    assert!(real_token_ok("inf"));
    assert!(real_token_ok("Infinity"));
    assert!(real_token_ok("NaN"));
    assert!(real_token_ok("-iNf"));
}

#[test]
fn real_token_rejects_bad_shapes() {
    assert!(!real_token_ok(""));
    assert!(!real_token_ok("."));
    assert!(!real_token_ok("abc"));
    assert!(!real_token_ok("1e"));
    assert!(!real_token_ok("1e+"));
    assert!(!real_token_ok("--1"));
    assert!(!real_token_ok("1.2.3"));
    assert!(!real_token_ok("1 "));
    assert!(!real_token_ok("0x10"));
}

#[test]
fn real_token_matches_std() {
    let cases = [
        "3.5", "2", "-0.5", "+12.", ".5", "1e3", "1E-2", "6.02e+23", "inf", "Infinity", "NaN",
        "-iNf", "", ".", "abc", "1e", "1e+", "--1", "1.2.3", "1 ", "0x10", "1e999", "infin",
    ];
    for s in cases {
        assert_eq!(real_token_ok(s), s.parse::<f64>().is_ok(), "token {:?}", s);
    }
}

#[test]
fn str_eq_compares_contents() {
    assert!(str_eq("", ""));
    assert!(str_eq("abc", "abc"));
    assert!(!str_eq("abc", "abd"));
    assert!(!str_eq("abc", "ab"));
    assert!(str_eq("ué", "ué"));
}
