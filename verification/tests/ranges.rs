use serve::auth::{credentials_header, rule_password};
use serve::config::AuthRule;
use serve::ranges::{content_range_value, parse_range_header, select_bytes, RangeRequest};

#[test]
fn parse_range_forms() {
    assert_eq!(parse_range_header("bytes=0-499"), Some(RangeRequest::Span { first: 0, last: Some(499) }));
    assert_eq!(parse_range_header("bytes=500-"), Some(RangeRequest::Span { first: 500, last: None }));
    assert_eq!(parse_range_header("bytes=-500"), Some(RangeRequest::Suffix { length: 500 }));
    assert_eq!(parse_range_header("bytes=5-4"), None);
    assert_eq!(parse_range_header("bytes=-"), None);
    assert_eq!(parse_range_header("bytes=a-b"), None);
    assert_eq!(parse_range_header("bytes=0-1,3-4"), None);
    assert_eq!(parse_range_header("items=0-1"), None);
    assert_eq!(parse_range_header("bytes= 0-1"), None);
    assert_eq!(parse_range_header("bytes=99999999999999999999-"), None);
    assert_eq!(
        parse_range_header("bytes=18446744073709551615-"),
        Some(RangeRequest::Span { first: u64::MAX, last: None })
    );
}

#[test]
fn select_bytes_cases() {
    assert_eq!(select_bytes(RangeRequest::Span { first: 0, last: Some(0) }, 10), Some((0, 0)));
    assert_eq!(select_bytes(RangeRequest::Span { first: 3, last: None }, 10), Some((3, 9)));
    assert_eq!(select_bytes(RangeRequest::Span { first: 10, last: None }, 10), None);
    assert_eq!(select_bytes(RangeRequest::Suffix { length: 20 }, 10), Some((0, 9)));
    assert_eq!(select_bytes(RangeRequest::Suffix { length: 0 }, 10), None);
    assert_eq!(select_bytes(RangeRequest::Suffix { length: 3 }, 0), None);
    assert_eq!(content_range_value(0, 9, 10), "bytes 0-9/10");
}

#[test]
fn credentials_are_base64_of_user_colon_password() {
    assert_eq!(credentials_header("admin", "secretpassword"), "Basic YWRtaW46c2VjcmV0cGFzc3dvcmQ=");
    assert_eq!(credentials_header("a", ""), "Basic YTo=");
    assert_eq!(credentials_header("ab", "c"), "Basic YWI6Yw==");
    assert_eq!(credentials_header("ü", "ß"), "Basic w7w6w58=");
}

#[test]
fn password_from_config_or_environment() {
    let rule = AuthRule { source: "/**".to_string(), username: "u".to_string(), password: None, env_password: Some("PW".to_string()) };
    assert_eq!(rule_password(&rule, Some("fromenv".to_string())), Some("fromenv".to_string()));
    assert_eq!(rule_password(&rule, None), None);
    let fixed = AuthRule { password: Some("p".to_string()), ..rule };
    assert_eq!(rule_password(&fixed, Some("fromenv".to_string())), Some("p".to_string()));
}
