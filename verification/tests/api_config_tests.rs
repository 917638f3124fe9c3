use failover_router::api_config::{
    encode_auth_token, has_no_bar, parse_auth_token, GlobalApiConfig,
};
use failover_router::text::{join_strings, str_eq, u64_to_decimal};

#[test]
fn encode_key_alone() {
    let c = GlobalApiConfig { api_key: "sk-test".to_string(), external_ip: None };
    assert_eq!(encode_auth_token(&c), "sk-test");
}

#[test]
fn encode_key_with_external_ip() {
    let c = GlobalApiConfig {
        api_key: "sk-test".to_string(),
        external_ip: Some("10.0.0.7".to_string()),
    };
    assert_eq!(encode_auth_token(&c), "sk-test|10.0.0.7");
}

#[test]
fn parse_token_without_bar() {
    let c = parse_auth_token("sk-test");
    assert_eq!(c.api_key, "sk-test");
    assert!(c.external_ip.is_none());
}

#[test]
fn parse_token_with_bar() {
    let c = parse_auth_token("sk-test|10.0.0.7");
    assert_eq!(c.api_key, "sk-test");
    assert_eq!(c.external_ip.as_deref(), Some("10.0.0.7"));
}

#[test]
fn parse_empty_token() {
    let c = parse_auth_token("");
    assert_eq!(c.api_key, "");
    assert!(c.external_ip.is_none());
}

#[test]
fn round_trip_parse_then_encode() {
    for token in ["sk-test", "sk-test|10.0.0.7", "a|b|c", "|", ""] {
        let c = parse_auth_token(token);
        assert_eq!(encode_auth_token(&c), token);
    }
}

#[test]
fn round_trip_encode_then_parse() {
    let c = GlobalApiConfig {
        api_key: "sk-test".to_string(),
        external_ip: Some("1.2.3.4".to_string()),
    };
    let back = parse_auth_token(&encode_auth_token(&c));
    assert_eq!(back.api_key, c.api_key);
    assert_eq!(back.external_ip, c.external_ip);
}

#[test]
fn a_key_holding_a_bar_is_cut_at_it() {
    // The round trip is only owed to keys without a bar: this key is cut.
    let c = GlobalApiConfig {
        api_key: "bad|key".to_string(),
        external_ip: Some("1.2.3.4".to_string()),
    };
    let back = parse_auth_token(&encode_auth_token(&c));
    assert_eq!(back.api_key, "bad");
    assert_eq!(back.external_ip.as_deref(), Some("key|1.2.3.4"));
}

#[test]
fn bar_detection() {
    assert!(has_no_bar("sk-test"));
    assert!(has_no_bar(""));
    assert!(!has_no_bar("a|b"));
}

#[test]
fn decimal_rendering() {
    assert_eq!(u64_to_decimal(0), "0");
    assert_eq!(u64_to_decimal(7), "7");
    assert_eq!(u64_to_decimal(42), "42");
    assert_eq!(u64_to_decimal(503), "503");
    assert_eq!(u64_to_decimal(1_234_567_890), "1234567890");
}

#[test]
fn string_joining() {
    assert_eq!(join_strings(&vec![], ", "), "");
    assert_eq!(join_strings(&vec!["a".to_string()], ", "), "a");
    assert_eq!(
        join_strings(&vec!["a".to_string(), "b".to_string(), "c".to_string()], ", "),
        "a, b, c"
    );
}

#[test]
fn string_equality() {
    assert!(str_eq("", ""));
    assert!(str_eq("abc", "abc"));
    assert!(!str_eq("abc", "abd"));
    assert!(!str_eq("abc", "ab"));
}
