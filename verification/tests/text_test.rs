use rs_p2_gateway::error::AppError;
use rs_p2_gateway::text::{decimal_text, split_commas};

#[test]
fn numbers_in_decimal() {
    assert_eq!(decimal_text(0), "0");
    assert_eq!(decimal_text(9), "9");
    assert_eq!(decimal_text(10), "10");
    assert_eq!(decimal_text(7899), "7899");
    assert_eq!(decimal_text(1234567890), "1234567890");
    assert_eq!(decimal_text(u64::MAX), "18446744073709551615");
}

#[test]
fn pieces_between_commas() {
    assert_eq!(split_commas(""), vec![""]);
    assert_eq!(split_commas("a"), vec!["a"]);
    assert_eq!(split_commas("a,b"), vec!["a", "b"]);
    assert_eq!(split_commas(",a,,b,"), vec!["", "a", "", "b", ""]);
    assert_eq!(split_commas("é,ü ,"), vec!["é", "ü ", ""]);
}

#[test]
fn pieces_are_those_of_the_standard_library() {
    for text in ["", ",", "x,y", "wss://a,wss://b", ",,", " a , b "] {
        let expected: Vec<String> = text.split(',').map(String::from).collect();
        assert_eq!(split_commas(text), expected);
        assert_eq!(split_commas(text).join(","), text);
    }
}

#[test]
fn error_messages() {
    let text = || "why".to_string();
    assert_eq!(AppError::Keys(text()).to_string(), "key error: why");
    assert_eq!(AppError::Json(text()).to_string(), "json error: why");
    assert_eq!(AppError::Nostr(text()).to_string(), "nostr error: why");
    assert_eq!(AppError::Broker(text()).to_string(), "broker error: why");
    assert_eq!(AppError::Config(text()).to_string(), "config error: why");
    assert_eq!(AppError::Io(text()).to_string(), "io error: why");
}

#[test]
fn a_json_error_keeps_its_text() {
    let outside = serde_json::from_str::<u32>("nonsense").unwrap_err();
    let expected = outside.to_string();
    match AppError::from(outside) {
        AppError::Json(text) => assert_eq!(text, expected),
        _ => panic!("expected a json error"),
    }
}
