use server_poller::json::{json_of_value, json_text, parse_json, parse_json_bytes, value_of_json};
use server_poller::json::{Json, JsonObject};

#[test]
fn texts_are_parsed_and_printed() {
    for text in [
        "null", "true", "0", "-5", "18446744073709551615", "-9223372036854775808", "\"a\\nb\\\"é\"",
        "[]", "[1,[2,\"x\"],{}]", "{\"a\":1,\"b\":{\"c\":[null,false]}}",
    ] {
        let value = parse_json(text).unwrap();
        assert_eq!(json_text(&value), text);
        let value = parse_json_bytes(&text.as_bytes().to_vec()).unwrap();
        assert_eq!(json_text(&value), text);
    }
}

#[test]
fn broken_texts_are_refused() {
    for text in ["", "{", "nul", "[1,]", "{\"a\" 1}", "1 2", "\"\u{1}\""] {
        assert!(parse_json(text).is_none(), "{text}");
        assert!(parse_json_bytes(&text.as_bytes().to_vec()).is_none(), "{text}");
    }
    assert!(parse_json_bytes(&vec![b'"', 0xff, b'"']).is_none());
}

#[test]
fn deep_texts_are_refused_from_the_limit_on() {
    let nested = |depth: usize| format!("{}{}", "[".repeat(depth), "]".repeat(depth));
    let value = parse_json(&nested(127)).unwrap();
    assert_eq!(json_text(&value), nested(127));
    assert!(parse_json(&nested(128)).is_none());
}

#[test]
fn numbers_by_kind() {
    let number = |text: &str| parse_json(text).unwrap();
    assert_eq!(number("7").as_i64(), Some(7));
    assert_eq!(number("7").as_u64(), Some(7));
    assert_eq!(number("-7").as_u64(), None);
    assert_eq!(number("-7").as_i64(), Some(-7));
    assert_eq!(number("18446744073709551615").as_i64(), None);
    assert_eq!(number("18446744073709551615").as_u64(), Some(u64::MAX));
    assert_eq!(number("1.5").as_i64(), None);
    assert_eq!(number("1.0").as_u64(), None);
    assert_eq!(json_text(&number("1.5")), "1.5");
    assert_eq!(json_text(&number("1e2")), "100.0");
}

#[test]
fn the_last_of_equal_keys_stays() {
    let value = parse_json("{\"a\":1,\"a\":2}").unwrap();
    assert_eq!(json_text(&value), "{\"a\":2}");
    let object = JsonObject::new().with("a", Json::unsigned(1)).with("a", Json::Null);
    assert_eq!(json_text(&Json::Object(object)), "{\"a\":null}");
}

#[test]
fn fields_are_found() {
    let value = parse_json("{\"t\":\"x\",\"n\":-3,\"b\":true,\"l\":[1],\"o\":{}}").unwrap();
    assert_eq!(value.text_at("t"), Some("x"));
    assert_eq!(value.text_at("n"), None);
    assert_eq!(value.i64_at("n"), Some(-3));
    assert!(value.bool_at("b"));
    assert!(!value.bool_at("t"));
    assert_eq!(value.get("l").unwrap().as_array().unwrap().len(), 1);
    assert!(value.get("missing").is_none());
    assert!(Json::Null.get("t").is_none());
    assert_eq!(value.get("b").unwrap().as_bool(), Some(true));
    assert_eq!(json_text(&value.copy()), json_text(&value));
}

#[test]
fn built_values() {
    assert_eq!(json_text(&Json::opt_signed(Some(-1))), "-1");
    assert_eq!(json_text(&Json::opt_signed(None)), "null");
    assert_eq!(json_text(&Json::opt_unsigned(Some(1))), "1");
    assert_eq!(json_text(&Json::opt_unsigned(None)), "null");
    assert_eq!(json_text(&Json::opt_text(&Some("a".to_string()))), "\"a\"");
    assert_eq!(json_text(&Json::opt_text(&None)), "null");
    assert_eq!(json_text(&Json::texts(&vec!["a".to_string(), "b".to_string()])), "[\"a\",\"b\"]");
    assert_eq!(json_text(&Json::signed(i64::MIN)), "-9223372036854775808");
}

#[test]
fn values_pass_to_the_crate_and_back() {
    let value = parse_json("{\"a\":[1,-2,\"x\",null,true,0.25]}").unwrap();
    let outside = value_of_json(&value);
    assert_eq!(outside["a"][1].as_i64(), Some(-2));
    assert_eq!(outside["a"][5].as_f64(), Some(0.25));
    assert_eq!(json_text(&json_of_value(&outside)), json_text(&value));
}

#[test]
fn fractions_are_printed_as_they_were_read() {
    for (text, printed) in [
        ("0.1", "0.1"), ("1e2", "100.0"), ("-0.0", "-0.0"), ("5e-324", "5e-324"),
        ("1.7976931348623157e308", "1.7976931348623157e+308"),
        ("123456789.123456789", "123456789.12345679"),
    ] {
        let outside: serde_json::Value = serde_json::from_str(text).unwrap();
        let value = parse_json(text).unwrap();
        assert_eq!(json_text(&value), outside.to_string());
        assert_eq!(json_text(&value.copy()), printed);
    }
    // A number that was made otherwise is carried over without being read again.
    let outside = serde_json::Value::from(1.0 / 3.0 * 1e-300);
    assert_eq!(json_text(&json_of_value(&outside)), outside.to_string());
    assert_eq!(value_of_json(&json_of_value(&outside)), outside);
}
