use spotter::bucket::InterruptionBucket;
use spotter::price::extract_callback_json;
use spotter::select::matches_filter;
use spotter::text::{contains_text, decimal_text, family, normalize, size, text_less};

#[test]
fn bucket_codes_map_to_labels() {
    assert_eq!(InterruptionBucket::from_code(0).label(), "<5%");
    assert_eq!(InterruptionBucket::from_code(1).label(), "5-10%");
    assert_eq!(InterruptionBucket::from_code(2).label(), "10-15%");
    assert_eq!(InterruptionBucket::from_code(3).label(), "15-20%");
    for code in [4u64, 5, 17, 1000, u64::MAX] {
        assert_eq!(InterruptionBucket::from_code(code), InterruptionBucket::OverTwenty);
        assert_eq!(InterruptionBucket::from_code(code).label(), ">20%");
    }
}

#[test]
fn normalize_examples() {
    assert_eq!(normalize("generalCurrentGen.m5.large"), "m5.large");
    assert_eq!(normalize("m5.large"), "m5.large");
    assert_eq!(normalize("solo"), "solo");
    assert_eq!(normalize("a.b.c.d"), "c.d");
    assert_eq!(normalize(""), "");
    assert_eq!(normalize(".x.y"), "x.y");
}

#[test]
fn family_and_size_segments() {
    assert_eq!(family("m5.large"), "m5");
    assert_eq!(size("m5.large"), "large");
    assert_eq!(family("solo"), "solo");
    assert_eq!(size("solo"), "");
    assert_eq!(size("a.b.c"), "b");
}

#[test]
fn substring_search() {
    assert!(contains_text("m5.large", "5.la"));
    assert!(contains_text("m5.large", ""));
    assert!(!contains_text("m5.large", "xlarge"));
    assert!(!contains_text("m5", "m5.large"));
}

#[test]
fn filter_matching_examples() {
    assert!(matches_filter("m5.large", "m5"));
    assert!(matches_filter("m5.xlarge", "m5"));
    assert!(!matches_filter("c5.large", "m5"));
    assert!(matches_filter("m5.large", "large"));
    assert!(matches_filter("c5.large", "large"));
    assert!(matches_filter("m5.xlarge", "large"));
    assert!(matches_filter("m5.large", "5.la"));
    assert!(matches_filter("m5.large", "m5.large"));
    assert!(!matches_filter("m5.large", "t3"));
}

#[test]
fn identifier_order() {
    assert!(text_less("c5.large", "m5.large"));
    assert!(text_less("m5.large", "m5.xlarge"));
    assert!(text_less("m5", "m5.large"));
    assert!(!text_less("m5.large", "m5.large"));
    assert!(!text_less("m5.xlarge", "c5.large"));
    assert!(text_less("Z", "a"));
}

#[test]
fn decimal_rendering() {
    assert_eq!(decimal_text(0), "0");
    assert_eq!(decimal_text(7), "7");
    assert_eq!(decimal_text(30), "30");
    assert_eq!(decimal_text(1234567890), "1234567890");
    assert_eq!(decimal_text(u64::MAX), "18446744073709551615");
}

#[test]
fn test_extract_json_from_callback() {
    let callback_text = "callback({\"key\": \"value\"})";
    let json_str = extract_callback_json(callback_text).unwrap();
    let data = serde_json::from_str::<serde_json::Value>(&json_str).unwrap();
    let mut expected = serde_json::Map::new();
    expected.insert(
        "key".to_string(),
        serde_json::Value::String("value".to_string()),
    );
    assert_eq!(data, serde_json::Value::Object(expected));
}

#[test]
fn callback_unwrapping_edges() {
    assert_eq!(
        extract_callback_json("callback({\"a\":{\"b\":1}});").unwrap(),
        "{\"a\":{\"b\":1}}"
    );
    assert_eq!(extract_callback_json("x = {\"a\":1}").unwrap(), "{\"a\":1}");
    assert_eq!(extract_callback_json("callback(no braces)"), None);
    assert_eq!(extract_callback_json("}{"), None);
    assert_eq!(extract_callback_json("callback(}"), None);
    assert_eq!(extract_callback_json("}callback("), None);
    assert_eq!(extract_callback_json("callback({})"), Some("{}".to_string()));
    assert_eq!(
        extract_callback_json("{junk} callback( {\"a\":1})").unwrap(),
        "{\"a\":1}"
    );
}
