use techdocs::tags::{decode_tags, encode_tags};

#[test]
fn round_trip_plain_tags() {
    let tags = vec!["a".to_string(), "b".to_string(), "c".to_string()];
    let blob = encode_tags(&tags);
    assert_eq!(blob, "[\"a\",\"b\",\"c\"]");
    assert_eq!(decode_tags(&blob), tags);
}

#[test]
fn round_trip_empty_tags() {
    let tags: Vec<String> = vec![];
    let blob = encode_tags(&tags);
    assert_eq!(blob, "[]");
    assert_eq!(decode_tags(&blob), tags);
}

#[test]
fn round_trip_escaped_tags() {
    let tags = vec!["a\"b".to_string(), "c\\d".to_string(), "".to_string()];
    let blob = encode_tags(&tags);
    assert_eq!(blob, "[\"a\\\"b\",\"c\\\\d\",\"\"]");
    assert_eq!(decode_tags(&blob), tags);
}

#[test]
fn round_trip_control_characters() {
    let tags = vec!["a\nb".to_string(), "\u{1}\u{1f}".to_string(), "c\td".to_string()];
    let blob = encode_tags(&tags);
    assert_eq!(blob, "[\"a\\nb\",\"\\u0001\\u001f\",\"c\\td\"]");
    assert_eq!(decode_tags(&blob), tags);
}

#[test]
fn blob_is_valid_json_and_survives_reserialization() {
    let tags = vec![
        "a\"b\\c".to_string(),
        "line\r\nbreak".to_string(),
        "\u{0}\u{b}\u{8}\u{c}".to_string(),
    ];
    let blob = encode_tags(&tags);
    let value: serde_json::Value = serde_json::from_str(&blob).unwrap();
    let reserialized = value.to_string();
    assert_eq!(reserialized, blob);
    assert_eq!(decode_tags(&reserialized), tags);
}

#[test]
fn unknown_escapes_and_raw_controls_are_malformed() {
    assert_eq!(decode_tags("[\"a\nb\"]"), Vec::<String>::new());
    assert_eq!(decode_tags("[\"\\u0041\"]"), Vec::<String>::new());
    assert_eq!(decode_tags("[\"\\q\"]"), Vec::<String>::new());
}

#[test]
fn malformed_blob_decodes_to_empty() {
    assert_eq!(decode_tags("not a blob"), Vec::<String>::new());
    assert_eq!(decode_tags(""), Vec::<String>::new());
    assert_eq!(decode_tags("{\"a\":1}"), Vec::<String>::new());
    assert_eq!(decode_tags("[\"a\",1]"), Vec::<String>::new());
    assert_eq!(decode_tags("[\"a\""), Vec::<String>::new());
    assert_eq!(decode_tags("[\"a\"]junk"), Vec::<String>::new());
}
