use history_metadata::codec::decode_record;
use history_metadata::codec::encode_record;
use history_metadata::metadata::Metadata;
use history_metadata::metadata::ReadMarker;
use history_metadata::timestamp::Timestamp;

fn ts(year: u16, month: u8, day: u8) -> Timestamp {
    Timestamp::new(year, month, day, 8, 30, 15, 250).unwrap()
}

#[test]
fn encode_writes_the_canonical_document() {
    let m = Metadata {
        read_marker: Some(ReadMarker(ts(2024, 1, 2))),
        last_triggers_unread: Some(ts(2024, 3, 4)),
    };
    assert_eq!(
        encode_record(&m),
        "{\"read_marker\":\"2024-01-02T08:30:15.250Z\",\"last_triggers_unread\":\"2024-03-04T08:30:15.250Z\"}"
    );
    let empty = Metadata { read_marker: None, last_triggers_unread: None };
    assert_eq!(
        encode_record(&empty),
        "{\"read_marker\":null,\"last_triggers_unread\":null}"
    );
}

#[test]
fn decode_round_trips_every_shape() {
    let shapes = [
        Metadata { read_marker: None, last_triggers_unread: None },
        Metadata { read_marker: Some(ReadMarker(ts(2024, 1, 2))), last_triggers_unread: None },
        Metadata { read_marker: None, last_triggers_unread: Some(ts(2024, 3, 4)) },
        Metadata {
            read_marker: Some(ReadMarker(ts(2024, 1, 2))),
            last_triggers_unread: Some(ts(2024, 3, 4)),
        },
    ];
    for m in shapes {
        assert_eq!(decode_record(&encode_record(&m)), Some(m));
    }
}

#[test]
fn decode_rejects_unreadable_text() {
    assert_eq!(decode_record(""), None);
    assert_eq!(decode_record("not json at all"), None);
    // not an object
    assert_eq!(decode_record("[1,2,3]"), None);
    assert_eq!(decode_record("\"2024-01-02T08:30:15.250Z\""), None);
    assert_eq!(decode_record("null"), None);
    // truncated or malformed objects
    assert_eq!(decode_record("{\"read_marker\":null,\"last_triggers_unread\":null"), None);
    assert_eq!(decode_record("{\"read_marker\" null}"), None);
    assert_eq!(decode_record("{\"read_marker\":null,}"), None);
    assert_eq!(decode_record("{read_marker:null}"), None);
    assert_eq!(decode_record("{\"a\":01}"), None);
    assert_eq!(decode_record("{\"a\":\"unterminated}"), None);
    assert_eq!(decode_record("{} trailing"), None);
    // a recognized member must hold null or a canonical timestamp string
    assert_eq!(decode_record("{\"read_marker\":12,\"last_triggers_unread\":null}"), None);
    assert_eq!(decode_record("{\"read_marker\":true}"), None);
    assert_eq!(
        decode_record("{\"read_marker\":\"yesterday, more or less...\",\"last_triggers_unread\":null}"),
        None
    );
    assert_eq!(
        decode_record("{\"read_marker\":\"2023-02-29T00:00:00.000Z\",\"last_triggers_unread\":null}"),
        None
    );
}

#[test]
fn decode_is_lenient_about_the_object_shape() {
    let default = Metadata { read_marker: None, last_triggers_unread: None };
    let t = ts(2024, 1, 2);
    let with_marker = Metadata { read_marker: Some(ReadMarker(t)), last_triggers_unread: None };
    // absent members load as None
    assert_eq!(decode_record("{}"), Some(default));
    assert_eq!(decode_record("{\"read_marker\":null}"), Some(default));
    assert_eq!(
        decode_record("{\"read_marker\":\"2024-01-02T08:30:15.250Z\"}"),
        Some(with_marker)
    );
    // member order does not matter
    assert_eq!(
        decode_record(
            "{\"last_triggers_unread\":null,\"read_marker\":\"2024-01-02T08:30:15.250Z\"}"
        ),
        Some(with_marker)
    );
    // whitespace is allowed wherever JSON allows it
    assert_eq!(
        decode_record(
            " {\n\t\"read_marker\" : \"2024-01-02T08:30:15.250Z\" ,\r\n\"last_triggers_unread\" : null\n} "
        ),
        Some(with_marker)
    );
}

#[test]
fn decode_ignores_unknown_members() {
    let t = ts(2024, 1, 2);
    let with_marker = Metadata { read_marker: Some(ReadMarker(t)), last_triggers_unread: None };
    // a stored marker survives next to members this version does not know
    assert_eq!(
        decode_record(
            "{\"schema\":3,\"read_marker\":\"2024-01-02T08:30:15.250Z\",\"note\":\"hi \\\"there\\\" \\u00e9\"}"
        ),
        Some(with_marker)
    );
    // unknown members may hold any JSON value, nested ones included
    assert_eq!(
        decode_record(
            "{\"meta\":{\"tags\":[1,-2.5e3,true,null,{\"deep\":[]}]},\"read_marker\":\"2024-01-02T08:30:15.250Z\"}"
        ),
        Some(with_marker)
    );
    // a repeated recognized member takes its last occurrence
    assert_eq!(
        decode_record(
            "{\"read_marker\":null,\"read_marker\":\"2024-01-02T08:30:15.250Z\"}"
        ),
        Some(with_marker)
    );
}

#[test]
fn decode_follows_the_json_grammar_in_unknown_members() {
    let default = Metadata { read_marker: None, last_triggers_unread: None };
    // value forms
    assert_eq!(decode_record("{\"a\":-0.5e+10}"), Some(default));
    assert_eq!(decode_record("{\"a\":0}"), Some(default));
    assert_eq!(decode_record("{\"a\":[]}"), Some(default));
    assert_eq!(decode_record("{\"a\":{}}"), Some(default));
    assert_eq!(decode_record("{\"a\":false,\"b\":\"\\u0041\\n\"}"), Some(default));
    assert_eq!(decode_record("{ }"), Some(default));
    // malformed numbers, escapes, and structures
    assert_eq!(decode_record("{\"a\":1e}"), None);
    assert_eq!(decode_record("{\"a\":.5}"), None);
    assert_eq!(decode_record("{\"a\":1.}"), None);
    assert_eq!(decode_record("{\"a\":\"\\uZZZZ\"}"), None);
    assert_eq!(decode_record("{\"a\":\"\\q\"}"), None);
    assert_eq!(decode_record("{\"a\":[1,]}"), None);
    assert_eq!(decode_record("{\"a\":[1,2}"), None);
}

#[test]
fn decode_agrees_with_serde_json_on_what_is_an_object() {
    let accepted = [
        "{}",
        "{\"read_marker\":null}",
        "{\"meta\":{\"tags\":[1,-2.5e3,true,null]},\"read_marker\":\"2024-01-02T08:30:15.250Z\"}",
        "{\"a\":false,\"b\":\"\\u0041\\n\"}",
    ];
    for text in accepted {
        let value: serde_json::Value = serde_json::from_str(text).unwrap();
        assert!(value.is_object());
        assert!(decode_record(text).is_some());
    }
    let rejected = [
        "{\"read_marker\":null,}",
        "{\"a\":01}",
        "{\"a\":1e}",
        "{\"a\":[1,]}",
        "{} trailing",
        "{\"a\":\"\\q\"}",
    ];
    for text in rejected {
        assert!(serde_json::from_str::<serde_json::Value>(text).is_err());
        assert_eq!(decode_record(text), None);
    }
}

#[test]
fn encoded_document_is_valid_json_with_the_expected_fields() {
    let m = Metadata {
        read_marker: Some(ReadMarker(ts(2024, 1, 2))),
        last_triggers_unread: None,
    };
    let text = encode_record(&m);
    let value: serde_json::Value = serde_json::from_str(&text).unwrap();
    let object = value.as_object().unwrap();
    assert_eq!(object.len(), 2);
    assert_eq!(
        object.get("read_marker").unwrap().as_str().unwrap(),
        "2024-01-02T08:30:15.250Z"
    );
    assert!(object.get("last_triggers_unread").unwrap().is_null());
}
