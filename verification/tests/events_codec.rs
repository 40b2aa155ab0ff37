use cls::events::decode_event;
use cls::events::encode_event;
use cls::events::encode_event_pretty;
use cls::events::Event;

fn sample_event() -> Event {
    let mut event = Event::new("test", "test", "null".to_string(), "test", "test");
    event.datetime = "test".to_string();
    event
}

#[test]
fn deserialize_standard() {
    decode_event(
        r#"{
                "slug": "test",
                "type": "test",
                "metadata": {},
                "user_id": "test",
                "invocation_id": "test",
                "datetime": "test"
            }"#,
    )
    .unwrap();
}

#[test]
fn deserialize_old() {
    decode_event(
        r#"{
                "slug": "test",
                "type_s": "test",
                "metadata": {},
                "user_id": "test",
                "invocation_id": "test",
                "datetime": "test"
            }"#,
    )
    .unwrap();
}

#[test]
fn serialize() {
    let event = sample_event();
    let json = encode_event(&event);
    assert_eq!(
        json,
        r#"{"slug":"test","type":"test","metadata":null,"user_id":"test","invocation_id":"test","datetime":"test"}"#
    );
}

#[test]
fn round_trip_preserves_fields() {
    let mut event = Event::new(
        "my-app",
        "usage",
        r#"{"keys": [1, 2, 3], "label": "a, b\\c \"quoted\""}"#.to_string(),
        "user-1",
        "invoc-1",
    );
    event.datetime = "2020-01-02 03:04:05 UTC".to_string();
    let json = encode_event(&event);
    let back = decode_event(&json).unwrap();
    assert_eq!(back.slug, event.slug);
    assert_eq!(back.type_s, event.type_s);
    assert_eq!(back.metadata, event.metadata);
    assert_eq!(back.user_id, event.user_id);
    assert_eq!(back.invocation_id, event.invocation_id);
    assert_eq!(back.datetime, event.datetime);
}

#[test]
fn legacy_type_key_reencodes_with_current_name() {
    let legacy = r#"{"slug":"s","type_s":"usage","metadata":null,"user_id":"u","invocation_id":"i","datetime":"d"}"#;
    let event = decode_event(legacy).unwrap();
    assert_eq!(event.type_s, "usage");
    let json = encode_event(&event);
    assert!(json.contains(r#""type":"usage""#));
    assert!(!json.contains("type_s"));
}

#[test]
fn escaped_fields_round_trip() {
    let mut event = Event::new(
        "a\"b\\c",
        "line\nbreak\ttab",
        "\"str with , and }\"".to_string(),
        "u",
        "i",
    );
    event.datetime = "d".to_string();
    let json = encode_event(&event);
    assert_eq!(json.matches('\n').count(), 0);
    let back = decode_event(&json).unwrap();
    assert_eq!(back.slug, event.slug);
    assert_eq!(back.type_s, event.type_s);
    assert_eq!(back.metadata, event.metadata);
}

#[test]
fn decode_rejects_garbage() {
    assert!(decode_event("not json at all").is_none());
    assert!(decode_event("{\"slug\": \"a\"}").is_none());
    assert!(decode_event("").is_none());
}

#[test]
fn pretty_encoding_shape() {
    let event = sample_event();
    let pretty = encode_event_pretty(&event);
    let expected = "{\n  \"slug\": \"test\",\n  \"type\": \"test\",\n  \"metadata\": null,\n  \"user_id\": \"test\",\n  \"invocation_id\": \"test\",\n  \"datetime\": \"test\"\n}";
    assert_eq!(pretty, expected);
}

#[test]
fn datetime_is_set_at_construction() {
    let event = Event::new("s", "t", "null".to_string(), "u", "i");
    assert!(!event.datetime.is_empty());
    assert!(!event.datetime.contains('"'));
    assert!(!event.datetime.contains('\n'));
}
