use eventsdb::error::Error;
use eventsdb::event::{
    json_type, now_ms, restamp, stamp, to_epoch_ms, validate, validate_stored,
    CURRENT_SCHEMA_VERSION, FIELD_DATA, FIELD_EPOCH_MS, FIELD_META, FIELD_SCHEMA_VERSION,
    FIELD_SEQ,
};
use eventsdb::json::{Object, Value};

fn json(text: &str) -> Value {
    Value::parse(text).expect("test literal is JSON")
}

fn object(text: &str) -> Object {
    match json(text) {
        Value::Object(object) => object,
        _ => panic!("test literal is an object"),
    }
}

fn refused(checked: Result<(), Error>) -> String {
    match checked {
        Err(Error::Validation(message)) => message,
        other => panic!("not a refusal: {other:?}"),
    }
}

#[test]
fn a_kind_alone_is_a_valid_event() {
    assert!(validate(&object(r#"{ "kind": "noted" }"#)).is_ok());
}

#[test]
fn a_missing_kind_is_refused() {
    let error = validate(&object(r#"{ "data": {} }"#)).unwrap_err();
    assert!(matches!(error, Error::Validation(_)));
}

#[test]
fn an_unknown_top_level_key_is_refused_and_the_message_says_where_it_goes() {
    let error = validate(&object(r#"{ "kind": "noted", "amount": 3 }"#)).unwrap_err();
    let message = error.to_string();
    assert!(message.contains("amount"), "{message}");
    assert!(message.contains("data"), "{message}");
}

#[test]
fn a_nested_meta_value_is_refused() {
    let event = object(r#"{ "kind": "noted", "meta": { "nested": { "x": 1 } } }"#);
    let error = validate(&event).unwrap_err();
    assert!(
        error.to_string().contains("meta.nested"),
        "{}",
        error.to_string()
    );
}

#[test]
fn scalar_meta_values_pass() {
    let event = object(r#"{ "kind": "noted", "meta": { "s": "x", "n": 1, "b": true } }"#);
    assert!(validate(&event).is_ok());
}

#[test]
fn stamping_fills_defaults_and_store_written_fields() {
    let stamped = stamp(object(r#"{ "kind": "noted" }"#), 7, 1_700_000_000_000).unwrap();
    assert_eq!(stamped.get(FIELD_SEQ), Some(&json("7")));
    assert_eq!(stamped.get(FIELD_EPOCH_MS), Some(&json("1700000000000")));
    assert_eq!(
        stamped.get(FIELD_SCHEMA_VERSION),
        Some(&Value::unsigned(CURRENT_SCHEMA_VERSION))
    );
    assert_eq!(stamped.get(FIELD_META), Some(&json("{}")));
    assert_eq!(stamped.get(FIELD_DATA), Some(&json("{}")));
}

#[test]
fn a_rejected_event_is_not_stamped() {
    assert!(stamp(object(r#"{ "data": {} }"#), 1, 0).is_err());
}

#[test]
fn a_store_written_field_is_refused_from_a_caller() {
    for key in ["seq", "epoch_ms"] {
        let mut event = object(r#"{ "kind": "noted" }"#);
        event.insert(key.to_string(), Value::unsigned(1));
        assert!(matches!(validate(&event), Err(Error::Validation(_))), "{key}");
    }
}

#[test]
fn the_schema_version_is_the_authors() {
    let stamped = stamp(object(r#"{ "kind": "noted", "_schema_version": 3 }"#), 1, 2).unwrap();
    assert_eq!(stamped.get(FIELD_SCHEMA_VERSION), Some(&json("3")));
}

#[test]
fn a_stored_event_has_its_coordinates() {
    let stored = object(
        r#"{ "kind": "noted", "seq": 4, "epoch_ms": 5, "_schema_version": 1, "meta": {}, "data": {} }"#,
    );
    assert!(validate_stored(&stored).is_ok());
    for key in ["epoch_ms", "_schema_version"] {
        let mut missing = stored.clone();
        missing.remove(key);
        assert_eq!(
            refused(validate_stored(&missing)).contains(key),
            true,
            "{key}"
        );
    }
    let mut unplaced = stored.clone();
    unplaced.remove("seq");
    assert!(validate_stored(&unplaced).is_ok(), "`seq` is reassigned anyway");
}

#[test]
fn what_was_stamped_can_be_stored() {
    let stamped = stamp(
        object(r#"{ "kind": "noted", "meta": { "a": 1 }, "data": { "n": [1, 2] } }"#),
        1,
        9,
    )
    .unwrap();
    assert!(validate_stored(&stamped).is_ok());
    assert_eq!(stamped.get("meta"), Some(&json(r#"{ "a": 1 }"#)));
    assert_eq!(stamped.get("data"), Some(&json(r#"{ "n": [1, 2] }"#)));
    assert_eq!(stamped.get("kind"), Some(&json(r#""noted""#)));
}

#[test]
fn restamping_changes_the_sequence_number_and_nothing_else() {
    let stored = object(
        r#"{ "kind": "noted", "seq": 4, "epoch_ms": 5, "_schema_version": 2, "meta": { "t": "x" }, "data": { "n": 3 } }"#,
    );
    let moved = restamp(stored, 11).unwrap();
    assert_eq!(
        Value::Object(moved),
        json(
            r#"{ "kind": "noted", "seq": 11, "epoch_ms": 5, "_schema_version": 2, "meta": { "t": "x" }, "data": { "n": 3 } }"#
        )
    );
    assert!(restamp(object(r#"{ "kind": "noted" }"#), 1).is_err());
}

#[test]
fn a_refusal_names_the_type_it_found() {
    assert_eq!(json_type(&json("null")), "null");
    assert_eq!(json_type(&json("true")), "a boolean");
    assert_eq!(json_type(&json("1.5")), "a number");
    assert_eq!(json_type(&json(r#""x""#)), "a string");
    assert_eq!(json_type(&json("[]")), "an array");
    assert_eq!(json_type(&json("{}")), "an object");
}

#[test]
fn a_clock_before_the_epoch_reads_zero() {
    assert_eq!(to_epoch_ms(None), 0);
    assert_eq!(to_epoch_ms(Some(1_700_000_000_123)), 1_700_000_000_123);
}

#[test]
fn the_wall_clock_is_past_the_day_this_was_written() {
    assert!(now_ms() > 1_700_000_000_000);
}
