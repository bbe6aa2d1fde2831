use eventsdb::error::Error;
use eventsdb::json::Value;
use eventsdb::log::Filter;

fn json(text: &str) -> Value {
    Value::parse(text).expect("test literal is JSON")
}

#[test]
fn meta_pairs_accumulate_and_validate_as_scalars() {
    let filter = Filter::all()
        .meta("tenant", Value::text("a"))
        .meta("closed", Value::Bool(true));
    assert_eq!(
        filter.meta,
        Some(vec![
            ("tenant".to_string(), json(r#""a""#)),
            ("closed".to_string(), json("true")),
        ])
    );
    assert!(filter.validate().is_ok());
    assert!(
        !filter.selects_nothing(),
        "a meta pair is a condition, not a set"
    );
}

#[test]
fn a_null_or_structured_meta_value_fails_validation() {
    for value in [json("null"), json("[1]"), json(r#"{ "id": 1 }"#)] {
        let err = Filter::all().meta("k", value).validate().unwrap_err();
        assert!(matches!(err, Error::Validation(_)), "{}", err.to_string());
    }
}

#[test]
fn an_empty_meta_list_is_no_condition() {
    let mut filter = Filter::default();
    filter.meta = Some(Vec::new());
    assert!(!filter.selects_nothing());
    assert!(filter.validate().is_ok());
}

#[test]
fn a_prefix_is_a_condition_never_an_empty_selection() {
    for prefix in ["", "session-", "\u{10FFFF}"] {
        let filter = Filter::all().stream_prefix(prefix);
        assert_eq!(filter.stream_prefix.as_deref(), Some(prefix));
        assert!(!filter.selects_nothing(), "prefix {prefix:?}");
        assert!(filter.validate().is_ok(), "prefix {prefix:?}");
    }

    // The set still decides: an empty set selects nothing whatever the
    // prefix says, because the two are ANDed.
    let filter = Filter::all().streams(&[]).stream_prefix("a");
    assert!(filter.selects_nothing());
}

#[test]
fn stream_prefix_replaces_and_composes() {
    let filter = Filter::kinds(&["placed"])
        .streams(&["session-1"])
        .stream_prefix("sess")
        .stream_prefix("session-");
    assert_eq!(filter.stream_prefix.as_deref(), Some("session-"));
    assert_eq!(filter.streams, Some(vec!["session-1".to_string()]));
    assert_eq!(filter.kinds, Some(vec!["placed".to_string()]));
}

#[test]
fn an_empty_kind_set_selects_nothing_and_no_set_everything() {
    assert!(Filter::kinds(&[]).selects_nothing());
    assert!(!Filter::all().selects_nothing());
    assert!(Filter::all().selects_everything());
    assert!(!Filter::kinds(&["a"]).selects_everything());
    assert!(!Filter::all().stream("s").selects_everything());
    assert_eq!(
        Filter::all().stream("s").streams,
        Some(vec!["s".to_string()])
    );
}

#[test]
fn a_meta_refusal_names_the_key_and_the_type() {
    let error = Filter::all().meta("k", json("[1]")).validate().unwrap_err();
    let message = error.to_string();
    assert!(message.contains("k"), "{message}");
    assert!(message.contains("an array"), "{message}");
}
