use eventsdb::error::Error;
use eventsdb::json::wire::{from_outside, to_outside};
use eventsdb::json::{Negative, Number, Object, Value};
use eventsdb::params::Params;
use eventsdb::position::Position;
use eventsdb::store::{decline, Ability, Expected};
use eventsdb::text;

fn json(text: &str) -> Value {
    Value::parse(text).expect("test literal is JSON")
}

#[test]
fn an_object_keeps_one_value_per_key_in_text_order() {
    let mut object = Object::new();
    assert!(object.is_empty());
    assert_eq!(object.insert("b".to_string(), Value::unsigned(1)), None);
    assert_eq!(object.insert("a".to_string(), Value::Null), None);
    assert_eq!(
        object.insert("b".to_string(), Value::unsigned(2)),
        Some(Value::unsigned(1))
    );
    assert_eq!(object.len(), 2);
    assert_eq!(object.key_at(0), "a");
    assert_eq!(object.key_at(1), "b");
    assert_eq!(object.value_at(1), &Value::unsigned(2));
    assert!(object.contains_key("a"));
    assert_eq!(object.remove("a"), Some(Value::Null));
    assert_eq!(object.remove("a"), None);
    assert_eq!(object.get("a"), None);
}

#[test]
fn a_value_is_read_from_its_text() {
    let text = r#"{"a":[1,-2,"x\n",true,null],"b":{"c":{}}}"#;
    let value = json(text);
    assert_eq!(value.render(), text);
    assert_eq!(json(&value.render()), value);
}

#[test]
fn keys_are_written_in_text_order() {
    assert_eq!(json(r#"{ "b": 1, "a": 2 }"#).render(), r#"{"a":2,"b":1}"#);
}

#[test]
fn a_text_that_is_not_json_says_what_is_wrong_with_it() {
    let said = Value::parse("{").unwrap_err();
    assert!(said.contains("EOF"), "{said}");
    assert!(Value::parse("").is_err());
}

#[test]
fn a_value_too_deep_is_not_read() {
    let deep = |n: usize| format!("{}{}", "[".repeat(n), "]".repeat(n));
    assert!(Value::parse(&deep(127)).is_ok());
    assert!(Value::parse(&deep(128)).is_err());
}

#[test]
fn numbers_keep_their_kind() {
    assert_eq!(json("7"), Value::Number(Number::PosInt(7)));
    assert_eq!(
        json("18446744073709551615"),
        Value::Number(Number::PosInt(u64::MAX))
    );
    assert_eq!(json("-7"), Value::Number(Number::from_i64(-7)));
    assert!(matches!(json("1.5"), Value::Number(Number::Real(_))));
    assert_eq!(json("1.5").render(), "1.5");
    assert_eq!(Number::from_i64(3), Number::PosInt(3));
    assert_eq!(Number::from_i64(-3).as_i64(), Some(-3));
    assert_eq!(Number::PosInt(u64::MAX).as_i64(), None);
    assert!(Negative::new(0).is_none());
    assert_eq!(Negative::new(-1).map(|n| n.get()), Some(-1));
}

#[test]
fn a_value_crosses_to_the_other_representation_and_back() {
    let value = json(r#"{"a":[1,-2,2.5,"x",false,null],"b":{"c":18446744073709551615}}"#);
    let outside = to_outside(&value);
    assert_eq!(outside["b"]["c"].as_u64(), Some(u64::MAX));
    assert_eq!(outside["a"][2].as_f64(), Some(2.5));
    assert_eq!(from_outside(outside), value);
}

#[test]
fn a_real_hands_out_its_number() {
    match json("2.5") {
        Value::Number(Number::Real(real)) => assert_eq!(real.as_number().as_f64(), Some(2.5)),
        other => panic!("{other:?}"),
    }
}

#[test]
fn values_answer_what_they_are() {
    assert_eq!(json("3").as_u64(), Some(3));
    assert_eq!(json("-3").as_u64(), None);
    assert!(json("3").is_u64());
    assert!(!json("1.5").is_u64());
    assert_eq!(json(r#""x""#).as_str(), Some("x"));
    assert!(json("{}").is_object());
    assert_eq!(Value::empty_object(), json("{}"));
}

#[test]
fn numbers_are_written_in_decimal() {
    assert_eq!(text::decimal(0), "0");
    assert_eq!(text::decimal(u64::MAX), "18446744073709551615");
    assert_eq!(text::signed_decimal(-120), "-120");
    assert_eq!(text::signed_decimal(i64::MIN), "-9223372036854775808");
    assert_eq!(text::signed_decimal(5), "5");
}

#[test]
fn texts_are_compared_by_their_bytes() {
    assert!(text::precedes("a", "b"));
    assert!(text::precedes("a", "ab"));
    assert!(!text::precedes("a", "a"));
    assert!(text::precedes("z", "会"));
    assert!(text::precedes("\u{FFFF}", "\u{10000}"));
    assert!(text::same("会話", "会話"));
    assert!(!text::same("会話", "会"));
}

#[test]
fn texts_are_taken_apart_and_put_together() {
    assert_eq!(text::chars_of("a会"), vec!['a', '会']);
    assert_eq!(text::text_of(&['a', '会']), "a会");
    assert_eq!(text::join(&["a", "b", "c"], ", "), "a, b, c");
    assert_eq!(text::join(&[], ", "), "");
    assert_eq!(text::cat5("a", "b", "c", "d", "e"), "abcde");
    assert!(text::occurs_in("bc", "abcd"));
    assert!(!text::occurs_in("bd", "abcd"));
    assert!(text::begins_with("abc", "ab"));
    assert!(!text::begins_with("abc", "bc"));
    assert!(text::agree_ignoring_case("EVENTS", "events"));
    assert!(!text::agree_ignoring_case("event", "events"));
    assert!(!text::agree_ignoring_case("É", "é"));
    assert!(text::listed("b", &["a", "b"]));
    assert!(!text::listed("c", &["a", "b"]));
}

#[test]
fn each_failure_is_reported_in_words() {
    let cases: Vec<(Error, &str)> = vec![
        (Error::validation("x".to_string()), "invalid event: x"),
        (Error::Busy("x".to_string()), "store busy: x"),
        (Error::Timeout("x".to_string()), "exceeded the deadline: x"),
        (Error::storage("x".to_string()), "storage failure: x"),
        (
            Error::corruption("x".to_string()),
            "stored data does not decode: x",
        ),
        (
            Error::Unsupported("x".to_string()),
            "unsupported by this backend: x",
        ),
        (
            Error::Truncated {
                requested: 2,
                removed_up_to: 9,
            },
            "history at or below position 9 has been removed; reading from 2 would be incomplete",
        ),
        (
            Error::HeadMismatch {
                expected: Expected::Unwritten,
                actual: Expected::Last(4),
            },
            "stream head is Seq(4), not the expected Unwritten",
        ),
        (
            Error::ConsumerBehind {
                consumer: "c".to_string(),
                cursor: 1,
                up_to: 5,
            },
            "retention would remove up to position 5, past consumer `c` at 1",
        ),
        (
            Error::NotExported {
                up_to: 5,
                exported_through: 3,
            },
            "retention would remove up to position 5, but confirmed exports reach only 3",
        ),
    ];
    for (error, said) in cases {
        assert_eq!(error.to_string(), said);
    }
}

#[test]
fn a_failure_says_what_a_caller_can_do_about_it() {
    assert!(Error::Busy(String::new()).is_busy());
    assert!(!Error::Timeout(String::new()).is_busy());
    assert!(Error::Timeout(String::new()).is_timeout());
    assert!(Error::corruption(String::new()).is_corruption());
    assert!(!Error::storage(String::new()).is_corruption());
}

#[test]
fn a_position_is_stored_where_it_fits() {
    assert_eq!(Position::beginning().get(), 0);
    assert_eq!(Position::new(7).as_stored(), Some(7));
    assert_eq!(
        Position::new(i64::MAX as u64).as_stored(),
        Some(i64::MAX)
    );
    assert_eq!(Position::new(i64::MAX as u64 + 1).as_stored(), None);
    assert_eq!(Position::new(12).to_string(), "12");
    assert_eq!(Position::new(1).max_of(Position::new(2)), Position::new(2));
    assert!(Position::new(1) < Position::new(2));
}

#[test]
fn parameters_come_from_lists_pairs_and_objects() {
    assert_eq!(
        Params::from(vec![json("1")]),
        Params::Positional(vec![json("1")])
    );
    assert_eq!(
        Params::from(vec![(":a".to_string(), json("1"))]),
        Params::Named(vec![(":a".to_string(), json("1"))])
    );
    match json(r#"{ ":b": 2, ":a": 1 }"#) {
        Value::Object(object) => assert_eq!(
            Params::from_object(&object),
            Params::Named(vec![
                (":a".to_string(), json("1")),
                (":b".to_string(), json("2"))
            ])
        ),
        _ => unreachable!(),
    }
}

#[test]
fn a_backend_declines_what_it_cannot_do() {
    let cases = [
        (
            Ability::AppendAt,
            "this store cannot record an event at a time other than now",
        ),
        (
            Ability::AppendExpecting,
            "this store cannot make a head check and an append one write",
        ),
        (
            Ability::DetachAppend,
            "this store cannot accept a write it is not awaited for",
        ),
        (
            Ability::Query,
            "this store is not a database and cannot answer SQL",
        ),
        (
            Ability::QueryTimeout,
            "this store cannot bound how long a statement runs",
        ),
        (
            Ability::Export,
            "this log cannot hand over its stored events",
        ),
        (
            Ability::Import,
            "this log cannot take in exported events as one write",
        ),
    ];
    for (ability, said) in cases {
        assert!(matches!(decline(ability), Error::Unsupported(m) if m == said));
    }
}
