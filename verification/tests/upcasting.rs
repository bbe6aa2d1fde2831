use std::sync::Arc;

use eventsdb::event::FIELD_KIND;
use eventsdb::json::{Object, Value};
use eventsdb::upcast::{apply_chain, currents, Current, UpcastChain, Upcaster};

struct RenameKind {
    from: &'static str,
    to: &'static str,
}

impl Upcaster for RenameKind {
    fn upcast(&self, event: Value) -> Value {
        match event {
            Value::Object(mut object) => {
                if object.get(FIELD_KIND) == Some(&Value::text(self.from)) {
                    object.insert(FIELD_KIND.to_string(), Value::text(self.to));
                }
                Value::Object(object)
            }
            other => other,
        }
    }
}

fn json(text: &str) -> Value {
    Value::parse(text).expect("test literal is JSON")
}

fn event(kind: &str) -> Value {
    let mut object = Object::new();
    object.insert("kind".to_string(), Value::text(kind));
    object.insert("seq".to_string(), Value::unsigned(1));
    Value::Object(object)
}

fn kind_of(value: &Value) -> Value {
    match value {
        Value::Object(object) => object.get(FIELD_KIND).unwrap().clone(),
        _ => Value::Null,
    }
}

#[test]
fn an_empty_chain_is_the_identity() {
    assert_eq!(apply_chain(&[], vec![event("noted")]), vec![event("noted")]);
}

#[test]
fn steps_compose_per_event_in_registration_order() {
    let chain: UpcastChain = vec![
        Arc::new(RenameKind { from: "a", to: "b" }),
        Arc::new(RenameKind { from: "b", to: "c" }),
    ];
    let out = apply_chain(&chain, vec![event("a")]);
    assert_eq!(kind_of(&out[0]), Value::text("c"));
}

#[test]
fn a_step_leaves_an_unrecognised_event_alone() {
    let chain: UpcastChain = vec![Arc::new(RenameKind { from: "a", to: "b" })];
    let out = apply_chain(&chain, vec![event("z")]);
    assert_eq!(kind_of(&out[0]), Value::text("z"));
}

#[test]
fn an_event_without_a_kind_after_upcasting_is_corruption() {
    let mut object = Object::new();
    object.insert("seq".to_string(), Value::unsigned(1));
    let error = Current::from_upcasted(Value::Object(object)).unwrap_err();
    assert!(
        error.is_corruption(),
        "a chain bug is not a failing disk: {}",
        error.to_string()
    );
}

#[test]
fn an_event_without_a_seq_after_upcasting_is_corruption() {
    let error = Current::from_upcasted(json(r#"{ "kind": "noted", "_schema_version": 1 }"#))
        .unwrap_err();
    assert!(
        error.is_corruption(),
        "a chain bug is not a failing disk: {}",
        error.to_string()
    );
}

#[test]
fn an_event_without_a_schema_version_after_upcasting_is_corruption() {
    let error = Current::from_upcasted(json(r#"{ "kind": "noted", "seq": 1 }"#)).unwrap_err();
    assert!(
        error.is_corruption(),
        "a chain bug is not a failing disk: {}",
        error.to_string()
    );
    assert!(
        error.to_string().contains("select on"),
        "{}",
        error.to_string()
    );
}

#[test]
fn what_is_not_an_object_after_upcasting_is_corruption() {
    assert!(Current::from_upcasted(json("[]")).unwrap_err().is_corruption());
}

#[test]
fn a_whole_event_reads_as_current() {
    let current =
        Current::from_upcasted(json(r#"{ "kind": "noted", "seq": 3, "_schema_version": 1 }"#))
            .unwrap();
    assert_eq!(current.kind(), "noted");
    assert_eq!(current.seq(), 3);
    assert_eq!(current.as_object().len(), 3);
    assert_eq!(current.into_inner().len(), 3);
}

#[test]
fn one_bad_event_fails_the_whole_read() {
    let good = r#"{ "kind": "noted", "seq": 3, "_schema_version": 1 }"#;
    assert_eq!(currents(vec![json(good), json(good)]).unwrap().len(), 2);
    assert!(currents(vec![json(good), json("{}")])
        .unwrap_err()
        .is_corruption());
}

#[test]
fn a_stamped_event_is_current_as_it_is() {
    let mut object = Object::new();
    object.insert("kind".to_string(), Value::text("noted"));
    let current = Current::assume_current(object);
    assert_eq!(current.kind(), "noted");
}
