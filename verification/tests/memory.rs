use std::sync::Arc;

use eventsdb::error::Error;
use eventsdb::json::{Object, Value};
use eventsdb::mem::MemEventStore;
use eventsdb::store::tail;
use eventsdb::upcast::{UpcastChain, Upcaster};

fn object(text: &str) -> Object {
    match Value::parse(text).expect("test literal is JSON") {
        Value::Object(object) => object,
        _ => panic!("test literal is an object"),
    }
}

fn event(kind: &str) -> Object {
    let mut object = Object::new();
    object.insert("kind".to_string(), Value::text(kind));
    object
}

#[test]
fn seq_starts_at_one_and_increases() {
    let mut store = MemEventStore::new("s");
    assert_eq!(store.append(event("a")).unwrap().seq, 1);
    assert_eq!(store.append(event("b")).unwrap().seq, 2);
    assert_eq!(store.head(), Some(2));
    assert_eq!(store.len(), 2);
}

#[test]
fn the_last_events_are_the_tail_of_all_of_them() {
    let mut store = MemEventStore::default();
    assert_eq!((store.stream_id(), store.len()), ("", 0));
    for kind in ["a", "b", "c"] {
        store.append(event(kind)).unwrap();
    }
    let all = store.read(0, usize::MAX).unwrap();
    for n in 0..5usize {
        let from = all.len().saturating_sub(n);
        assert_eq!(store.read_last(n).unwrap(), all[from..].to_vec(), "{n}");
    }
}

#[test]
fn a_decision_sees_what_a_read_gives_and_writes_as_an_append_does() {
    let mut store = MemEventStore::new("s");
    for kind in ["a", "b", "a"] {
        store.append(event(kind)).unwrap();
    }
    let read = store.read_kinds(Some(&["a"]), 0, usize::MAX).unwrap();
    let decided = store
        .append_if(Some(&["a"]), |seen| {
            assert_eq!(seen, read.as_slice());
            Some(event("c"))
        })
        .unwrap();
    assert_eq!(decided.unwrap().seq, 4);
    assert!(store.append_if(None, |_| None).unwrap().is_none());
    assert!(matches!(
        store.append_if(None, |_| Some(object(r#"{ "nope": 1 }"#))),
        Err(Error::Validation(_))
    ));
    assert_eq!(store.len(), 4);
}

#[test]
fn a_rejected_event_consumes_no_sequence_number() {
    let mut store = MemEventStore::new("s");
    store.append(event("a")).unwrap();
    assert!(store.append(object(r#"{ "nope": 1 }"#)).is_err());
    assert_eq!(store.append(event("b")).unwrap().seq, 2);
}

#[test]
fn a_batch_that_fails_validation_writes_none_of_itself() {
    let mut store = MemEventStore::new("s");
    let batch = vec![event("a"), object(r#"{ "nope": 1 }"#)];
    assert!(store.append_many(batch).is_err());
    assert_eq!(store.len(), 0);
}

#[test]
fn reads_filter_by_kind_and_limit_counts_what_came_back() {
    let mut store = MemEventStore::new("s");
    for kind in ["a", "b", "a", "b", "a"] {
        store.append(event(kind)).unwrap();
    }
    let read = store.read_kinds(Some(&["a"]), 0, 2).unwrap();
    assert_eq!(read.len(), 2);
    assert!(read.iter().all(|e| e.kind() == "a"));
    assert_eq!(read[0].seq(), 1);
    assert_eq!(read[1].seq(), 3);
}

#[test]
fn an_empty_kind_slice_selects_nothing() {
    let mut store = MemEventStore::new("s");
    store.append(event("a")).unwrap();
    assert!(store.read_kinds(Some(&[]), 0, 10).unwrap().is_empty());
}

#[test]
fn a_decision_sees_the_filtered_stream_and_may_write_nothing() {
    let mut store = MemEventStore::new("s");
    store.append(event("a")).unwrap();
    store.append(event("b")).unwrap();

    let refused = store
        .append_if(Some(&["a"]), |seen| {
            assert_eq!(seen.len(), 1);
            assert_eq!(seen[0].kind(), "a");
            None
        })
        .unwrap();
    assert!(refused.is_none());
    assert_eq!(store.len(), 2);

    let written = store
        .append_if(None, |seen| {
            let mut data = Object::new();
            data.insert("saw".to_string(), Value::unsigned(seen.len() as u64));
            let mut event = Object::new();
            event.insert("kind".to_string(), Value::text("c"));
            event.insert("data".to_string(), Value::Object(data));
            Some(event)
        })
        .unwrap();
    assert_eq!(written.unwrap().seq, 3);
}

#[test]
fn read_last_returns_the_end_in_seq_order() {
    let mut store = MemEventStore::new("s");
    for kind in ["a", "b", "c"] {
        store.append(event(kind)).unwrap();
    }
    let last = store.read_last(2).unwrap();
    assert_eq!(last.len(), 2);
    assert_eq!(last[0].kind(), "b");
    assert_eq!(last[1].kind(), "c");
}

#[test]
fn this_backend_assigns_no_global_position() {
    let mut store = MemEventStore::new("s");
    assert!(store.append(event("a")).unwrap().position.is_none());
}

#[test]
fn a_batch_is_numbered_on_from_the_head() {
    let mut store = MemEventStore::new("s");
    store.append(event("a")).unwrap();
    let committed = store.append_many(vec![event("b"), event("c")]).unwrap();
    assert_eq!(committed.iter().map(|c| c.seq).collect::<Vec<_>>(), [2, 3]);
    assert_eq!(store.stream_id(), "s");
}

#[test]
fn what_was_appended_is_read_back() {
    let mut store = MemEventStore::new("s");
    store
        .append(object(r#"{ "kind": "a", "meta": { "t": "x" }, "data": { "n": [1, null] } }"#))
        .unwrap();
    let read = store.read(0, usize::MAX).unwrap();
    assert_eq!(read.len(), 1);
    assert_eq!(
        read[0].as_object().get("data"),
        Some(&Value::parse(r#"{ "n": [1, null] }"#).unwrap())
    );
    assert_eq!(
        read[0].as_object().get("meta"),
        Some(&Value::parse(r#"{ "t": "x" }"#).unwrap())
    );
}

#[test]
fn an_empty_store_has_no_head() {
    let store = MemEventStore::new("s");
    assert_eq!(store.head(), None);
    assert!(store.is_empty());
    assert!(store.read(0, 10).unwrap().is_empty());
}

#[test]
fn a_decision_that_is_refused_writes_nothing() {
    let mut store = MemEventStore::new("s");
    let refused = store.append_if(None, |_| Some(Object::new()));
    assert!(matches!(refused, Err(Error::Validation(_))));
    assert!(store.is_empty());
}

struct Doubled;

impl Upcaster for Doubled {
    fn upcast(&self, event: Value) -> Value {
        match event {
            Value::Object(mut object) => {
                object.insert("data".to_string(), Value::text("now"));
                Value::Object(object)
            }
            other => other,
        }
    }
}

#[test]
fn reads_go_through_the_chain_and_select_the_stored_kind() {
    let chain: UpcastChain = vec![Arc::new(Doubled)];
    let mut store = MemEventStore::new("s").with_upcasters(chain);
    store.append(event("a")).unwrap();
    let read = store.read_kinds(Some(&["a"]), 0, 10).unwrap();
    assert_eq!(read[0].as_object().get("data"), Some(&Value::text("now")));
}

#[test]
fn the_tail_of_a_whole_read_is_its_end() {
    let mut store = MemEventStore::new("s");
    for kind in ["a", "b", "c"] {
        store.append(event(kind)).unwrap();
    }
    let last = tail(store.read(0, usize::MAX).unwrap(), 1);
    assert_eq!(last.len(), 1);
    assert_eq!(last[0].kind(), "c");
    assert_eq!(tail(store.read(0, usize::MAX).unwrap(), 7).len(), 3);
}
