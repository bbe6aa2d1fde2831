use std::sync::Arc;

use eventsdb::append;
use eventsdb::catalog::{
    self, ConsumerCheckpoint, ExportRecord, RetentionEntry, StreamInfo,
};
use eventsdb::error::Error;
use eventsdb::json::{Object, Value};
use eventsdb::log::Filter;
use eventsdb::position::{Committed, Position};
use eventsdb::read;
use eventsdb::retention::ExportReceipt;
use eventsdb::row::{self, RawRow, StoredRow};
use eventsdb::sql::{self, SqlValue, Statement};
use eventsdb::store::Expected;
use eventsdb::transfer::ExportedEvent;
use eventsdb::upcast::{UpcastChain, Upcaster};

fn json(text: &str) -> Value {
    Value::parse(text).expect("test literal is JSON")
}

fn object(text: &str) -> Object {
    match json(text) {
        Value::Object(object) => object,
        _ => panic!("test literal is an object"),
    }
}

fn text(s: &str) -> SqlValue {
    SqlValue::Text(s.to_string())
}

fn asks(statement: Statement, sql: &str, params: Vec<SqlValue>) {
    assert_eq!(statement.sql, sql);
    assert_eq!(statement.params, params);
}

fn refused(error: Error) -> String {
    match error {
        Error::Validation(message) => message,
        other => panic!("{other:?}"),
    }
}

#[test]
fn a_whole_read_is_a_cursor_and_a_limit() {
    let statement = read::select_stored(Position::new(7), &Filter::all(), 10)
        .unwrap()
        .unwrap();
    asks(
        statement,
        "SELECT position, stream, seq, epoch_ms, kind, schema_version, meta, data FROM events \
         WHERE position > ?1 ORDER BY position LIMIT ?2",
        vec![SqlValue::Integer(7), SqlValue::Integer(10)],
    );
}

#[test]
fn every_axis_of_a_filter_is_a_condition_in_order() {
    let filter = Filter::kinds(&["placed", "shipped"])
        .streams(&["a", "b"])
        .stream_prefix("sess")
        .meta("ten'ant", Value::text("x"))
        .meta("closed", Value::Bool(true));
    let statement = read::select_stored(Position::new(0), &filter, usize::MAX)
        .unwrap()
        .unwrap();
    asks(
        statement,
        "SELECT position, stream, seq, epoch_ms, kind, schema_version, meta, data FROM events \
         WHERE position > ?1 AND stream IN (?2, ?3) AND stream >= ?4 AND stream < ?5 \
         AND kind IN (?6, ?7) AND json_extract(meta, '$.\"ten''ant\"') = ?8 \
         AND json_type(meta, '$.\"ten''ant\"') = 'text' \
         AND json_extract(meta, '$.\"closed\"') = ?9 \
         AND json_type(meta, '$.\"closed\"') IN ('true', 'false') \
         ORDER BY position LIMIT ?10",
        vec![
            SqlValue::Integer(0),
            text("a"),
            text("b"),
            text("sess"),
            text("sest"),
            text("placed"),
            text("shipped"),
            text("x"),
            SqlValue::Integer(1),
            SqlValue::Integer(-1),
        ],
    );
}

#[test]
fn a_read_that_can_match_nothing_is_not_asked() {
    assert!(
        read::select_stored(Position::new(0), &Filter::kinds(&[]), 10)
            .unwrap()
            .is_none()
    );
    assert!(read::select_stored(Position::new(0), &Filter::all(), 0)
        .unwrap()
        .is_none());
}

#[test]
fn a_prefix_without_a_bound_is_an_open_range_and_the_empty_one_no_range() {
    let open = read::select_stored(Position::new(0), &Filter::all().stream_prefix("\u{10FFFF}"), 1)
        .unwrap()
        .unwrap();
    assert!(open.sql.contains("stream >= ?2 ORDER"), "{}", open.sql);
    let every = read::select_stored(Position::new(0), &Filter::all().stream_prefix(""), 1)
        .unwrap()
        .unwrap();
    assert!(!every.sql.contains("stream >="), "{}", every.sql);
}

#[test]
fn a_cursor_beyond_what_is_stored_is_refused() {
    let error = read::select_stored(Position::new(u64::MAX), &Filter::all(), 1).unwrap_err();
    assert_eq!(
        refused(error),
        "position 18446744073709551615 is beyond the range SQLite stores; \
         a position assigned by this store is always in range"
    );
}

#[test]
fn a_meta_key_sqlite_cannot_spell_is_refused() {
    for key in ["", "a\"b"] {
        let filter = Filter::all().meta(key, Value::text("x"));
        assert!(
            matches!(
                read::select_stored(Position::new(0), &filter, 1),
                Err(Error::Validation(_))
            ),
            "{key:?}"
        );
        assert!(matches!(read::index_meta(key, None), Err(Error::Validation(_))));
    }
}

#[test]
fn a_list_too_long_to_bind_is_refused() {
    let kinds: Vec<String> = (0..32767).map(|n| n.to_string()).collect();
    let mut filter = Filter::all();
    filter.kinds = Some(kinds);
    match read::select_stored(Position::new(0), &filter, 1) {
        Err(Error::Unsupported(message)) => assert_eq!(
            message,
            "32767 kinds in one statement, over SQLite's limit of 32766; \
             narrow the filter, or run it in batches"
        ),
        other => panic!("{other:?}"),
    }
}

#[test]
fn an_index_is_on_the_expression_the_filter_uses() {
    assert_eq!(
        read::index_meta("tenant", None).unwrap(),
        "CREATE INDEX IF NOT EXISTS events_meta_tenant ON events \
         (json_extract(meta, '$.\"tenant\"'), position)"
    );
    assert_eq!(read::meta_index_name("a.b"), "events_meta_x612e62");
    assert_eq!(read::meta_index_name("a_B9"), "events_meta_a_B9");
    assert_eq!(
        sql::meta_expr("a.b").unwrap(),
        "json_extract(meta, '$.\"a.b\"')"
    );
}

#[test]
fn an_index_whose_name_is_taken_gets_one_of_its_own() {
    asks(
        read::find_index("Tenant").unwrap(),
        "SELECT sql FROM sqlite_master WHERE type = 'index' AND name = ?1 COLLATE NOCASE",
        vec![text("events_meta_Tenant")],
    );
    let target = " ON events (json_extract(meta, '$.\"Tenant\"'), position)";
    let own = format!("CREATE INDEX events_meta_Tenant{target}");
    let other =
        "CREATE INDEX events_meta_tenant ON events (json_extract(meta, '$.\"tenant\"'), position)";
    for (kept, name) in [
        (None, "events_meta_Tenant"),
        (Some(own.as_str()), "events_meta_Tenant"),
        (Some(other), "events_metax54656e616e74"),
    ] {
        assert_eq!(
            read::index_meta("Tenant", kept).unwrap(),
            format!("CREATE INDEX IF NOT EXISTS {name}{target}")
        );
    }
    for key in ["", "a\"b"] {
        assert!(matches!(read::find_index(key), Err(Error::Validation(_))));
    }
}

#[test]
fn a_backslash_in_a_meta_key_is_doubled() {
    assert_eq!(
        sql::meta_expr("a\\b'\\").unwrap(),
        "json_extract(meta, '$.\"a\\\\b''\\\\\"')"
    );
}

#[test]
fn meta_values_are_bound_as_sqlite_extracts_them() {
    assert_eq!(sql::meta_param(&json("true")), SqlValue::Integer(1));
    assert_eq!(sql::meta_param(&json("-4")), SqlValue::Integer(-4));
    assert_eq!(
        sql::meta_param(&json("18446744073709551615")),
        SqlValue::Large(u64::MAX)
    );
    assert!(matches!(sql::meta_param(&json("1.5")), SqlValue::Real(_)));
    assert_eq!(sql::meta_param(&json("null")), SqlValue::Null);
}

#[test]
fn a_meta_condition_asks_for_the_json_type_too() {
    for (value, test) in [
        ("1", " IN ('integer', 'real')"),
        ("false", " IN ('true', 'false')"),
        (r#""x""#, " = 'text'"),
    ] {
        let filter = Filter::all().meta("k", json(value));
        let statement = read::select_stored(Position::new(0), &filter, 1)
            .unwrap()
            .unwrap();
        let expected = format!(
            "WHERE position > ?1 AND json_extract(meta, '$.\"k\"') = ?2 \
             AND json_type(meta, '$.\"k\"'){test} ORDER BY position LIMIT ?3"
        );
        assert!(statement.sql.ends_with(&expected), "{}", statement.sql);
    }
}

#[test]
fn listed_rows_can_be_copied() {
    let stream = StreamInfo::from_row("s".to_string(), 4);
    assert_eq!(stream.clone(), stream);
    let checkpoint = ConsumerCheckpoint::from_row("c".to_string(), 5, 6);
    assert_eq!(checkpoint.clone(), checkpoint);
    let entry = RetentionEntry::from_row(1, 2, "before:3".to_string(), 4, 5);
    assert_eq!(entry.clone(), entry);
}

#[test]
fn positions_are_ordered_as_their_numbers() {
    assert!(Position::new(1) < Position::new(2));
    assert!(Position::new(2) > Position::new(1));
    assert!(Position::beginning() <= Position::new(0));
    assert!(!(Position::new(7) < Position::new(7)));
    assert_eq!(Position::new(3).cmp(&Position::new(9)), std::cmp::Ordering::Less);
}

#[test]
fn a_stream_is_read_by_its_sequence() {
    let kinds = vec!["a".to_string()];
    asks(
        read::select_stream("s", Some(&kinds), 3, 5).unwrap(),
        "SELECT position, stream, seq, epoch_ms, kind, schema_version, meta, data FROM events \
         WHERE stream = ?1 AND seq >= ?2 AND kind IN (?3) ORDER BY seq LIMIT ?4",
        vec![
            text("s"),
            SqlValue::Integer(3),
            text("a"),
            SqlValue::Integer(5),
        ],
    );
    assert!(read::select_stream("s", Some(&Vec::new()), 0, 5).is_none());
    assert!(read::select_stream("s", None, i64::MAX as u64 + 1, 5).is_none());
    asks(
        read::select_last("s", 2),
        "SELECT position, stream, seq, epoch_ms, kind, schema_version, meta, data FROM events \
         WHERE stream = ?1 ORDER BY seq DESC LIMIT ?2",
        vec![text("s"), SqlValue::Integer(2)],
    );
}

#[test]
fn single_answers_are_asked_for_in_one_statement() {
    asks(
        read::head_position(),
        "SELECT COALESCE(MAX(position), 0) FROM events",
        vec![],
    );
    asks(
        read::stream_head("s"),
        "SELECT MAX(seq) FROM events WHERE stream = ?1",
        vec![text("s")],
    );
    asks(
        read::stream_len("s"),
        "SELECT COUNT(*) FROM events WHERE stream = ?1",
        vec![text("s")],
    );
    asks(
        read::load_checkpoint("c"),
        "SELECT position FROM checkpoints WHERE consumer = ?1",
        vec![text("c")],
    );
    assert_eq!(read::checkpoint_loaded(None), Position::new(0));
    assert_eq!(read::checkpoint_loaded(Some(4)), Position::new(4));
    assert_eq!(read::position_read(9), Position::new(9));
}

#[test]
fn a_checkpoint_is_written_over() {
    let statement = read::save_checkpoint("c", Position::new(4), 99).unwrap();
    asks(
        statement,
        "INSERT INTO checkpoints (consumer, position, updated_ms) VALUES (?1, ?2, ?3) \
         ON CONFLICT(consumer) DO UPDATE SET position = excluded.position, \
         updated_ms = excluded.updated_ms",
        vec![text("c"), SqlValue::Integer(4), SqlValue::Integer(99)],
    );
    assert!(read::save_checkpoint("c", Position::new(u64::MAX), 0).is_err());
}

fn raw(position: i64, meta: &str, data: &str) -> RawRow {
    RawRow {
        position,
        stream: "s".to_string(),
        seq: 2,
        epoch_ms: 3,
        kind: "noted".to_string(),
        schema_version: 1,
        meta: meta.to_string(),
        data: data.to_string(),
    }
}

fn stored(position: u64, event: &str) -> StoredRow {
    StoredRow {
        position,
        stream: "s".to_string(),
        event: json(event),
    }
}

#[test]
fn a_row_reads_as_the_event_it_was_written_from() {
    let read = row::read(raw(7, r#"{"t":"x"}"#, r#"{"n":1}"#)).unwrap();
    assert_eq!(
        read,
        stored(
            7,
            r#"{ "kind": "noted", "seq": 2, "epoch_ms": 3, "_schema_version": 1,
                 "meta": { "t": "x" }, "data": { "n": 1 } }"#
        )
    );
}

#[test]
fn a_column_that_will_not_parse_is_corruption() {
    let error = row::read(raw(7, "{", "{}")).unwrap_err();
    assert!(error.is_corruption());
    let message = error.to_string();
    assert!(
        message.starts_with(
            "stored data does not decode: event at position 7 has unparsable `meta`: "
        ),
        "{message}"
    );
    let error = row::read(raw(7, "{}", "nope")).unwrap_err();
    assert!(error.to_string().contains("`data`"));
}

#[test]
fn an_insert_binds_the_columns_of_a_stamped_event() {
    let event = object(
        r#"{ "kind": "noted", "seq": 2, "epoch_ms": 3, "_schema_version": 4,
             "meta": { "t": "x" }, "data": { "n": [1] } }"#,
    );
    asks(
        row::insert_stamped("s", &event).unwrap(),
        "INSERT INTO events (stream, seq, epoch_ms, kind, schema_version, meta, data) \
         VALUES (?1, ?2, ?3, ?4, ?5, ?6, ?7)",
        vec![
            text("s"),
            SqlValue::Integer(2),
            SqlValue::Integer(3),
            text("noted"),
            SqlValue::Integer(4),
            text(r#"{"t":"x"}"#),
            text(r#"{"n":[1]}"#),
        ],
    );
    assert_eq!(
        row::json_columns(&event),
        (r#"{"t":"x"}"#.to_string(), r#"{"n":[1]}"#.to_string())
    );
}

#[test]
fn an_event_without_its_coordinates_has_no_columns() {
    for (event, missing) in [
        (r#"{ "seq": 1, "epoch_ms": 1, "_schema_version": 1 }"#, "kind"),
        (r#"{ "kind": "a", "epoch_ms": 1, "_schema_version": 1 }"#, "seq"),
        (r#"{ "kind": "a", "seq": 1, "_schema_version": 1 }"#, "epoch_ms"),
        (r#"{ "kind": "a", "seq": 1, "epoch_ms": 1 }"#, "_schema_version"),
    ] {
        match row::envelope_columns(&object(event)) {
            Err(Error::Storage(message)) => {
                assert_eq!(message, format!("stamped event has no `{missing}`"))
            }
            other => panic!("{other:?}"),
        }
    }
}

struct Renamed;

impl Upcaster for Renamed {
    fn upcast(&self, event: Value) -> Value {
        match event {
            Value::Object(mut object) => {
                object.insert("kind".to_string(), Value::text("renamed"));
                Value::Object(object)
            }
            other => other,
        }
    }
}

const STORED: &str = r#"{ "kind": "noted", "seq": 2, "epoch_ms": 3, "_schema_version": 1,
                          "meta": {}, "data": {} }"#;

#[test]
fn a_page_is_upcasted_and_keeps_its_coordinates() {
    let chain: UpcastChain = vec![Arc::new(Renamed)];
    let page =
        read::select_recorded(&chain, vec![stored(7, STORED), stored(9, STORED)]).unwrap();
    assert_eq!(page.len(), 2);
    assert_eq!(page[0].position, Position::new(7));
    assert_eq!(page[1].position, Position::new(9));
    assert_eq!(page[0].stream, "s");
    assert_eq!(page[0].kind(), "renamed");
    assert_eq!(page[0].seq(), 2);
}

#[test]
fn one_bad_row_fails_the_page() {
    assert!(read::select_recorded(&[], vec![stored(7, STORED), stored(9, "{}")])
        .unwrap_err()
        .is_corruption());
    assert!(read::upcast_rows(&[], vec![stored(9, "{}")]).is_err());
    assert_eq!(
        read::upcast_rows(&[], vec![stored(9, STORED)]).unwrap()[0].kind(),
        "noted"
    );
}

#[test]
fn rows_read_newest_first_are_turned_round() {
    let rows = read::oldest_first(vec![stored(3, "{}"), stored(2, "{}"), stored(1, "{}")]);
    let positions: Vec<u64> = rows.iter().map(|row| row.position).collect();
    assert_eq!(positions, [1, 2, 3]);
}

#[test]
fn a_batch_is_numbered_from_the_counter_and_moves_it_on() {
    let batch = append::append_many(
        "s",
        Some(5),
        99,
        vec![object(r#"{ "kind": "a" }"#), object(r#"{ "kind": "b" }"#)],
    )
    .unwrap();
    let seqs: Vec<u64> = batch.inserts.iter().map(|insert| insert.seq).collect();
    assert_eq!(seqs, [5, 6]);
    assert_eq!(batch.counters.len(), 1);
    assert_eq!(
        batch.counters[0].sql,
        "INSERT INTO stream_seq (stream, next_seq) VALUES (?1, ?2) \
         ON CONFLICT(stream) DO UPDATE SET next_seq = excluded.next_seq"
    );
    assert_eq!(
        batch.counters[0].params,
        vec![text("s"), SqlValue::Integer(7)]
    );
    assert_eq!(
        batch.landed(&[40, 41]),
        vec![
            Committed {
                seq: 5,
                epoch_ms: 99,
                position: Some(Position::new(40))
            },
            Committed {
                seq: 6,
                epoch_ms: 99,
                position: Some(Position::new(41))
            },
        ]
    );
}

#[test]
fn an_unwritten_stream_starts_at_one() {
    assert_eq!(append::next_seq(None), 1);
    asks(
        append::counter("s"),
        "SELECT next_seq FROM stream_seq WHERE stream = ?1",
        vec![text("s")],
    );
    let batch = append::append_at("s", None, 42, object(r#"{ "kind": "a" }"#)).unwrap();
    assert_eq!(batch.inserts[0].seq, 1);
    assert_eq!(batch.inserts[0].epoch_ms, 42);
}

#[test]
fn a_refused_batch_writes_nothing() {
    let refused = append::append_many_at(
        "s",
        None,
        vec![
            (1, object(r#"{ "kind": "a" }"#)),
            (2, object(r#"{ "nope": 1 }"#)),
        ],
    );
    assert!(matches!(refused, Err(Error::Validation(_))));
    let nothing = append::append_many_at("s", None, vec![]).unwrap();
    assert!(nothing.inserts.is_empty() && nothing.counters.is_empty());
}

#[test]
fn a_head_check_is_held_against_the_counter() {
    assert!(append::check_head(Expected::Unwritten, None).is_ok());
    assert!(append::check_head(Expected::Last(4), Some(5)).is_ok());
    assert!(matches!(
        append::check_head(Expected::Unwritten, Some(5)),
        Err(Error::HeadMismatch {
            expected: Expected::Unwritten,
            actual: Expected::Last(4)
        })
    ));
    assert!(append::check_head(Expected::Last(3), Some(5)).is_err());
}

#[test]
fn a_decision_inside_the_write_sees_the_upcasted_stream() {
    let chain: UpcastChain = vec![Arc::new(Renamed)];
    let choice = append::append_if(&chain, vec![stored(1, STORED)], |seen| {
        assert_eq!(seen[0].kind(), "renamed");
        Some(object(r#"{ "kind": "next" }"#))
    })
    .unwrap();
    assert_eq!(choice, Some(object(r#"{ "kind": "next" }"#)));
    assert!(append::append_if(&chain, vec![], |_| None).unwrap().is_none());
    assert!(append::append_if(&chain, vec![], |_| Some(Object::new())).is_err());
}

fn exported(stream: &str, position: u64, seq: u64) -> ExportedEvent {
    let mut event = object(STORED);
    event.insert("seq".to_string(), Value::unsigned(seq));
    ExportedEvent {
        stream: stream.to_string(),
        position: Some(Position::new(position)),
        event,
    }
}

#[test]
fn an_import_carries_each_stream_on_from_its_counter() {
    let records = vec![
        exported("a", 1, 1),
        exported("b", 2, 1),
        exported("a", 3, 2),
    ];
    let streams = append::import_streams(&records);
    assert_eq!(streams, ["a", "b"]);
    let batch = append::import_many(&records, &streams, &vec![None, Some(10)]).unwrap();
    let seqs: Vec<u64> = batch.inserts.iter().map(|insert| insert.seq).collect();
    assert_eq!(seqs, [1, 10, 2]);
    assert_eq!(
        batch.counters[0].params,
        vec![text("a"), SqlValue::Integer(3)]
    );
    assert_eq!(
        batch.counters[1].params,
        vec![text("b"), SqlValue::Integer(11)]
    );
}

#[test]
fn an_import_into_an_empty_log_stores_each_event_again() {
    let records = vec![exported("a", 1, 1), exported("a", 2, 2)];
    let streams = append::import_streams(&records);
    let batch = append::import_many(&records, &streams, &vec![None]).unwrap();
    for (insert, record) in batch.inserts.iter().zip(&records) {
        assert_eq!(
            insert.statement,
            row::insert_stamped("a", &record.event).unwrap()
        );
    }
}

#[test]
fn a_record_that_cannot_be_stored_fails_the_import() {
    let mut bad = exported("a", 2, 2);
    bad.event.remove("epoch_ms");
    let records = vec![exported("a", 1, 1), bad];
    let streams = append::import_streams(&records);
    let error = append::import_many(&records, &streams, &vec![None]).unwrap_err();
    assert_eq!(refused(error), "a stored event must carry `epoch_ms`");
}

#[test]
fn a_commit_wakes_with_the_highest_position() {
    let at = |position: Option<u64>| Committed {
        seq: 1,
        epoch_ms: 1,
        position: position.map(Position::new),
    };
    assert_eq!(
        append::to_publish(&[at(Some(3)), at(Some(9)), at(None)]),
        Some(Position::new(9))
    );
    assert_eq!(append::to_publish(&[at(None)]), None);
    assert_eq!(append::to_publish(&[]), None);
}

#[test]
fn listings_page_by_their_ordering_key() {
    asks(
        catalog::streams(None, None, 10).unwrap(),
        "SELECT stream, next_seq FROM stream_seq ORDER BY stream LIMIT ?1",
        vec![SqlValue::Integer(10)],
    );
    asks(
        catalog::streams(Some("m"), Some("se"), 10).unwrap(),
        "SELECT stream, next_seq FROM stream_seq WHERE stream > ?1 AND stream >= ?2 \
         AND stream < ?3 ORDER BY stream LIMIT ?4",
        vec![text("m"), text("se"), text("sf"), SqlValue::Integer(10)],
    );
    asks(
        catalog::kinds(Some("a"), 1).unwrap(),
        "SELECT DISTINCT kind FROM events WHERE kind > ?1 ORDER BY kind LIMIT ?2",
        vec![text("a"), SqlValue::Integer(1)],
    );
    asks(
        catalog::checkpoints(None, 1).unwrap(),
        "SELECT consumer, position, updated_ms FROM checkpoints ORDER BY consumer LIMIT ?1",
        vec![SqlValue::Integer(1)],
    );
    asks(
        catalog::retention_ledger(Some(u64::MAX), 1).unwrap(),
        "SELECT id, applied_ms, plan, removed_count, highest_removed FROM retention \
         WHERE id > ?1 ORDER BY id LIMIT ?2",
        vec![SqlValue::Integer(i64::MAX), SqlValue::Integer(1)],
    );
    asks(
        catalog::export_receipts(Some(4), 1).unwrap(),
        "SELECT id, taken_ms, from_position, through, count, whole, landed_ms FROM exports \
         WHERE id > ?1 ORDER BY id LIMIT ?2",
        vec![SqlValue::Integer(4), SqlValue::Integer(1)],
    );
}

#[test]
fn an_empty_page_is_not_asked_for() {
    assert!(catalog::streams(None, None, 0).is_none());
    assert!(catalog::kinds(None, 0).is_none());
    assert!(catalog::checkpoints(None, 0).is_none());
    assert!(catalog::retention_ledger(None, 0).is_none());
    assert!(catalog::export_receipts(None, 0).is_none());
}

#[test]
fn listed_rows_read_as_what_they_say() {
    assert_eq!(StreamInfo::from_row("s".to_string(), 8).head_seq, 7);
    assert_eq!(StreamInfo::from_row("s".to_string(), -3).head_seq, 0);
    assert_eq!(
        ConsumerCheckpoint::from_row("c".to_string(), -1, 5),
        ConsumerCheckpoint {
            consumer: "c".to_string(),
            position: Position::new(0),
            updated_ms: 5
        }
    );
    assert_eq!(
        RetentionEntry::from_row(1, 2, "before:9".to_string(), 3, 9),
        RetentionEntry {
            id: 1,
            applied_ms: 2,
            plan: "before:9".to_string(),
            removed_count: 3,
            highest_removed: Position::new(9)
        }
    );
    let record = ExportRecord::from_row(1, 2, (3, 4), 5, 1, None);
    assert_eq!(
        record.receipt,
        ExportReceipt {
            id: 1,
            from: Position::new(3),
            through: Position::new(4),
            count: 5,
            whole: true
        }
    );
    assert!(!record.landed());
    assert!(ExportRecord::from_row(1, 2, (3, 4), 5, 0, Some(9)).landed());
    assert_eq!(catalog::position_of(12), Position::new(12));
}
