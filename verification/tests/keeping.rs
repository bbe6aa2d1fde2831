use eventsdb::error::Error;
use eventsdb::json::{Object, Value};
use eventsdb::log::Filter;
use eventsdb::position::{Committed, Position};
use eventsdb::retention::{
    completeness_from, confirm_export, confirmation_known, confirmed, export, exported_through,
    require_complete_from, watermark, Archive, ArchiveStep, Ask, Completeness, ExportReceipt,
    Guard, Plan, Report, Retention,
};
use eventsdb::row::StoredRow;
use eventsdb::sql::{SqlValue, Statement};
use eventsdb::transfer::{
    json_lines, ExportedEvent, ImportReport, JsonLinesSink, LogSink, SinkStep,
};

fn json(text: &str) -> Value {
    Value::parse(text).expect("test literal is JSON")
}

fn object(text: &str) -> Object {
    match json(text) {
        Value::Object(object) => object,
        _ => panic!("test literal is an object"),
    }
}

fn at(position: u64) -> Position {
    Position::new(position)
}

fn asks(statement: &Statement, sql: &str, params: Vec<SqlValue>) {
    assert_eq!(statement.sql, sql);
    assert_eq!(statement.params, params);
}

#[test]
fn a_plan_says_what_it_removes_and_how_it_is_recorded() {
    let before = Retention::begin(&Plan::Before(at(9)), Guard::Force, false).unwrap();
    asks(
        &before.measure(),
        "SELECT COUNT(*), MAX(position), COUNT(DISTINCT stream) FROM events WHERE position <= ?1",
        vec![SqlValue::Integer(9)],
    );
    let older = Retention::begin(&Plan::OlderThan(500), Guard::Force, false).unwrap();
    asks(
        &older.measure(),
        "SELECT COUNT(*), MAX(position), COUNT(DISTINCT stream) FROM events WHERE epoch_ms < ?1",
        vec![SqlValue::Integer(500)],
    );
    let plan = Plan::Streams(vec!["a".to_string(), "b".to_string()]);
    let streams = Retention::begin(&plan, Guard::Force, false).unwrap();
    asks(
        &streams.measure(),
        "SELECT COUNT(*), MAX(position), COUNT(DISTINCT stream) FROM events \
         WHERE stream IN (?1, ?2)",
        vec![
            SqlValue::Text("a".to_string()),
            SqlValue::Text("b".to_string()),
        ],
    );
    assert_eq!(Plan::Before(at(9)).describe(), "before:9");
    assert_eq!(Plan::OlderThan(500).describe(), "older_than:500");
    assert_eq!(plan.describe(), "streams:2");
}

#[test]
fn a_plan_over_no_stream_selects_nothing() {
    let none = Retention::begin(&Plan::Streams(vec![]), Guard::Force, false).unwrap();
    asks(
        &none.measure(),
        "SELECT COUNT(*), MAX(position), COUNT(DISTINCT stream) FROM events WHERE 0",
        vec![],
    );
}

#[test]
fn a_plan_that_cannot_be_bound_is_refused() {
    assert!(matches!(
        Retention::begin(&Plan::Before(at(u64::MAX)), Guard::Force, false),
        Err(Error::Validation(_))
    ));
    match Retention::begin(&Plan::OlderThan(u64::MAX), Guard::Force, false) {
        Err(Error::Validation(message)) => assert_eq!(
            message,
            "cutoff 18446744073709551615 is beyond the range SQLite stores as a timestamp"
        ),
        other => panic!("{other:?}"),
    }
    let many: Vec<String> = (0..32767).map(|n| n.to_string()).collect();
    assert!(matches!(
        Retention::begin(&Plan::Streams(many), Guard::Force, false),
        Err(Error::Unsupported(_))
    ));
}

#[test]
fn a_forced_plan_is_removed_and_written_down() {
    let mut retention = Retention::begin(&Plan::Before(at(9)), Guard::Force, false).unwrap();
    match retention.measured(3, Some(8), 2, 77) {
        Ask::Remove { delete, ledger } => {
            asks(
                &delete,
                "DELETE FROM events WHERE position <= ?1",
                vec![SqlValue::Integer(9)],
            );
            asks(
                &ledger,
                "INSERT INTO retention (applied_ms, plan, removed_count, highest_removed) \
                 VALUES (?1, ?2, ?3, ?4)",
                vec![
                    SqlValue::Integer(77),
                    SqlValue::Text("before:9".to_string()),
                    SqlValue::Integer(3),
                    SqlValue::Integer(8),
                ],
            );
        }
        other => panic!("{other:?}"),
    }
    assert_eq!(
        retention.removed(),
        Report {
            removed: 3,
            highest_removed: Some(at(8)),
            streams_affected: 2
        }
    );
}

#[test]
fn a_plan_that_matches_nothing_leaves_no_trace() {
    let mut retention =
        Retention::begin(&Plan::Before(at(9)), Guard::default(), false).unwrap();
    assert!(matches!(
        retention.measured(0, None, 0, 77),
        Ask::Finish(report) if report == Report::nothing()
    ));
}

#[test]
fn a_consumer_behind_is_named_rather_than_overrun() {
    let mut retention =
        Retention::begin(&Plan::Before(at(9)), Guard::default(), false).unwrap();
    match retention.measured(3, Some(8), 2, 77) {
        Ask::Behind(statement) => asks(
            &statement,
            "SELECT consumer, position FROM checkpoints WHERE position < ?1 \
             ORDER BY position LIMIT 1",
            vec![SqlValue::Integer(8)],
        ),
        other => panic!("{other:?}"),
    }
    match retention.behind(Some(("c".to_string(), 2)), 77) {
        Err(Error::ConsumerBehind {
            consumer,
            cursor,
            up_to,
        }) => assert_eq!((consumer.as_str(), cursor, up_to), ("c", 2, 8)),
        other => panic!("{other:?}"),
    }
}

#[test]
fn a_plan_past_the_exports_is_refused() {
    let mut retention = Retention::begin(&Plan::Before(at(9)), Guard::Exported, false).unwrap();
    match retention.measured(3, Some(8), 2, 77) {
        Ask::Receipts(statement) => asks(
            &statement,
            "SELECT from_position, through FROM exports WHERE landed_ms IS NOT NULL \
             AND whole = 1 ORDER BY from_position, through",
            vec![],
        ),
        other => panic!("{other:?}"),
    }
    assert!(matches!(
        retention.receipts(&[(0, 5), (6, 9)]),
        Err(Error::NotExported {
            up_to: 8,
            exported_through: 5
        })
    ));
}

#[test]
fn an_exported_plan_still_waits_for_its_consumers() {
    let mut retention = Retention::begin(&Plan::Before(at(9)), Guard::Exported, true).unwrap();
    retention.measured(3, Some(8), 2, 77);
    assert!(matches!(
        retention.receipts(&[(0, 5), (5, 9)]),
        Ok(Ask::Behind(_))
    ));
    match retention.behind(None, 77) {
        Ok(Ask::Remove { ledger, .. }) => assert_eq!(
            ledger.params[1],
            SqlValue::Text("archive-then-remove: before:9".to_string())
        ),
        other => panic!("{other:?}"),
    }
    assert_eq!(retention.removed().removed, 3);
}

#[test]
fn the_chain_of_receipts_stops_at_a_gap() {
    assert_eq!(exported_through(&[]), at(0));
    assert_eq!(exported_through(&[(0, 5), (5, 9)]), at(9));
    assert_eq!(exported_through(&[(0, 5), (3, 7)]), at(7));
    assert_eq!(exported_through(&[(0, 5), (6, 9)]), at(5));
    assert_eq!(exported_through(&[(1, 5)]), at(0));
}

#[test]
fn a_fold_below_the_watermark_is_refused() {
    assert_eq!(
        watermark().sql,
        "SELECT COALESCE(MAX(highest_removed), 0) FROM retention"
    );
    assert_eq!(completeness_from(at(5), at(5)), Completeness::Complete);
    assert!(completeness_from(at(5), at(5)).is_complete());
    assert_eq!(
        completeness_from(at(4), at(5)),
        Completeness::Incomplete {
            removed_up_to: at(5)
        }
    );
    assert!(require_complete_from(at(5), at(5)).is_ok());
    assert!(matches!(
        require_complete_from(at(4), at(5)),
        Err(Error::Truncated {
            requested: 4,
            removed_up_to: 5
        })
    ));
}

const STORED: &str = r#"{ "kind": "noted", "seq": 2, "epoch_ms": 3, "_schema_version": 1,
                          "meta": {}, "data": { "line": "a\nb" } }"#;

fn record(position: Option<u64>) -> ExportedEvent {
    ExportedEvent {
        stream: "s".to_string(),
        position: position.map(Position::new),
        event: object(STORED),
    }
}

#[test]
fn an_exported_page_is_the_stored_rows() {
    let rows = vec![StoredRow {
        position: 7,
        stream: "s".to_string(),
        event: json(STORED),
    }];
    assert_eq!(export(rows), vec![record(Some(7))]);
}

#[test]
fn a_receipt_says_what_was_handed_out() {
    let page = vec![record(Some(7)), record(Some(9))];
    let receipt = ExportReceipt::of_page(at(5), &Filter::all(), &page);
    assert_eq!(
        receipt,
        ExportReceipt {
            id: 0,
            from: at(5),
            through: at(9),
            count: 2,
            whole: true
        }
    );
    asks(
        &receipt.record(77).unwrap(),
        "INSERT INTO exports (taken_ms, from_position, through, count, whole, landed_ms) \
         VALUES (?1, ?2, ?3, ?4, ?5, NULL)",
        vec![
            SqlValue::Integer(77),
            SqlValue::Integer(5),
            SqlValue::Integer(9),
            SqlValue::Integer(2),
            SqlValue::Integer(1),
        ],
    );
    assert_eq!(receipt.numbered(4).id, 4);
    let empty = ExportReceipt::of_page(at(5), &Filter::kinds(&["a"]), &[]);
    assert_eq!((empty.through, empty.whole), (at(5), false));
    assert!(ExportReceipt::of_page(at(u64::MAX), &Filter::all(), &[])
        .record(0)
        .is_err());
}

#[test]
fn confirming_twice_is_one_confirmation() {
    asks(
        &confirm_export(4, 99).unwrap(),
        "UPDATE exports SET landed_ms = ?1 WHERE id = ?2 AND landed_ms IS NULL",
        vec![SqlValue::Integer(99), SqlValue::Integer(4)],
    );
    assert!(confirmed(4, 1).is_none());
    asks(
        &confirmed(4, 0).unwrap(),
        "SELECT 1 FROM exports WHERE id = ?1",
        vec![SqlValue::Integer(4)],
    );
    assert!(confirmation_known(4, true).is_ok());
    match confirmation_known(4, false) {
        Err(Error::Validation(message)) => assert_eq!(message, "no export receipt 4"),
        other => panic!("{other:?}"),
    }
    assert!(confirm_export(u64::MAX, 0).is_err());
}

#[test]
fn archiving_exports_until_the_plan_is_covered() {
    let mut archive = Archive::begin(at(2), at(6));
    assert_eq!(archive.next(), ArchiveStep::Export(at(2)));
    archive.landed(&ExportReceipt {
        id: 1,
        from: at(2),
        through: at(6),
        count: 4,
        whole: true,
    });
    assert_eq!(archive.next(), ArchiveStep::Retain);

    let mut emptied = Archive::begin(at(2), at(6));
    emptied.landed(&ExportReceipt {
        id: 2,
        from: at(2),
        through: at(2),
        count: 0,
        whole: true,
    });
    assert_eq!(emptied.next(), ArchiveStep::Retain);
}

#[test]
fn a_record_reads_back_from_its_json() {
    for position in [Some(7), None] {
        let record = record(position);
        let value = record.to_json();
        assert_eq!(ExportedEvent::from_json(value).unwrap(), record);
    }
    assert_eq!(
        record(None).to_json(),
        json(&format!(r#"{{ "stream": "s", "event": {} }}"#, json(STORED).render()))
    );
}

#[test]
fn a_null_position_is_no_position_and_an_unreadable_one_is_refused() {
    let event = json(STORED).render();
    let read = |position: &str| {
        ExportedEvent::from_json(json(&format!(
            r#"{{ "stream": "s", "position": {position}, "event": {event} }}"#
        )))
    };
    assert_eq!(read("null").unwrap().position, None);
    assert_eq!(read("3").unwrap().position, Some(at(3)));
    for position in ["-1", "1.5", "\"3\""] {
        match read(position) {
            Err(Error::Validation(message)) => assert_eq!(
                message,
                "`position` must be a non-negative integer, `null`, or absent"
            ),
            other => panic!("{other:?}"),
        }
    }
}

#[test]
fn a_record_without_its_parts_is_refused() {
    for (value, said) in [
        ("[]", "an exported record must be an object"),
        ("{}", "`stream` is required and must be a string"),
        (r#"{ "stream": "" }"#, "`stream` is required and must be a string"),
        (
            r#"{ "stream": "s", "event": 1 }"#,
            "`event` is required and must be an object",
        ),
        (r#"{ "stream": "s", "event": {} }"#, "`kind` is required"),
    ] {
        match ExportedEvent::from_json(json(value)) {
            Err(Error::Validation(message)) => assert_eq!(message, said),
            other => panic!("{other:?}"),
        }
    }
}

#[test]
fn a_page_of_lines_reads_back_with_a_line_splitter() {
    let page = vec![record(Some(7)), record(None)];
    let bytes = json_lines(&page);
    let text = String::from_utf8(bytes).unwrap();
    assert!(text.ends_with('\n'));
    let lines: Vec<&str> = text.lines().collect();
    assert_eq!(lines.len(), 2);
    let back: Vec<ExportedEvent> = lines
        .iter()
        .map(|line| ExportedEvent::from_json(json(line)).unwrap())
        .collect();
    assert_eq!(back, page);
    assert!(json_lines(&[]).is_empty());
}

#[test]
fn several_writes_read_back_as_one_file() {
    let pages = [vec![record(Some(1)), record(None)], vec![], vec![record(Some(7))]];
    let mut bytes = Vec::new();
    for page in &pages {
        bytes.extend(json_lines(page));
    }
    let text = String::from_utf8(bytes).unwrap();
    let back: Vec<ExportedEvent> = text
        .lines()
        .map(|line| ExportedEvent::from_json(json(line)).unwrap())
        .collect();
    assert_eq!(back, pages.concat());
}

#[test]
fn a_plan_can_be_copied() {
    let plan = Plan::Streams(vec!["a".to_string()]);
    assert_eq!(plan.clone().describe(), plan.describe());
    assert!(matches!(Plan::Before(at(3)).clone(), Plan::Before(position) if position == at(3)));
}

fn landed(position: u64) -> Committed {
    Committed {
        seq: 1,
        epoch_ms: 1,
        position: Some(at(position)),
    }
}

#[test]
fn an_import_says_whether_it_reproduced_the_log() {
    let same = ImportReport::landed(
        &[landed(1), landed(2)],
        &[record(Some(1)), record(Some(2))],
    );
    assert_eq!(
        same,
        ImportReport {
            imported: 2,
            first: Some(at(1)),
            last: Some(at(2)),
            reproduced_coordinates: true
        }
    );
    assert!(!ImportReport::landed(&[landed(1)], &[record(Some(2))]).reproduced_coordinates);
    assert!(!ImportReport::landed(&[landed(1)], &[record(None)]).reproduced_coordinates);
    assert_eq!(
        ImportReport::nothing(),
        ImportReport {
            imported: 0,
            first: None,
            last: None,
            reproduced_coordinates: true
        }
    );
}

#[test]
fn a_log_sink_keeps_one_answer_per_page() {
    let mut sink = LogSink::new("target");
    assert!(sink.reproduced_coordinates());
    assert_eq!(*sink.target(), "target");
    let answer = ImportReport::landed(&[landed(1)], &[record(Some(1))]);
    sink.took(1, answer);
    sink.took(0, ImportReport::nothing());
    let elsewhere = ImportReport::landed(&[landed(3)], &[record(Some(2))]);
    sink.took(1, elsewhere);
    assert_eq!(sink.reports(), [answer, elsewhere]);
    assert_eq!(sink.imported(), 2);
    assert!(!sink.reproduced_coordinates());
}

#[test]
fn a_line_sink_hands_its_writer_back() {
    let mut sink = JsonLinesSink::new(Vec::<u8>::new());
    sink.get_mut().extend_from_slice(b"x\n");
    assert_eq!(sink.get_ref(), b"x\n");
    assert_eq!(sink.into_inner(), b"x\n");
    assert_eq!(
        SinkStep::Writing.failure("disk full").to_string(),
        "storage failure: writing an export: disk full"
    );
    assert_eq!(
        SinkStep::Flushing.failure("disk full").to_string(),
        "storage failure: flushing an export: disk full"
    );
}
