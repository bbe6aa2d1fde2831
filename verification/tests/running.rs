use std::time::Duration;

use eventsdb::backup::{claim, copy_pages, Claim, Copied};
use eventsdb::error::Error;
use eventsdb::hatch::{
    authorize, denied, guarded, hex, is_read_only_pragma, is_reserved, map_denial, not_guarded,
    prepare_query, query_rows, sql_to_json, Action, Authorization, BoundParams, Cell,
    QueryOptions, Ran,
};
use eventsdb::json::{Number, Value};
use eventsdb::options::{OpenOptions, DEFAULT_BUSY_TIMEOUT, DEFAULT_POLL_INTERVAL};
use eventsdb::page::{Exhausted, Next, Pager, BATCH};
use eventsdb::params::Params;
use eventsdb::position::Position;
use eventsdb::project::{
    catch_up, check_complete, filter_for, lost, rebuild, run_once, with_batch, LiveRunners,
};
use eventsdb::read::Recorded;
use eventsdb::schema::{
    migrate, refuse_a_foreign_table, retry_pragmas, Rung, FIRST_PAUSE, LADDER, LONGEST_PAUSE,
    PRAGMAS, TARGET_USER_VERSION,
};
use eventsdb::shared::{
    backoff, classify, is_contention, map_isle, publish, reader, retry_after, Code,
    ThreadFailure,
};
use eventsdb::sql::SqlValue;
use eventsdb::trace::{clipped, refused};
use eventsdb::upcast::Current;

fn json(text: &str) -> Value {
    Value::parse(text).expect("test literal is JSON")
}

fn at(position: u64) -> Position {
    Position::new(position)
}

fn recorded(position: u64) -> Recorded {
    Recorded {
        position: at(position),
        stream: "s".to_string(),
        event: Current::from_upcasted(json(
            r#"{ "kind": "a", "seq": 1, "_schema_version": 1 }"#,
        ))
        .unwrap(),
    }
}

#[test]
fn a_full_page_is_followed_by_another_and_a_short_one_ends_a_replay() {
    let mut replay = Pager::new(at(0), Exhausted::End);
    assert!(!replay.wants_head());
    let full: Vec<Recorded> = (1..=BATCH as u64).map(recorded).collect();
    assert_eq!(replay.after_page(&full, None), Next::Read);
    assert_eq!(replay.cursor, at(256));
    assert_eq!(replay.after_page(&[recorded(300)], None), Next::End);
    assert_eq!(replay.cursor, at(300));
}

#[test]
fn a_subscription_waits_at_the_head_it_read_before_the_page() {
    let mut subscription = Pager::new(at(5), Exhausted::Wait);
    assert!(subscription.wants_head());
    assert_eq!(
        subscription.after_page(&[recorded(7)], Some(at(9))),
        Next::Wait
    );
    assert_eq!(subscription.cursor, at(9));
    assert_eq!(subscription.after_page(&[], Some(at(9))), Next::Wait);
    assert_eq!(subscription.cursor, at(9));
}

#[test]
fn a_short_batch_moves_the_cursor_to_the_head() {
    assert_eq!(run_once(at(2), at(9), &[recorded(4)], 256), Some(at(9)));
    assert_eq!(run_once(at(2), at(9), &[recorded(4)], 1), Some(at(4)));
    assert_eq!(run_once(at(9), at(9), &[], 256), None);
    assert_eq!(catch_up(3, 4), Some(7));
    assert_eq!(catch_up(3, 0), None);
    assert_eq!(with_batch(0), 1);
    assert_eq!(with_batch(7), 7);
}

#[test]
fn a_projection_reads_its_kinds_and_nothing_else() {
    assert!(filter_for(None).selects_everything());
    let filter = filter_for(Some(vec!["a".to_string()]));
    assert_eq!(filter.kinds, Some(vec!["a".to_string()]));
    assert!(!filter.selects_everything());
}

#[test]
fn a_fold_over_a_truncated_log_is_refused_unless_it_says_otherwise() {
    assert!(check_complete(false, at(5), at(5)).is_ok());
    assert!(matches!(
        check_complete(false, at(4), at(5)),
        Err(Error::Truncated {
            requested: 4,
            removed_up_to: 5
        })
    ));
    assert!(check_complete(true, at(4), at(5)).is_ok());
    assert!(rebuild(false, at(1)).is_err());
    assert_eq!(rebuild(true, at(1)).unwrap(), at(0));
    assert_eq!(rebuild(false, at(0)).unwrap(), at(0));
}

#[test]
fn a_second_runner_of_one_name_is_refused_until_the_first_is_dropped() {
    let mut live = LiveRunners::new();
    live.claim("totals").unwrap();
    live.claim("other").unwrap();
    assert!(matches!(live.claim("totals"), Err(Error::Unsupported(_))));
    live.release("totals");
    assert!(live.claim("totals").is_ok());
    assert!(live.claim("other").is_err());
    live.release("never");
    assert!(matches!(lost(), Error::Storage(_)));
}

#[test]
fn a_failure_of_a_statement_is_told_by_its_code() {
    let said = || "said".to_string();
    assert!(matches!(classify(Code::Busy, said()), Error::Busy(m) if m == "said"));
    assert!(matches!(classify(Code::Locked, said()), Error::Busy(_)));
    assert!(matches!(classify(Code::Interrupted, said()), Error::Timeout(_)));
    assert!(matches!(classify(Code::Other, said()), Error::Storage(_)));
    assert!(is_contention(Code::Locked));
    assert!(!is_contention(Code::Interrupted));
}

#[test]
fn a_failure_of_the_thread_is_told_apart() {
    assert!(map_isle(ThreadFailure::Sqlite(Code::Busy, String::new())).is_busy());
    assert!(
        matches!(map_isle(ThreadFailure::Timeout), Error::Timeout(m) if m == "the isle reported a deadline")
    );
    assert!(
        matches!(map_isle(ThreadFailure::Closed), Error::Storage(m) if m == "store is closed")
    );
    let other = |busy| ThreadFailure::Other {
        busy,
        message: "m".to_string(),
    };
    assert!(matches!(map_isle(other(true)), Error::Busy(_)));
    assert!(matches!(map_isle(other(false)), Error::Storage(_)));
}

#[test]
fn a_contended_write_backs_off_and_gives_up() {
    assert_eq!(backoff(1), 10);
    assert_eq!(backoff(4), 80);
    assert_eq!(backoff(64), u64::MAX);
    assert_eq!(retry_after(0, true), Some(10));
    assert_eq!(retry_after(3, true), Some(80));
    assert_eq!(retry_after(4, true), None);
    assert_eq!(retry_after(0, false), None);
}

#[test]
fn reads_go_to_the_readers_in_turn() {
    assert_eq!(reader(0, 2), Some(0));
    assert_eq!(reader(1, 2), Some(1));
    assert_eq!(reader(2, 2), Some(0));
    assert_eq!(reader(7, 0), None);
}

#[test]
fn the_published_position_never_goes_back() {
    assert_eq!(publish(at(5), at(7)), Some(at(7)));
    assert_eq!(publish(at(5), at(5)), None);
    assert_eq!(publish(at(5), at(3)), None);
}

#[test]
fn the_ladder_is_climbed_one_rung_at_a_time() {
    assert!(matches!(
        migrate(0, 0),
        Ok(Rung::Climb { look_for_foreign_tables: true, batch, version: 1 }) if batch == LADDER[0]
    ));
    assert!(matches!(
        migrate(4, 4),
        Ok(Rung::Climb { look_for_foreign_tables: false, batch, version: 5 }) if batch == LADDER[4]
    ));
    assert!(matches!(migrate(0, 5), Ok(Rung::Passed)));
    match migrate(0, 6) {
        Err(Error::Storage(message)) => assert_eq!(
            message,
            "database is at user_version 6, newer than this build's 5; \
             refusing to write to a schema this build does not know"
        ),
        other => panic!("{other:?}"),
    }
    let mut version: i64 = 0;
    for from in 0..TARGET_USER_VERSION as usize {
        if let Ok(Rung::Climb { version: next, .. }) = migrate(from, version) {
            version = next;
        }
    }
    assert_eq!(version, TARGET_USER_VERSION);
    assert!(LADDER[3].contains("trg_events_no_update"));
    assert!(PRAGMAS.contains("journal_mode = WAL"));
}

#[test]
fn a_table_of_the_ladders_name_is_refused_in_a_new_file() {
    let tables = |names: &[&str]| names.iter().map(|n| n.to_string()).collect::<Vec<_>>();
    assert!(refuse_a_foreign_table(&tables(&["sqlite_sequence", "mine"])).is_ok());
    match refuse_a_foreign_table(&tables(&["mine", "EVENTS", "retention"])) {
        Err(Error::Unsupported(message)) => {
            assert!(
                message.starts_with("the file holds a table named `EVENTS` that this crate did"),
                "{message}"
            )
        }
        other => panic!("{other:?}"),
    }
}

#[test]
fn opening_retries_within_the_timeout() {
    assert_eq!(
        retry_pragmas(FIRST_PAUSE, 5_000_000_000, 0, true),
        Some((FIRST_PAUSE, 2 * FIRST_PAUSE))
    );
    assert_eq!(
        retry_pragmas(LONGEST_PAUSE, 5_000_000_000, 4_999_999_990, true),
        Some((10, LONGEST_PAUSE))
    );
    assert_eq!(retry_pragmas(FIRST_PAUSE, 5, 5, true), None);
    assert_eq!(retry_pragmas(FIRST_PAUSE, 5_000_000_000, 0, false), None);
}

#[test]
fn a_backup_never_overwrites() {
    assert!(claim("b.db", Claim::Taken).is_ok());
    match claim("b.db", Claim::AlreadyExists) {
        Err(Error::Validation(message)) => {
            assert!(message.starts_with("`b.db` already exists, so the backup was not taken."))
        }
        other => panic!("{other:?}"),
    }
    match claim("b.db", Claim::Failed("denied".to_string())) {
        Err(Error::Storage(message)) => {
            assert_eq!(message, "could not create `b.db` for the backup: denied")
        }
        other => panic!("{other:?}"),
    }
}

#[test]
fn a_copy_that_did_not_finish_is_reported() {
    assert!(copy_pages("b.db", Copied::Done).is_ok());
    for contended in [Copied::Busy, Copied::Locked] {
        match copy_pages("b.db", contended) {
            Err(Error::Busy(message)) => {
                assert_eq!(message, "the backup to `b.db` could not take a lock")
            }
            other => panic!("{other:?}"),
        }
    }
    match copy_pages("b.db", Copied::Unfinished("More".to_string())) {
        Err(Error::Storage(message)) => assert_eq!(
            message,
            "the backup to `b.db` asked for every remaining page and SQLite answered More"
        ),
        other => panic!("{other:?}"),
    }
}

#[test]
fn a_refusal_has_a_name() {
    assert_eq!(
        refused(&Error::Truncated {
            requested: 0,
            removed_up_to: 1
        }),
        Some("truncated")
    );
    assert_eq!(
        refused(&Error::NotExported {
            up_to: 1,
            exported_through: 0
        }),
        Some("not_exported")
    );
    assert_eq!(
        refused(&Error::ConsumerBehind {
            consumer: "c".to_string(),
            cursor: 0,
            up_to: 1
        }),
        Some("consumer_behind")
    );
    assert_eq!(refused(&denied()), Some("denied"));
    assert_eq!(refused(&Error::Unsupported("else".to_string())), None);
    assert_eq!(refused(&Error::Busy(String::new())), None);
}

#[test]
fn a_statement_is_shown_by_its_first_characters() {
    let short = "会".repeat(256);
    assert_eq!(clipped(&short), short);
    assert_eq!(clipped(&"会".repeat(257)), format!("{short}…"));
}

#[test]
fn options_start_from_their_defaults() {
    let options = OpenOptions::default();
    assert_eq!(
        (options.busy_timeout, options.poll_interval, options.readers),
        (None, None, 2)
    );
    assert!(options.upcasters.is_empty());
    assert_eq!((DEFAULT_BUSY_TIMEOUT, DEFAULT_POLL_INTERVAL), (5000, 100));
    let (short, shorter) = (Duration::from_micros(1), Duration::from_nanos(2));
    let options = options
        .busy_timeout(short)
        .poll_interval(shorter)
        .readers(0)
        .upcasters(vec![]);
    assert_eq!(
        (options.busy_timeout, options.poll_interval, options.readers),
        (Some(short), Some(shorter), 0)
    );
}

#[test]
fn the_logs_own_tables_cannot_be_written() {
    for table_name in ["events", "Exports", "CHECKPOINTS", "sqlite_sequence"] {
        for action in [
            Action::Insert { table_name },
            Action::Delete { table_name },
            Action::Update { table_name },
            Action::DropTable { table_name },
            Action::AlterTable { table_name },
            Action::CreateTrigger { table_name },
            Action::DropIndex { table_name },
            Action::CreateTempTable { table_name },
            Action::CreateVtable { table_name },
            Action::CreateTempView {
                view_name: table_name,
            },
        ] {
            assert_eq!(authorize(&action, false), Authorization::Deny, "{action:?}");
            assert_eq!(authorize(&action, true), Authorization::Allow);
        }
        for action in [Action::Read { table_name }, Action::CreateIndex { table_name }] {
            assert_eq!(authorize(&action, false), Authorization::Allow, "{action:?}");
        }
    }
    assert_eq!(
        authorize(&Action::Insert { table_name: "mine" }, false),
        Authorization::Allow
    );
}

#[test]
fn a_pragma_is_read_and_not_set() {
    let pragma = |pragma_name, has_value| {
        authorize(
            &Action::Pragma {
                pragma_name,
                has_value,
            },
            false,
        )
    };
    assert_eq!(pragma("user_version", false), Authorization::Allow);
    assert_eq!(pragma("user_version", true), Authorization::Deny);
    assert_eq!(pragma("table_info", true), Authorization::Allow);
    assert_eq!(authorize(&Action::Attach, false), Authorization::Deny);
    assert_eq!(authorize(&Action::Detach, false), Authorization::Deny);
    assert_eq!(authorize(&Action::Other, false), Authorization::Allow);
    assert!(is_reserved("Stream_Seq"));
    assert!(is_read_only_pragma("INDEX_LIST"));
    assert!(!is_read_only_pragma("user_version"));
}

#[test]
fn a_denial_says_what_was_refused() {
    let mapped = map_denial(Error::storage("not authorized".to_string()));
    assert_eq!(mapped.to_string(), denied().to_string());
    assert!(
        mapped.to_string().contains(
            "writing events / stream_seq / checkpoints / retention / exports / sqlite_sequence"
        ),
        "{}",
        mapped.to_string()
    );
    assert!(matches!(
        map_denial(Error::storage("disk".to_string())),
        Error::Storage(_)
    ));
}

#[test]
fn a_guarded_call_reports_the_guard_first() {
    assert_eq!(guarded(None, Ran::Answered(3)).unwrap(), 3);
    assert!(matches!(
        guarded::<u8>(None, Ran::Failed(Error::storage("not authorized".to_string()))),
        Err(Error::Unsupported(_))
    ));
    assert_eq!(
        guarded::<u8>(None, Ran::Panicked(None)).unwrap_err().to_string(),
        "storage failure: the statement panicked: unknown"
    );
    assert_eq!(
        guarded(Some("x".to_string()), Ran::Answered(3))
            .unwrap_err()
            .to_string(),
        "storage failure: the authorizer could not be removed, so this connection now refuses every write: x"
    );
    assert_eq!(
        not_guarded("x").to_string(),
        "storage failure: could not install the authorizer: x"
    );
}

#[test]
fn a_statement_that_writes_is_not_run() {
    assert!(matches!(
        prepare_query(false, &vec![], &Params::Positional(vec![])),
        Err(Error::Unsupported(_))
    ));
}

#[test]
fn parameters_are_bound_by_their_json_type() {
    let params = Params::Positional(vec![
        json("null"),
        json("true"),
        json("-3"),
        json(r#""x""#),
        json("[1, 2]"),
    ]);
    match prepare_query(true, &vec![], &params).unwrap() {
        BoundParams::Positional(bound) => assert_eq!(
            bound,
            vec![
                SqlValue::Null,
                SqlValue::Integer(1),
                SqlValue::Integer(-3),
                SqlValue::Text("x".to_string()),
                SqlValue::Text("[1,2]".to_string()),
            ]
        ),
        other => panic!("{other:?}"),
    }
    let large = Params::Positional(vec![json("9223372036854775808")]);
    match prepare_query(true, &vec![], &large) {
        Err(Error::Validation(message)) => {
            assert!(message.starts_with("9223372036854775808 is above i64::MAX"), "{message}")
        }
        other => panic!("{other:?}"),
    }
}

#[test]
fn a_recorded_event_can_be_copied() {
    let one = recorded(3);
    let copy = one.clone();
    assert_eq!((copy.position, copy.stream), (one.position, one.stream));
    assert_eq!(copy.event, one.event);
}

#[test]
fn parameters_can_be_copied() {
    for params in [
        Params::Positional(vec![json("1"), json("[null]")]),
        Params::Named(vec![(":a".to_string(), json(r#""x""#))]),
    ] {
        assert_eq!(params.clone(), params);
    }
}

#[test]
fn every_declared_name_is_supplied() {
    let params = Params::Named(vec![(":a".to_string(), json("1"))]);
    let declared = |names: &[Option<&str>]| {
        names
            .iter()
            .map(|name| name.map(str::to_string))
            .collect::<Vec<_>>()
    };
    assert!(prepare_query(true, &declared(&[Some(":a")]), &params).is_ok());
    match prepare_query(true, &declared(&[Some(":a"), Some("@b")]), &params) {
        Err(Error::Validation(message)) => assert_eq!(
            message,
            "the statement declares the parameter `@b` and nothing was bound to it. \
             A name is the placeholder as written in the SQL, sigil included — `@b`, not `b`. \
             An unbound name would be read as NULL"
        ),
        other => panic!("{other:?}"),
    }
    match prepare_query(true, &declared(&[Some(":a"), None]), &params) {
        Err(Error::Validation(message)) => {
            assert!(message.starts_with("parameter 2 of this statement is positional"))
        }
        other => panic!("{other:?}"),
    }
}

#[test]
fn a_cell_becomes_json_or_is_refused() {
    let strict = |cell: Cell| sql_to_json(&cell, "c", false);
    assert_eq!(strict(Cell::Null).unwrap(), Value::Null);
    assert_eq!(strict(Cell::Integer(-2)).unwrap(), json("-2"));
    assert_eq!(
        strict(Cell::Text("会".as_bytes().to_vec())).unwrap(),
        Value::text("会")
    );
    match json("1.5") {
        Value::Number(Number::Real(real)) => {
            assert_eq!(strict(Cell::Real(real)).unwrap(), json("1.5"))
        }
        _ => unreachable!(),
    }
    for (cell, said) in [
        (Cell::Infinite { negative: true }, "column `c` holds a non-finite REAL"),
        (Cell::Text(vec![0xff]), "column `c` holds TEXT that is not valid UTF-8"),
        (Cell::Blob(vec![1]), "column `c` holds a BLOB"),
    ] {
        match strict(cell) {
            Err(Error::Unsupported(message)) => assert!(message.starts_with(said), "{message}"),
            other => panic!("{other:?}"),
        }
    }
}

#[test]
fn a_lossy_read_takes_what_sql_would_render() {
    let lossy = |cell: Cell| sql_to_json(&cell, "c", true).unwrap();
    assert_eq!(lossy(Cell::Infinite { negative: true }), Value::text("-Inf"));
    assert_eq!(lossy(Cell::Infinite { negative: false }), Value::text("Inf"));
    assert_eq!(lossy(Cell::Text(vec![b'a', 0xff])), Value::text("a\u{FFFD}"));
    assert_eq!(lossy(Cell::Blob(vec![0x0a, 0xff])), Value::text("0AFF"));
    assert_eq!(hex(&[0x00, 0xab]), "00AB");
    let options = QueryOptions::default().lossy(true).timeout(Duration::from_secs(1));
    assert_eq!((options.lossy, options.timeout), (true, Some(Duration::from_secs(1))));
}

#[test]
fn an_answer_is_rows_of_objects() {
    let names = vec!["a".to_string(), "b".to_string()];
    let rows = vec![
        vec![Cell::Integer(1), Cell::Text(b"x".to_vec())],
        vec![Cell::Null, Cell::Null],
    ];
    let objects = query_rows(&names, &rows, false).unwrap();
    assert_eq!(Value::Object(objects[0].clone()), json(r#"{ "a": 1, "b": "x" }"#));
    assert_eq!(
        Value::Object(objects[1].clone()),
        json(r#"{ "a": null, "b": null }"#)
    );
    assert!(query_rows(&names, &vec![vec![Cell::Null, Cell::Blob(vec![])]], false).is_err());
}
