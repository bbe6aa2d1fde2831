use eventsdb::catalog;
use eventsdb::hatch::{prepare_query, BoundParams};
use eventsdb::json::{Object, Value};
use eventsdb::log::Filter;
use eventsdb::page::{Exhausted, Pager, BATCH};
use eventsdb::params::Params;
use eventsdb::position::Position;
use eventsdb::read::{self, Recorded};
use eventsdb::retention::{
    confirm_export, confirmation_known, confirmed, exported_through, landed_receipts,
    ExportReceipt,
};
use eventsdb::schema::LADDER;
use eventsdb::sql::{meta_expr, SqlValue, Statement};
use eventsdb::upcast::Current;
use rusqlite::Connection;

fn json(text: &str) -> Value {
    Value::parse(text).expect("test literal is JSON")
}

fn bound(statement: &Statement) -> Vec<rusqlite::types::Value> {
    statement
        .params
        .iter()
        .map(|param| match param {
            SqlValue::Null => rusqlite::types::Value::Null,
            SqlValue::Integer(i) => rusqlite::types::Value::Integer(*i),
            SqlValue::Real(real) => {
                rusqlite::types::Value::Real(real.as_number().as_f64().unwrap())
            }
            SqlValue::Large(n) => rusqlite::types::Value::Real(*n as f64),
            SqlValue::Text(text) => rusqlite::types::Value::Text(text.clone()),
        })
        .collect()
}

fn database() -> Connection {
    let conn = Connection::open_in_memory().unwrap();
    for batch in LADDER {
        conn.execute_batch(batch).unwrap();
    }
    conn
}

fn put(conn: &Connection, seq: i64, meta: &str) {
    conn.execute(
        "INSERT INTO events (stream, seq, epoch_ms, kind, schema_version, meta, data) \
         VALUES ('s', ?1, 1, 'k', 1, ?2, '{}')",
        (seq, meta),
    )
    .unwrap();
}

fn selected(conn: &Connection, filter: &Filter) -> Vec<i64> {
    let statement = read::select_stored(Position::beginning(), filter, 100)
        .unwrap()
        .unwrap();
    let mut prepared = conn.prepare(&statement.sql).unwrap();
    let rows = prepared
        .query_map(rusqlite::params_from_iter(bound(&statement)), |row| {
            row.get::<_, i64>(0)
        })
        .unwrap();
    rows.map(|row| row.unwrap()).collect()
}

#[test]
fn a_number_matches_the_same_number_and_a_boolean_the_same_boolean() {
    let conn = database();
    let metas = [
        r#"{"v":true}"#,
        r#"{"v":1}"#,
        r#"{"v":false}"#,
        r#"{"v":0}"#,
        r#"{"v":"1"}"#,
        r#"{"v":1.5}"#,
        r#"{"v":18446744073709551615}"#,
        r#"{"w":1}"#,
    ];
    for (i, meta) in metas.iter().enumerate() {
        put(&conn, i as i64 + 1, meta);
    }
    for (asked, expected) in [
        ("true", 1),
        ("1", 2),
        ("false", 3),
        ("0", 4),
        (r#""1""#, 5),
        ("1.5", 6),
        ("18446744073709551615", 7),
    ] {
        let filter = Filter::all().meta("v", json(asked));
        assert_eq!(selected(&conn, &filter), vec![expected], "{asked}");
    }
    let none = Filter::all().meta("v", json("2"));
    assert_eq!(selected(&conn, &none), Vec::<i64>::new());
}

fn index(conn: &Connection, key: &str) {
    let find = read::find_index(key).unwrap();
    let mut prepared = conn.prepare(&find.sql).unwrap();
    let kept: Vec<String> = prepared
        .query_map(rusqlite::params_from_iter(bound(&find)), |row| row.get(0))
        .unwrap()
        .map(|row| row.unwrap())
        .collect();
    let sql = read::index_meta(key, kept.first().map(String::as_str)).unwrap();
    conn.execute_batch(&sql).unwrap();
}

#[test]
fn a_filter_reaches_the_key_as_it_was_written() {
    let conn = database();
    let keys = [
        "a\\b", "a\\", "\\", "a\\\\b", "ab", "a\nb", "a\\nb", "it's", "a.b", "a[0]",
        "é\\é", "$", "\u{1}",
    ];
    for (i, key) in keys.iter().enumerate() {
        let mut meta = Object::new();
        meta.insert(key.to_string(), json("1"));
        put(&conn, i as i64 + 1, &Value::Object(meta).render());
    }
    for (i, key) in keys.iter().enumerate() {
        let filter = Filter::all().meta(key, json("1"));
        assert_eq!(selected(&conn, &filter), vec![i as i64 + 1], "{key:?}");
        index(&conn, key);
        assert_eq!(selected(&conn, &filter), vec![i as i64 + 1], "{key:?}");
    }
}

#[test]
fn a_filtered_read_uses_the_index_on_its_key() {
    let conn = database();
    index(&conn, "tenant");
    let statement = read::select_stored(
        Position::beginning(),
        &Filter::all().meta("tenant", Value::text("a")),
        10,
    )
    .unwrap()
    .unwrap();
    let mut plan = conn
        .prepare(&format!("EXPLAIN QUERY PLAN {}", statement.sql))
        .unwrap();
    let lines: Vec<String> = plan
        .query_map(rusqlite::params_from_iter(bound(&statement)), |row| row.get(3))
        .unwrap()
        .map(|row| row.unwrap())
        .collect();
    assert!(
        lines.iter().any(|line| line.contains("events_meta_tenant")),
        "{lines:?}"
    );
}

#[test]
fn every_key_gets_an_index_of_its_own() {
    let conn = database();
    let keys = ["x2e", ".", "tenant", "Tenant", "TENANT", "a b", "a_b", "é"];
    for round in 0..2 {
        for key in keys {
            index(&conn, key);
        }
        let mut prepared = conn
            .prepare("SELECT sql FROM sqlite_master WHERE name LIKE 'events_meta%'")
            .unwrap();
        let kept: Vec<String> = prepared
            .query_map([], |row| row.get(0))
            .unwrap()
            .map(|row| row.unwrap())
            .collect();
        assert_eq!(kept.len(), keys.len(), "{round}");
        for key in keys {
            let target = format!(" ON events ({}, position)", meta_expr(key).unwrap());
            let on_it = kept.iter().filter(|sql| sql.ends_with(&target)).count();
            assert_eq!(on_it, 1, "{key}");
        }
    }
    for (key, name) in [
        ("x2e", "events_meta_x2e"),
        (".", "events_metax2e"),
        ("tenant", "events_meta_tenant"),
        ("Tenant", "events_metax54656e616e74"),
    ] {
        let found: i64 = conn
            .query_row(
                "SELECT COUNT(*) FROM sqlite_master WHERE name = ?1 AND instr(sql, ?2)",
                (name, meta_expr(key).unwrap()),
                |row| row.get(0),
            )
            .unwrap();
        assert_eq!(found, 1, "{key}");
    }
}

#[test]
fn a_subscription_is_safe_under_removal() {
    let conn = database();
    let mut pager = Pager::new(Position::beginning(), Exhausted::Wait);
    let mut handed: Vec<i64> = Vec::new();
    let mut look = |conn: &Connection| {
        let head: i64 = conn
            .query_row(&read::head_position().sql, [], |row| row.get(0))
            .unwrap();
        let statement = read::select_stored(pager.cursor, &Filter::all(), BATCH)
            .unwrap()
            .unwrap();
        let mut prepared = conn.prepare(&statement.sql).unwrap();
        let found: Vec<i64> = prepared
            .query_map(rusqlite::params_from_iter(bound(&statement)), |row| row.get(0))
            .unwrap()
            .map(|row| row.unwrap())
            .collect();
        let page: Vec<Recorded> = found
            .iter()
            .map(|position| Recorded {
                position: Position::new(*position as u64),
                stream: "s".to_string(),
                event: Current::assume_current(Object::new()),
            })
            .collect();
        pager.after_page(&page, Some(read::position_read(head)));
        handed.extend(found);
        handed.clone()
    };
    for seq in 1..=3 {
        put(&conn, seq, "{}");
    }
    assert_eq!(look(&conn), vec![1, 2, 3]);
    put(&conn, 4, "{}");
    put(&conn, 5, "{}");
    conn.execute("DELETE FROM events WHERE position IN (2, 4)", []).unwrap();
    assert_eq!(look(&conn), vec![1, 2, 3, 5]);
    conn.execute("DELETE FROM events", []).unwrap();
    assert_eq!(look(&conn), vec![1, 2, 3, 5]);
    put(&conn, 6, "{}");
    assert_eq!(look(&conn), vec![1, 2, 3, 5, 6]);
}

#[test]
fn a_name_that_matches_no_placeholder_is_refused() {
    let conn = Connection::open_in_memory().unwrap();
    let statement = conn.prepare("SELECT :a AS x").unwrap();
    let declared: Vec<Option<String>> = (1..=statement.parameter_count())
        .map(|index| statement.parameter_name(index).map(str::to_string))
        .collect();
    let named = |names: &[&str]| {
        Params::Named(
            names
                .iter()
                .map(|name| (name.to_string(), json("1")))
                .collect(),
        )
    };
    match prepare_query(statement.readonly(), &declared, &named(&[":a"])).unwrap() {
        BoundParams::Named(pairs) => {
            assert_eq!(pairs, vec![(":a".to_string(), SqlValue::Integer(1))])
        }
        other => panic!("{other:?}"),
    }
    match prepare_query(statement.readonly(), &declared, &named(&[":a", "b"])) {
        Err(eventsdb::Error::Validation(message)) => assert_eq!(
            message,
            "a value was given for `b` and the statement declares no such parameter. \
             A name is the placeholder as written in the SQL, sigil included"
        ),
        other => panic!("{other:?}"),
    }
    assert!(matches!(
        prepare_query(statement.readonly(), &declared, &named(&["a"])),
        Err(eventsdb::Error::Validation(_))
    ));
}

fn confirm(conn: &Connection, receipt: u64, landed_ms: u64) -> Result<(), eventsdb::Error> {
    let update = confirm_export(receipt, landed_ms)?;
    let changed = conn
        .execute(&update.sql, rusqlite::params_from_iter(bound(&update)))
        .unwrap();
    match confirmed(receipt, changed) {
        None => Ok(()),
        Some(ask) => {
            let mut prepared = conn.prepare(&ask.sql).unwrap();
            let there = prepared
                .exists(rusqlite::params_from_iter(bound(&ask)))
                .unwrap();
            confirmation_known(receipt, there)
        }
    }
}

fn listed(conn: &Connection) -> Vec<catalog::ExportRecord> {
    let statement = catalog::export_receipts(None, 10).unwrap();
    let mut prepared = conn.prepare(&statement.sql).unwrap();
    let rows = prepared
        .query_map(rusqlite::params_from_iter(bound(&statement)), |row| {
            Ok(catalog::ExportRecord::from_row(
                row.get(0)?,
                row.get(1)?,
                (row.get(2)?, row.get(3)?),
                row.get(4)?,
                row.get(5)?,
                row.get(6)?,
            ))
        })
        .unwrap();
    rows.map(|row| row.unwrap()).collect()
}

fn reach(conn: &Connection) -> Position {
    let mut prepared = conn.prepare(&landed_receipts().sql).unwrap();
    let receipts: Vec<(i64, i64)> = prepared
        .query_map([], |row| Ok((row.get(0)?, row.get(1)?)))
        .unwrap()
        .map(|row| row.unwrap())
        .collect();
    exported_through(&receipts)
}

#[test]
fn a_receipt_lands_when_it_is_first_confirmed() {
    let conn = database();
    let mut taken = Vec::new();
    for (from, through) in [(0, 4), (4, 9)] {
        let receipt = ExportReceipt {
            id: 0,
            from: Position::new(from),
            through: Position::new(through),
            count: 3,
            whole: true,
        };
        let insert = receipt.record(50).unwrap();
        conn.execute(&insert.sql, rusqlite::params_from_iter(bound(&insert)))
            .unwrap();
        taken.push(receipt.numbered(conn.last_insert_rowid()));
    }
    assert!(listed(&conn).iter().all(|record| !record.landed()));
    assert_eq!(reach(&conn), Position::new(0));

    confirm(&conn, taken[0].id, 60).unwrap();
    confirm(&conn, taken[0].id, 70).unwrap();
    let records = listed(&conn);
    assert_eq!(records[0].landed_ms, Some(60));
    assert_eq!((records[0].receipt, records[1].receipt), (taken[0], taken[1]));
    assert!(records[0].landed() && !records[1].landed());
    assert_eq!(reach(&conn), Position::new(4));

    for nobody in [77, u64::MAX] {
        match confirm(&conn, nobody, 80) {
            Err(eventsdb::Error::Validation(message)) => {
                assert_eq!(message, format!("no export receipt {nobody}"))
            }
            other => panic!("{other:?}"),
        }
    }
    assert_eq!(listed(&conn), records);
}

#[test]
fn paging_by_the_last_name_lists_every_stream_once() {
    let conn = database();
    let names = ["a", "b-1", "b-2", "b-3", "b-\u{10FFFF}", "c"];
    for name in names {
        conn.execute("INSERT INTO stream_seq (stream, next_seq) VALUES (?1, 2)", [name])
            .unwrap();
    }
    for (prefix, expected) in [(None, &names[..]), (Some("b-"), &names[1..5])] {
        for limit in 1..8 {
            let mut seen: Vec<String> = Vec::new();
            loop {
                let after = seen.last().cloned();
                let statement = catalog::streams(after.as_deref(), prefix, limit).unwrap();
                let mut prepared = conn.prepare(&statement.sql).unwrap();
                let page: Vec<String> = prepared
                    .query_map(rusqlite::params_from_iter(bound(&statement)), |row| row.get(0))
                    .unwrap()
                    .map(|row| row.unwrap())
                    .collect();
                let short = page.len() < limit;
                seen.extend(page);
                if short {
                    break;
                }
            }
            assert_eq!(seen, expected, "{prefix:?} {limit}");
        }
    }
}
