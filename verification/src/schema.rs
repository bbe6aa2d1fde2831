//! The tables' shape, and the ladder that moves it forward.
//!
//! Each step is one transaction and runs before any append is served. Steps
//! are only ever added: a database that ran one will not run it again.

use vstd::prelude::*;

use crate::error::{Error, Failure};
use crate::hatch;
use crate::text;

verus! {

/// The version this build expects.
pub const TARGET_USER_VERSION: i64 = 5;

/// The log and the consumer checkpoints. A position is a row number that is
/// never used again.
pub const STEP_1: &'static str = "
    CREATE TABLE events (
        position       INTEGER PRIMARY KEY AUTOINCREMENT,
        stream         TEXT    NOT NULL,
        seq            INTEGER NOT NULL,
        epoch_ms       INTEGER NOT NULL,
        kind           TEXT    NOT NULL,
        schema_version INTEGER NOT NULL,
        meta           TEXT    NOT NULL,
        data           TEXT    NOT NULL,
        UNIQUE (stream, seq)
    );
    CREATE INDEX events_stream_kind_seq ON events (stream, kind, seq);
    CREATE INDEX events_kind_position   ON events (kind, position);

    CREATE TABLE checkpoints (
        consumer   TEXT PRIMARY KEY,
        position   INTEGER NOT NULL,
        updated_ms INTEGER NOT NULL
    );
";

/// The retention ledger.
pub const STEP_2: &'static str = "
    CREATE TABLE retention (
        id              INTEGER PRIMARY KEY AUTOINCREMENT,
        applied_ms      INTEGER NOT NULL,
        plan            TEXT    NOT NULL,
        removed_count   INTEGER NOT NULL,
        highest_removed INTEGER NOT NULL
    );
    CREATE INDEX events_epoch_ms ON events (epoch_ms);
";

/// The per-stream sequence counter.
pub const STEP_3: &'static str = "
    CREATE TABLE stream_seq (
        stream   TEXT PRIMARY KEY,
        next_seq INTEGER NOT NULL
    );
    INSERT INTO stream_seq (stream, next_seq)
        SELECT stream, MAX(seq) + 1 FROM events GROUP BY stream;
";

/// A stored event cannot be updated, by anyone holding the file.
pub const STEP_4: &'static str = "
    CREATE TRIGGER trg_events_no_update
    BEFORE UPDATE ON events
    BEGIN
        SELECT RAISE(ABORT, 'events is append-only: a stored event cannot be updated');
    END;
";

/// Export receipts.
pub const STEP_5: &'static str = "
    CREATE TABLE exports (
        id            INTEGER PRIMARY KEY AUTOINCREMENT,
        taken_ms      INTEGER NOT NULL,
        from_position INTEGER NOT NULL,
        through       INTEGER NOT NULL,
        count         INTEGER NOT NULL,
        whole         INTEGER NOT NULL,
        landed_ms     INTEGER
    );
";

/// The ladder, in order. The step at `i` moves the version from `i` to
/// `i + 1`.
pub const LADDER: [&'static str; 5] = [STEP_1, STEP_2, STEP_3, STEP_4, STEP_5];

/// What one rung of the ladder does, inside its own transaction.
#[derive(Debug, Clone, Copy)]
pub enum Rung {
    /// Already applied, by an earlier run or by another connection.
    Passed,
    /// Run `batch`, first looking for tables of this name where the database
    /// is new, and set the version.
    Climb { look_for_foreign_tables: bool, batch: &'static str, version: i64 },
}

/// What the rung that moves the version on from `from` does, with the version
/// read in its own transaction.
pub fn migrate(from: usize, current: i64) -> (rung: Result<Rung, Error>)
    requires
        from < TARGET_USER_VERSION,
    ensures
        current > TARGET_USER_VERSION ==> rung is Err && rung->Err_0@ == Failure::Storage(
            "database is at user_version "@ + text::signed_text(current as int)
                + ", newer than this build's 5; refusing to write to a schema this build does not know"@,
        ),
        current <= TARGET_USER_VERSION && current != from ==> rung is Ok && rung->Ok_0 is Passed,
        current == from ==> rung is Ok && rung->Ok_0 == (Rung::Climb {
            look_for_foreign_tables: from == 0,
            batch: LADDER@[from as int],
            version: (from + 1) as i64,
        }),
{
    if current > TARGET_USER_VERSION {
        return Err(
            Error::storage(
                text::cat3(
                    "database is at user_version ",
                    text::signed_decimal(current).as_str(),
                    ", newer than this build's 5; refusing to write to a schema this build does not know",
                ),
            ),
        );
    }
    if current != from as i64 {
        return Ok(Rung::Passed);
    }
    Ok(
        Rung::Climb {
            look_for_foreign_tables: from == 0,
            batch: LADDER[from],
            version: from as i64 + 1,
        },
    )
}

/// The version a database stands at after the rungs from `from` on.
pub open spec fn climbed(from: nat, current: int) -> int
    decreases TARGET_USER_VERSION - from,
{
    if from >= TARGET_USER_VERSION {
        current
    } else if current == from {
        climbed(from + 1, current + 1)
    } else {
        climbed(from + 1, current)
    }
}

/// The ladder gets there: a database at any version it knows ends at the
/// version this build expects.
pub proof fn the_ladder_reaches_the_top(current: int)
    requires
        0 <= current <= TARGET_USER_VERSION,
    ensures
        climbed(0, current) == TARGET_USER_VERSION,
{
    reveal_with_fuel(climbed, 6);
}

/// Whether a table is one that only this ladder creates.
pub open spec fn of_the_ladder(table: Seq<char>) -> bool {
    hatch::reserved(table) && !text::same_ignoring_case("sqlite_sequence"@, table)
}

/// The first of some tables that bears a name of the ladder's, if one does.
pub open spec fn foreign_table(present: Seq<Seq<char>>) -> Option<Seq<char>>
    decreases present.len(),
{
    if present.len() == 0 {
        None
    } else if of_the_ladder(present[0]) {
        Some(present[0])
    } else {
        foreign_table(present.drop_first())
    }
}

/// Refuses a new file that already carries a table under one of the log's
/// names. SQLite's own sequence table says nothing about a foreign log.
pub fn refuse_a_foreign_table(present: &[String]) -> (checked: Result<(), Error>)
    ensures
        checked is Ok <==> foreign_table(text::views(present@)) is None,
        checked is Err ==> checked->Err_0@ == Failure::Unsupported(
            "the file holds a table named `"@ + foreign_table(text::views(present@))->0
                + "` that this crate did not create (`user_version` is 0, so the ladder has never run here). Rename it, and rename or drop any index whose name the ladder uses, then open the file and bring the old rows in through `import`. The README's \"A table this crate did not create\" section is the whole sequence"@,
        ),
{
    let ghost all = text::views(present@);
    let mut i: usize = 0;
    proof {
        assert(all.skip(0) =~= all);
    }
    while i < present.len()
        invariant
            all == text::views(present@),
            i <= present@.len(),
            foreign_table(all) == foreign_table(all.skip(i as int)),
        decreases present@.len() - i,
    {
        let name = present[i].as_str();
        proof {
            assert(all.skip(i as int)[0] == name@);
            assert(all.skip(i as int).drop_first() =~= all.skip(i + 1));
        }
        if hatch::is_reserved(name) && !text::agree_ignoring_case("sqlite_sequence", name) {
            return Err(
                Error::Unsupported(
                    text::cat3(
                        "the file holds a table named `",
                        name,
                        "` that this crate did not create (`user_version` is 0, so the ladder has never run here). Rename it, and rename or drop any index whose name the ladder uses, then open the file and bring the old rows in through `import`. The README's \"A table this crate did not create\" section is the whole sequence",
                    ),
                ),
            );
        }
        i += 1;
    }
    Ok(())
}

/// The settings every writing connection has. All three can be applied twice.
pub const PRAGMAS: &'static str =
    "PRAGMA auto_vacuum = INCREMENTAL; PRAGMA journal_mode = WAL; PRAGMA synchronous = NORMAL;";

/// The first wait between two attempts at the settings, in nanoseconds.
pub const FIRST_PAUSE: u64 = 1_000_000;

/// The longest wait between two attempts at the settings, in nanoseconds.
pub const LONGEST_PAUSE: u64 = 50_000_000;

/// The nanoseconds left of a timeout.
pub open spec fn time_left(timeout: u64, elapsed: u64) -> u64 {
    if elapsed >= timeout {
        0
    } else {
        (timeout - elapsed) as u64
    }
}

/// What follows an attempt at the settings that failed: how long to wait and
/// how long to wait the next time, or `None` to report the failure. Two
/// connections opening one new file put one of them here.
pub fn retry_pragmas(pause: u64, timeout: u64, elapsed: u64, contention: bool) -> (next: Option<
    (u64, u64),
>)
    requires
        pause <= LONGEST_PAUSE,
    ensures
        next is None <==> time_left(timeout, elapsed) == 0 || !contention,
        next is Some ==> {
            &&& (next->0).0 == (if pause < time_left(timeout, elapsed) {
                pause
            } else {
                time_left(timeout, elapsed)
            })
            &&& (next->0).1 == (if 2 * pause < LONGEST_PAUSE {
                (2 * pause) as u64
            } else {
                LONGEST_PAUSE
            })
            &&& elapsed + (next->0).0 <= timeout
        },
{
    let left: u64 = if elapsed >= timeout {
        0
    } else {
        timeout - elapsed
    };
    if left == 0 || !contention {
        return None;
    }
    let wait: u64 = if pause < left {
        pause
    } else {
        left
    };
    let doubled: u64 = 2 * pause;
    let longer: u64 = if doubled < LONGEST_PAUSE {
        doubled
    } else {
        LONGEST_PAUSE
    };
    Some((wait, longer))
}

/// A new file is refused exactly when one of its tables bears a name of the
/// log's, whatever its case, and the first of them is named. SQLite's own
/// sequence table is not one.
pub proof fn foreign_tables_are_found(present: Seq<Seq<char>>)
    ensures
        foreign_table(present) is None <==> forall|i: int|
            0 <= i < present.len() ==> !of_the_ladder(#[trigger] present[i]),
        foreign_table(present) is Some ==> exists|i: int|
            0 <= i < present.len() && #[trigger] present[i] == foreign_table(present)->0
                && of_the_ladder(present[i]) && forall|j: int|
                0 <= j < i ==> !of_the_ladder(#[trigger] present[j]),
    decreases present.len(),
{
    if present.len() > 0 {
        if of_the_ladder(present[0]) {
            assert(present[0] == foreign_table(present)->0);
        } else {
            let rest = present.drop_first();
            foreign_tables_are_found(rest);
            if foreign_table(present) is None {
                assert forall|i: int| 0 <= i < present.len() implies !of_the_ladder(
                    #[trigger] present[i],
                ) by {
                    if i > 0 {
                        assert(rest[i - 1] == present[i]);
                    }
                }
            } else {
                let i = choose|i: int|
                    0 <= i < rest.len() && #[trigger] rest[i] == foreign_table(rest)->0
                        && of_the_ladder(rest[i]) && forall|j: int|
                        0 <= j < i ==> !of_the_ladder(#[trigger] rest[j]);
                assert(present[i + 1] == rest[i]);
                assert forall|j: int| 0 <= j < i + 1 implies !of_the_ladder(
                    #[trigger] present[j],
                ) by {
                    if j > 0 {
                        assert(rest[j - 1] == present[j]);
                    }
                }
            }
        }
    }
}

/// The tables the ladder creates: the log's five, in any case.
pub proof fn tables_of_the_ladder(table: Seq<char>)
    ensures
        text::same_ignoring_case("events"@, table) || text::same_ignoring_case(
            "stream_seq"@,
            table,
        ) || text::same_ignoring_case("checkpoints"@, table) || text::same_ignoring_case(
            "retention"@,
            table,
        ) || text::same_ignoring_case("exports"@, table) ==> of_the_ladder(table),
        of_the_ladder(table) ==> text::same_ignoring_case("events"@, table)
            || text::same_ignoring_case("stream_seq"@, table) || text::same_ignoring_case(
            "checkpoints"@,
            table,
        ) || text::same_ignoring_case("retention"@, table) || text::same_ignoring_case(
            "exports"@,
            table,
        ),
{
    hatch::reserved_tables_are_these(table);
    reveal_strlit("events");
    reveal_strlit("stream_seq");
    reveal_strlit("checkpoints");
    reveal_strlit("retention");
    reveal_strlit("exports");
    reveal_strlit("sqlite_sequence");
    assert("events"@.len() == 6 && "stream_seq"@.len() == 10 && "checkpoints"@.len() == 11
        && "retention"@.len() == 9 && "exports"@.len() == 7 && "sqlite_sequence"@.len() == 15);
}

/// What is left of a timeout: what has not passed, and nothing once it has.
pub proof fn time_runs_out(timeout: u64, elapsed: u64)
    ensures
        elapsed < timeout ==> time_left(timeout, elapsed) == timeout - elapsed,
        elapsed >= timeout ==> time_left(timeout, elapsed) == 0,
{
}

/// The tables are these: positions that are never used again, one number per
/// stream and event, counters that outlive the events, a ledger, receipts, and
/// a trigger that lets nobody update a stored event; in this order, under these
/// settings, and waited for this long.
pub proof fn the_tables_are_these()
    ensures
        STEP_1@ == "
    CREATE TABLE events (
        position       INTEGER PRIMARY KEY AUTOINCREMENT,
        stream         TEXT    NOT NULL,
        seq            INTEGER NOT NULL,
        epoch_ms       INTEGER NOT NULL,
        kind           TEXT    NOT NULL,
        schema_version INTEGER NOT NULL,
        meta           TEXT    NOT NULL,
        data           TEXT    NOT NULL,
        UNIQUE (stream, seq)
    );
    CREATE INDEX events_stream_kind_seq ON events (stream, kind, seq);
    CREATE INDEX events_kind_position   ON events (kind, position);

    CREATE TABLE checkpoints (
        consumer   TEXT PRIMARY KEY,
        position   INTEGER NOT NULL,
        updated_ms INTEGER NOT NULL
    );
"@,
        STEP_2@ == "
    CREATE TABLE retention (
        id              INTEGER PRIMARY KEY AUTOINCREMENT,
        applied_ms      INTEGER NOT NULL,
        plan            TEXT    NOT NULL,
        removed_count   INTEGER NOT NULL,
        highest_removed INTEGER NOT NULL
    );
    CREATE INDEX events_epoch_ms ON events (epoch_ms);
"@,
        STEP_3@ == "
    CREATE TABLE stream_seq (
        stream   TEXT PRIMARY KEY,
        next_seq INTEGER NOT NULL
    );
    INSERT INTO stream_seq (stream, next_seq)
        SELECT stream, MAX(seq) + 1 FROM events GROUP BY stream;
"@,
        STEP_4@ == "
    CREATE TRIGGER trg_events_no_update
    BEFORE UPDATE ON events
    BEGIN
        SELECT RAISE(ABORT, 'events is append-only: a stored event cannot be updated');
    END;
"@,
        STEP_5@ == "
    CREATE TABLE exports (
        id            INTEGER PRIMARY KEY AUTOINCREMENT,
        taken_ms      INTEGER NOT NULL,
        from_position INTEGER NOT NULL,
        through       INTEGER NOT NULL,
        count         INTEGER NOT NULL,
        whole         INTEGER NOT NULL,
        landed_ms     INTEGER
    );
"@,
        PRAGMAS@ == "PRAGMA auto_vacuum = INCREMENTAL; PRAGMA journal_mode = WAL; PRAGMA synchronous = NORMAL;"@,
        LADDER@ == seq![STEP_1, STEP_2, STEP_3, STEP_4, STEP_5],
        TARGET_USER_VERSION == 5,
        FIRST_PAUSE == 1_000_000,
        LONGEST_PAUSE == 50_000_000,
{
    assert(LADDER@ =~= seq![STEP_1, STEP_2, STEP_3, STEP_4, STEP_5]);
}

} // verus!
