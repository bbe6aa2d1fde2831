//! Removing events, and being honest about having done it.
//!
//! Removal is not just a `DELETE`: every application records what it took in a
//! ledger that outlives the events, and the highest position it removed is a
//! watermark. A consumer whose cursor sits below the watermark is refused
//! rather than served a short answer it cannot tell from a complete one.
//!
//! What a plan may remove is decided under a [`Guard`]. [`Guard::Exported`]
//! chains the export receipts that were confirmed and unfiltered from the
//! beginning of the log, and refuses to remove past the chain's end.

use vstd::prelude::*;

use crate::error::{Error, Failure};
use crate::json::{Json, Value};
use crate::log::{Axes, Filter};
use crate::position::Position;
use crate::read;
use crate::row::{Stored, StoredRow};
use crate::sql::{
    self, Bound, Clause, Column, Condition, Engine, Query, Relation, Row, SqlValue, Statement,
};
use crate::text;
use crate::transfer::{self, Exported, ExportedEvent};

verus! {

/// What to remove.
#[derive(Debug)]
#[non_exhaustive]
pub enum Plan {
    /// Every event at or below `position`.
    Before(Position),
    /// Every event whose time coordinate is before `epoch_ms`.
    OlderThan(u64),
    /// Every event of these streams.
    Streams(Vec<String>),
}

/// What a [`Plan`] removes.
pub ghost enum Removal {
    Before(Position),
    OlderThan(u64),
    Streams(Seq<Seq<char>>),
}

impl Removal {
    /// Why the plan cannot be asked, if it cannot. A number beyond the signed
    /// range would bind as a negative one and remove nothing.
    pub open spec fn failure(self) -> Option<Failure> {
        match self {
            Removal::Before(position) => match sql::position_refusal(position) {
                Some(message) => Some(Failure::Validation(message)),
                None => None,
            },
            Removal::OlderThan(epoch_ms) => if epoch_ms > i64::MAX {
                Some(
                    Failure::Validation(
                        "cutoff "@ + text::decimal_text(epoch_ms as nat)
                            + " is beyond the range SQLite stores as a timestamp"@,
                    ),
                )
            } else {
                None
            },
            Removal::Streams(streams) => match sql::placeholder_refusal(
                streams.len(),
                "streams"@,
            ) {
                Some(message) => Some(Failure::Unsupported(message)),
                None => None,
            },
        }
    }

    /// What the plan asks of a row. An empty list of streams selects nothing.
    pub open spec fn condition(self) -> Condition {
        match self {
            Removal::Before(position) => Condition::Compare(
                Column::Position,
                Relation::AtMost,
                Bound::Integer(position.0 as i64),
            ),
            Removal::OlderThan(epoch_ms) => Condition::Compare(
                Column::EpochMs,
                Relation::Below,
                Bound::Integer(epoch_ms as i64),
            ),
            Removal::Streams(streams) => if streams.len() == 0 {
                Condition::Never
            } else {
                Condition::OneOf(Column::Stream, streams)
            },
        }
    }

    /// How the application is described in the ledger.
    pub open spec fn described(self) -> Seq<char> {
        match self {
            Removal::Before(position) => "before:"@ + text::decimal_text(position.0 as nat),
            Removal::OlderThan(epoch_ms) => "older_than:"@ + text::decimal_text(epoch_ms as nat),
            Removal::Streams(streams) => "streams:"@ + text::decimal_text(streams.len()),
        }
    }

    /// Whether the plan takes an event of this position, time and stream.
    pub open spec fn takes(self, position: i64, epoch_ms: i64, stream: Seq<char>) -> bool {
        match self {
            Removal::Before(before) => position <= before.0,
            Removal::OlderThan(cutoff) => epoch_ms < cutoff,
            Removal::Streams(streams) => streams.contains(stream),
        }
    }
}

/// A predicate over the events after `head`.
pub open spec fn over_events(head: Seq<char>, condition: Condition) -> Query {
    Query {
        sql: head + sql::predicate_text(seq![condition]),
        params: sql::predicate_params(seq![condition]),
    }
}

impl Clone for Plan {
    fn clone(&self) -> (copy: Self)
        ensures
            copy@ == self@,
    {
        match self {
            Plan::Before(position) => Plan::Before(*position),
            Plan::OlderThan(epoch_ms) => Plan::OlderThan(*epoch_ms),
            Plan::Streams(streams) => Plan::Streams(text::copied(streams)),
        }
    }
}

impl Plan {
    pub open spec fn view(&self) -> Removal {
        match *self {
            Plan::Before(position) => Removal::Before(position),
            Plan::OlderThan(epoch_ms) => Removal::OlderThan(epoch_ms),
            Plan::Streams(streams) => Removal::Streams(text::views(streams@)),
        }
    }

    /// The condition a row must meet to be removed.
    pub fn predicate(&self) -> (clause: Result<Clause, Error>)
        ensures
            clause is Ok <==> self@.failure() is None,
            clause is Ok ==> clause->Ok_0@ == self@.condition(),
            clause is Err ==> clause->Err_0@ == self@.failure()->0,
    {
        match self {
            Plan::Before(position) => match sql::stored_position(*position) {
                Ok(stored) => Ok(
                    Clause::Compare(
                        Column::Position,
                        Relation::AtMost,
                        SqlValue::Integer(stored),
                    ),
                ),
                Err(error) => Err(error),
            },
            Plan::OlderThan(epoch_ms) => {
                if *epoch_ms > i64::MAX as u64 {
                    return Err(
                        Error::validation(
                            text::cat3(
                                "cutoff ",
                                text::decimal(*epoch_ms).as_str(),
                                " is beyond the range SQLite stores as a timestamp",
                            ),
                        ),
                    );
                }
                Ok(
                    Clause::Compare(
                        Column::EpochMs,
                        Relation::Below,
                        SqlValue::Integer(*epoch_ms as i64),
                    ),
                )
            },
            Plan::Streams(streams) => {
                if streams.len() == 0 {
                    return Ok(Clause::Never);
                }
                match sql::check_placeholders(streams.len(), "streams") {
                    Ok(()) => Ok(Clause::OneOf(Column::Stream, text::copied(streams))),
                    Err(error) => Err(error),
                }
            },
        }
    }

    /// How this application is described in the ledger.
    pub fn describe(&self) -> (described: String)
        ensures
            described@ == self@.described(),
    {
        match self {
            Plan::Before(position) => text::cat2("before:", position.to_string().as_str()),
            Plan::OlderThan(epoch_ms) => text::cat2(
                "older_than:",
                text::decimal(*epoch_ms).as_str(),
            ),
            Plan::Streams(streams) => text::cat2(
                "streams:",
                text::decimal(streams.len() as u64).as_str(),
            ),
        }
    }
}

/// Who is allowed to be left behind.
#[derive(Debug, Clone, Copy, PartialEq, Eq, Structural)]
#[non_exhaustive]
pub enum Guard {
    /// Refuse if any consumer with a stored checkpoint has not passed the
    /// events this plan would remove.
    RegisteredConsumers,
    /// Remove regardless.
    Force,
    /// Refuse unless confirmed exports cover everything this plan would
    /// remove, and refuse to overrun a stored checkpoint.
    Exported,
}

impl Default for Guard {
    fn default() -> (guard: Self)
        ensures
            guard == Guard::RegisteredConsumers,
    {
        Guard::RegisteredConsumers
    }
}

/// What an application of a [`Plan`] did.
#[derive(Debug, Clone, Copy, PartialEq, Eq, Structural)]
pub struct Report {
    pub removed: usize,
    /// The highest position removed, or `None` when nothing matched.
    pub highest_removed: Option<Position>,
    pub streams_affected: usize,
}

impl Report {
    /// What a plan that matched nothing did.
    pub fn nothing() -> (report: Self)
        ensures
            report == (Report { removed: 0, highest_removed: None, streams_affected: 0 }),
    {
        Report { removed: 0, highest_removed: None, streams_affected: 0 }
    }
}

/// How far one more receipt takes the chain: a page that starts at or before
/// the reach and ends past it extends it; one that starts beyond it is past a
/// gap and does not.
pub open spec fn reached(reach: i64, receipt: (i64, i64)) -> i64 {
    if receipt.0 <= reach && receipt.1 > reach {
        receipt.1
    } else {
        reach
    }
}

/// How far some receipts, taken in order, carry the chain from `start`.
pub open spec fn chain_from(start: i64, receipts: Seq<(i64, i64)>) -> i64
    decreases receipts.len(),
{
    if receipts.len() == 0 {
        start
    } else {
        reached(chain_from(start, receipts.drop_last()), receipts.last())
    }
}

/// How far the chain of receipts reaches from the beginning.
pub open spec fn chain_reach(receipts: Seq<(i64, i64)>) -> i64 {
    chain_from(0, receipts)
}

/// The statement that asks for the receipts that count: confirmed, unfiltered,
/// in the order the chain is walked.
pub open spec fn landed_query() -> Query {
    Query {
        sql:
            "SELECT from_position, through FROM exports WHERE landed_ms IS NOT NULL AND whole = 1 ORDER BY from_position, through"@,
        params: Seq::empty(),
    }
}

pub fn landed_receipts() -> (statement: Statement)
    ensures
        statement@ == landed_query(),
{
    Statement::plain(
        "SELECT from_position, through FROM exports WHERE landed_ms IS NOT NULL AND whole = 1 ORDER BY from_position, through",
    )
}

/// How far the chain of landed, whole exports reaches from the beginning.
pub fn exported_through(receipts: &[(i64, i64)]) -> (reach: Position)
    ensures
        reach == Position(chain_reach(receipts@) as u64),
{
    let mut reach: i64 = 0;
    let mut i: usize = 0;
    proof {
        assert(receipts@.take(0) =~= Seq::<(i64, i64)>::empty());
    }
    while i < receipts.len()
        invariant
            i <= receipts@.len(),
            reach == chain_reach(receipts@.take(i as int)),
        decreases receipts@.len() - i,
    {
        proof {
            assert(receipts@.take(i + 1).drop_last() =~= receipts@.take(i as int));
        }
        let (from, through) = receipts[i];
        if from <= reach && through > reach {
            reach = through;
        }
        i += 1;
    }
    proof {
        assert(receipts@.take(i as int) =~= receipts@);
        chain_grows(0, receipts@);
    }
    Position::new(reach as u64)
}

/// A chain never falls back.
pub proof fn chain_grows(start: i64, receipts: Seq<(i64, i64)>)
    ensures
        chain_from(start, receipts) >= start,
    decreases receipts.len(),
{
    if receipts.len() > 0 {
        chain_grows(start, receipts.drop_last());
    }
}

/// Whether a receipt covers a position: its range is exclusive on the position
/// it was read from.
pub open spec fn covers(receipt: (i64, i64), position: int) -> bool {
    receipt.0 < position <= receipt.1
}

/// What the chain reaches is covered: every position from the first to the
/// chain's end is in the range of one of the receipts.
pub proof fn chain_is_covered(receipts: Seq<(i64, i64)>, position: int)
    requires
        0 < position <= chain_reach(receipts),
    ensures
        exists|i: int| 0 <= i < receipts.len() && covers(#[trigger] receipts[i], position),
    decreases receipts.len(),
{
    let front = receipts.drop_last();
    if position <= chain_reach(front) {
        chain_is_covered(front, position);
        let i = choose|i: int| 0 <= i < front.len() && covers(#[trigger] front[i], position);
        assert(covers(receipts[i], position));
    } else {
        assert(covers(receipts[receipts.len() - 1], position));
    }
}

/// Receipts in the order the chain is walked.
pub open spec fn in_chain_order(receipts: Seq<(i64, i64)>) -> bool {
    forall|i: int, j: int|
        0 <= i < j < receipts.len() ==> (#[trigger] receipts[i]).0 <= (#[trigger] receipts[j]).0
}

/// A gap stops the chain: taken in order, no receipt starts at or before the
/// chain's end and reaches past it.
pub proof fn chain_stops_at_a_gap(receipts: Seq<(i64, i64)>, i: int)
    requires
        in_chain_order(receipts),
        0 <= i < receipts.len(),
    ensures
        receipts[i].0 > chain_reach(receipts) || receipts[i].1 <= chain_reach(receipts),
    decreases receipts.len(),
{
    let front = receipts.drop_last();
    assert(in_chain_order(front)) by {
        assert forall|a: int, b: int| 0 <= a < b < front.len() implies (#[trigger] front[a]).0
            <= (#[trigger] front[b]).0 by {
            assert(receipts[a].0 <= receipts[b].0);
        }
    }
    if i < front.len() {
        chain_stops_at_a_gap(front, i);
        assert(front[i] == receipts[i]);
        assert(receipts[i].0 <= receipts[receipts.len() - 1].0);
    }
}

proof fn chain_cannot_jump(start: i64, receipts: Seq<(i64, i64)>, stop: i64)
    requires
        start <= stop,
        forall|i: int|
            0 <= i < receipts.len() ==> (#[trigger] receipts[i]).0 > stop || receipts[i].1 <= stop,
    ensures
        chain_from(start, receipts) <= stop,
    decreases receipts.len(),
{
    if receipts.len() > 0 {
        let front = receipts.drop_last();
        assert forall|i: int| 0 <= i < front.len() implies (#[trigger] front[i]).0 > stop
            || front[i].1 <= stop by {
            assert(front[i] == receipts[i]);
        }
        chain_cannot_jump(start, front, stop);
        let last = receipts[receipts.len() - 1];
        assert(last.0 > stop || last.1 <= stop);
    }
}

/// Confirming more only carries the chain further: with every receipt there
/// was and perhaps others, the chain reaches at least as far.
pub proof fn more_receipts_reach_further(fewer: Seq<(i64, i64)>, more: Seq<(i64, i64)>)
    requires
        in_chain_order(more),
        forall|i: int| 0 <= i < fewer.len() ==> more.contains(#[trigger] fewer[i]),
    ensures
        chain_reach(fewer) <= chain_reach(more),
{
    let stop = chain_reach(more);
    chain_grows(0, more);
    assert forall|i: int| 0 <= i < fewer.len() implies (#[trigger] fewer[i]).0 > stop || fewer[i].1
        <= stop by {
        assert(more.contains(fewer[i]));
        let j = choose|j: int| 0 <= j < more.len() && more[j] == fewer[i];
        chain_stops_at_a_gap(more, j);
    }
    chain_cannot_jump(0, fewer, stop);
}

/// Confirming the next page carries the chain to its end: with a receipt that
/// starts at or before the chain's end among the confirmed ones, the chain
/// reaches that receipt's end.
pub proof fn next_page_carries_the_chain(
    before: Seq<(i64, i64)>,
    after: Seq<(i64, i64)>,
    page: (i64, i64),
)
    requires
        in_chain_order(after),
        forall|i: int| 0 <= i < before.len() ==> after.contains(#[trigger] before[i]),
        after.contains(page),
        page.0 <= chain_reach(before),
    ensures
        chain_reach(after) >= page.1,
{
    more_receipts_reach_further(before, after);
    let j = choose|j: int| 0 <= j < after.len() && after[j] == page;
    chain_stops_at_a_gap(after, j);
}

/// What a plan would remove.
#[derive(Debug, Clone, Copy, PartialEq, Eq, Structural)]
pub struct Found {
    pub removed: i64,
    pub highest: i64,
    pub streams: i64,
}

/// How far an application of a plan has got.
#[derive(Debug, Clone, Copy, PartialEq, Eq, Structural)]
pub enum Stage {
    /// What would go is being asked for.
    Measuring,
    /// How far the exports reach is being asked for.
    Reaching(Found),
    /// Who would be overrun is being asked for. The second field is the reach
    /// of the exports, where it was asked for.
    Checking(Found, Option<Position>),
    /// The events are being removed. The flag says that nobody is overrun.
    Removing(Found, Option<Position>, bool),
    /// Nothing is left to do.
    Done,
}

/// What the application asks to have done next, inside its transaction.
#[derive(Debug)]
pub enum Ask {
    /// Ask for the receipts that count, all of them.
    Receipts(Statement),
    /// Ask for the first consumer that is behind, if there is one.
    Behind(Statement),
    /// Remove the events and write the ledger.
    Remove { delete: Statement, ledger: Statement },
    /// Nothing: this is the report. Commit, if anything was removed.
    Finish(Report),
}

/// What an [`Ask`] says.
pub ghost enum Asked {
    Receipts(Query),
    Behind(Query),
    Remove { delete: Query, ledger: Query },
    Finish(Report),
}

impl Ask {
    pub open spec fn view(&self) -> Asked {
        match *self {
            Ask::Receipts(statement) => Asked::Receipts(statement@),
            Ask::Behind(statement) => Asked::Behind(statement@),
            Ask::Remove { delete, ledger } => Asked::Remove { delete: delete@, ledger: ledger@ },
            Ask::Finish(report) => Asked::Finish(report),
        }
    }
}

/// One application of a plan: the count, the guard, the removal and the ledger
/// entry, in that order and in one transaction.
#[derive(Debug)]
pub struct Retention {
    guard: Guard,
    clause: Clause,
    described: String,
    stage: Stage,
}

/// The statement that asks who would be overrun.
pub open spec fn behind_query(highest: i64) -> Query {
    Query {
        sql:
            "SELECT consumer, position FROM checkpoints WHERE position < ?1 ORDER BY position LIMIT 1"@,
        params: seq![Bound::Integer(highest)],
    }
}

/// The statement that writes the ledger.
pub open spec fn ledger_query(now_ms: u64, described: Seq<char>, found: Found) -> Query {
    Query {
        sql:
            "INSERT INTO retention (applied_ms, plan, removed_count, highest_removed) VALUES (?1, ?2, ?3, ?4)"@,
        params: seq![
            Bound::Integer(now_ms as i64),
            Bound::Text(described),
            Bound::Integer(found.removed),
            Bound::Integer(found.highest),
        ],
    }
}

/// The report of a removal.
pub open spec fn removal_report(found: Found) -> Report {
    Report {
        removed: found.removed as usize,
        highest_removed: Some(Position(found.highest as u64)),
        streams_affected: found.streams as usize,
    }
}

impl Retention {
    pub closed spec fn guarded_by(&self) -> Guard {
        self.guard
    }

    /// What a row must meet to be removed.
    pub closed spec fn condition(&self) -> Condition {
        self.clause@
    }

    /// How the application is described in the ledger.
    pub closed spec fn description(&self) -> Seq<char> {
        self.described@
    }

    pub closed spec fn at(&self) -> Stage {
        self.stage
    }

    /// Whether what has been learnt allows the stage that was reached: a
    /// removal is under way only when the exports reach as far as it goes and
    /// nobody is overrun, as far as the guard asks.
    pub open spec fn allowed(&self) -> bool {
        match self.at() {
            Stage::Checking(found, reach) => {
                &&& self.guarded_by() is Exported ==> reach is Some && found.highest as u64
                    <= (reach->0).0
                &&& !(self.guarded_by() is Force)
            },
            Stage::Removing(found, reach, nobody_behind) => {
                &&& self.guarded_by() is Exported ==> reach is Some && found.highest as u64
                    <= (reach->0).0
                &&& !(self.guarded_by() is Force) ==> nobody_behind
            },
            Stage::Reaching(_) => self.guarded_by() is Exported,
            _ => true,
        }
    }

    /// The same application, another stage.
    pub open spec fn continues(&self, before: &Retention) -> bool {
        &&& self.guarded_by() == before.guarded_by()
        &&& self.condition() == before.condition()
        &&& self.description() == before.description()
    }

    /// Begins an application of `plan`. One that preserves first says so in
    /// the ledger.
    pub fn begin(plan: &Plan, guard: Guard, archived: bool) -> (retention: Result<Self, Error>)
        ensures
            retention is Ok <==> plan@.failure() is None,
            retention is Ok ==> {
                &&& retention->Ok_0.at() is Measuring
                &&& retention->Ok_0.guarded_by() == guard
                &&& retention->Ok_0.condition() == plan@.condition()
                &&& retention->Ok_0.description() == (if archived {
                    "archive-then-remove: "@ + plan@.described()
                } else {
                    plan@.described()
                })
                &&& retention->Ok_0.allowed()
            },
            retention is Err ==> retention->Err_0@ == plan@.failure()->0,
    {
        let clause = match plan.predicate() {
            Ok(clause) => clause,
            Err(error) => {
                return Err(error);
            },
        };
        let plain = plan.describe();
        let described = if archived {
            text::cat2("archive-then-remove: ", plain.as_str())
        } else {
            plain
        };
        Ok(Retention { guard, clause, described, stage: Stage::Measuring })
    }

    /// The predicate after `head`.
    fn over(&self, head: &str) -> (statement: Statement)
        ensures
            statement@ == over_events(head@, self.condition()),
    {
        let clause = match &self.clause {
            Clause::Compare(column, relation, value) => Clause::Compare(
                *column,
                *relation,
                value.clone(),
            ),
            Clause::OneOf(column, texts) => Clause::OneOf(*column, text::copied(texts)),
            Clause::Meta(key, value, shape) => Clause::Meta(key.clone(), value.clone(), *shape),
            Clause::Never => Clause::Never,
        };
        let clauses: Vec<Clause> = vec![clause];
        proof {
            assert(sql::clause_views(clauses@) =~= seq![self.condition()]);
        }
        sql::render_where(head, &clauses)
    }

    /// The statement that asks what would go: how many events, the highest
    /// position, and how many streams.
    pub fn measure(&self) -> (statement: Statement)
        ensures
            statement@ == over_events(
                "SELECT COUNT(*), MAX(position), COUNT(DISTINCT stream) FROM events WHERE "@,
                self.condition(),
            ),
    {
        self.over("SELECT COUNT(*), MAX(position), COUNT(DISTINCT stream) FROM events WHERE ")
    }

    fn ask_behind(&self, highest: i64) -> (ask: Ask)
        ensures
            ask@ == Asked::Behind(behind_query(highest)),
    {
        let params: Vec<SqlValue> = vec![SqlValue::Integer(highest)];
        proof {
            assert(sql::bound_views(params@) =~= seq![Bound::Integer(highest)]);
        }
        Ask::Behind(
            Statement::with(
                "SELECT consumer, position FROM checkpoints WHERE position < ?1 ORDER BY position LIMIT 1",
                params,
            ),
        )
    }

    fn ask_remove(&self, found: Found, now_ms: u64) -> (ask: Ask)
        ensures
            ask@ == (Asked::Remove {
                delete: over_events("DELETE FROM events WHERE "@, self.condition()),
                ledger: ledger_query(now_ms, self.description(), found),
            }),
    {
        let params: Vec<SqlValue> = vec![
            SqlValue::Integer(#[verifier::truncate] (now_ms as i64)),
            SqlValue::Text(self.described.clone()),
            SqlValue::Integer(found.removed),
            SqlValue::Integer(found.highest),
        ];
        proof {
            assert(sql::bound_views(params@) =~= ledger_query(
                now_ms,
                self.description(),
                found,
            ).params);
        }
        Ask::Remove {
            delete: self.over("DELETE FROM events WHERE "),
            ledger: Statement::with(
                "INSERT INTO retention (applied_ms, plan, removed_count, highest_removed) VALUES (?1, ?2, ?3, ?4)",
                params,
            ),
        }
    }

    /// Takes what would go. A plan that matches nothing is done and leaves no
    /// ledger row.
    pub fn measured(&mut self, removed: i64, highest: Option<i64>, streams: i64, now_ms: u64) -> (ask: Ask)
        requires
            old(self).at() is Measuring,
        ensures
            final(self).continues(old(self)),
            final(self).allowed(),
            match highest {
                None => {
                    &&& final(self).at() is Done
                    &&& ask@ == Asked::Finish(
                        Report { removed: 0, highest_removed: None, streams_affected: 0 },
                    )
                },
                Some(highest) => {
                    let found = Found { removed, highest, streams };
                    match old(self).guarded_by() {
                        Guard::Exported => {
                            &&& final(self).at() == Stage::Reaching(found)
                            &&& ask@ == Asked::Receipts(landed_query())
                        },
                        Guard::RegisteredConsumers => {
                            &&& final(self).at() == Stage::Checking(found, None)
                            &&& ask@ == Asked::Behind(behind_query(highest))
                        },
                        Guard::Force => {
                            &&& final(self).at() == Stage::Removing(found, None, false)
                            &&& ask@ == (Asked::Remove {
                                delete: over_events(
                                    "DELETE FROM events WHERE "@,
                                    old(self).condition(),
                                ),
                                ledger: ledger_query(now_ms, old(self).description(), found),
                            })
                        },
                    }
                },
            },
    {
        let highest = match highest {
            Some(highest) => highest,
            None => {
                self.stage = Stage::Done;
                return Ask::Finish(Report::nothing());
            },
        };
        let found = Found { removed, highest, streams };
        match self.guard {
            Guard::Exported => {
                self.stage = Stage::Reaching(found);
                Ask::Receipts(landed_receipts())
            },
            Guard::RegisteredConsumers => {
                self.stage = Stage::Checking(found, None);
                self.ask_behind(highest)
            },
            Guard::Force => {
                self.stage = Stage::Removing(found, None, false);
                self.ask_remove(found, now_ms)
            },
        }
    }

    /// Takes the receipts that count. A plan that would remove past the end of
    /// their chain is refused.
    pub fn receipts(&mut self, receipts: &[(i64, i64)]) -> (ask: Result<Ask, Error>)
        requires
            old(self).at() is Reaching,
        ensures
            final(self).continues(old(self)),
            ({
                let found = old(self).at()->Reaching_0;
                let reach = chain_reach(receipts@) as u64;
                if found.highest as u64 > reach {
                    &&& ask is Err
                    &&& ask->Err_0@ == (Failure::NotExported {
                        up_to: found.highest as u64,
                        exported_through: reach,
                    })
                    &&& final(self).at() is Done
                } else {
                    &&& ask is Ok
                    &&& ask->Ok_0@ == Asked::Behind(behind_query(found.highest))
                    &&& final(self).at() == Stage::Checking(found, Some(Position(reach)))
                    &&& old(self).guarded_by() is Exported ==> final(self).allowed()
                }
            }),
    {
        let reach = exported_through(receipts);
        match self.stage {
            Stage::Reaching(found) => {
                let highest: u64 = #[verifier::truncate] (found.highest as u64);
                if highest > reach.get() {
                    self.stage = Stage::Done;
                    return Err(
                        Error::NotExported { up_to: highest, exported_through: reach.get() },
                    );
                }
                self.stage = Stage::Checking(found, Some(reach));
                Ok(self.ask_behind(found.highest))
            },
            _ => Ok(Ask::Finish(Report::nothing())),
        }
    }

    /// Takes the first consumer that is behind, if there is one. It is named
    /// rather than quietly overrun.
    pub fn behind(&mut self, behind: Option<(String, i64)>, now_ms: u64) -> (ask: Result<Ask, Error>)
        requires
            old(self).at() is Checking,
            old(self).allowed(),
        ensures
            final(self).continues(old(self)),
            ({
                let found = old(self).at()->Checking_0;
                match behind {
                    Some(consumer) => {
                        &&& ask is Err
                        &&& ask->Err_0@ == (Failure::ConsumerBehind {
                            consumer: consumer.0@,
                            cursor: consumer.1 as u64,
                            up_to: found.highest as u64,
                        })
                        &&& final(self).at() is Done
                    },
                    None => {
                        &&& ask is Ok
                        &&& ask->Ok_0@ == (Asked::Remove {
                            delete: over_events(
                                "DELETE FROM events WHERE "@,
                                old(self).condition(),
                            ),
                            ledger: ledger_query(now_ms, old(self).description(), found),
                        })
                        &&& final(self).at() == Stage::Removing(
                            found,
                            old(self).at()->Checking_1,
                            true,
                        )
                        &&& final(self).allowed()
                    },
                }
            }),
    {
        match self.stage {
            Stage::Checking(found, reach) => match behind {
                Some((consumer, cursor)) => {
                    self.stage = Stage::Done;
                    Err(
                        Error::ConsumerBehind {
                            consumer,
                            cursor: #[verifier::truncate] (cursor as u64),
                            up_to: #[verifier::truncate] (found.highest as u64),
                        },
                    )
                },
                None => {
                    self.stage = Stage::Removing(found, reach, true);
                    Ok(self.ask_remove(found, now_ms))
                },
            },
            _ => Ok(Ask::Finish(Report::nothing())),
        }
    }

    /// Takes that the events are gone and the ledger is written, and reports.
    pub fn removed(&mut self) -> (report: Report)
        requires
            old(self).at() is Removing,
        ensures
            final(self).continues(old(self)),
            final(self).at() is Done,
            report == removal_report(old(self).at()->Removing_0),
    {
        match self.stage {
            Stage::Removing(found, _, _) => {
                self.stage = Stage::Done;
                Report {
                    removed: #[verifier::truncate] (found.removed as usize),
                    highest_removed: Some(
                        Position::new(#[verifier::truncate] (found.highest as u64)),
                    ),
                    streams_affected: #[verifier::truncate] (found.streams as usize),
                }
            },
            _ => Report::nothing(),
        }
    }
}

/// A row of the events table, as a plan sees it.
pub open spec fn plan_row(position: i64, epoch_ms: i64, stream: Seq<char>) -> Row {
    Row {
        cells: |column: Column|
            match column {
                Column::Position => Bound::Integer(position),
                Column::EpochMs => Bound::Integer(epoch_ms),
                Column::Stream => Bound::Text(stream),
                _ => Bound::Null,
            },
        meta: Map::empty(),
        engine: Engine::unasked(),
    }
}

/// What a plan's statement removes is what the plan says: an event meets its
/// condition exactly when the plan takes it.
pub proof fn plans_remove_what_they_say(
    plan: Removal,
    position: i64,
    epoch_ms: i64,
    stream: Seq<char>,
)
    requires
        plan.failure() is None,
    ensures
        sql::holds(plan.condition(), plan_row(position, epoch_ms, stream)) <==> plan.takes(
            position,
            epoch_ms,
            stream,
        ),
{
}

/// What each plan removes: everything at or below a position, everything older
/// than a time, or everything of some streams, whichever of them and however
/// many; and when each can be asked.
pub proof fn plans_remove_exactly(
    plan: Removal,
    position: i64,
    epoch_ms: i64,
    stream: Seq<char>,
)
    ensures
        plan matches Removal::Before(before) ==> {
            &&& plan.failure() is None <==> before.0 <= i64::MAX
            &&& plan.failure() is None ==> (sql::holds(
                plan.condition(),
                plan_row(position, epoch_ms, stream),
            ) <==> position <= before.0)
        },
        plan matches Removal::OlderThan(cutoff) ==> {
            &&& plan.failure() is None <==> cutoff <= i64::MAX
            &&& plan.failure() is None ==> (sql::holds(
                plan.condition(),
                plan_row(position, epoch_ms, stream),
            ) <==> epoch_ms < cutoff)
        },
        plan matches Removal::Streams(streams) ==> {
            &&& plan.failure() is None <==> streams.len() <= 32766
            &&& sql::holds(plan.condition(), plan_row(position, epoch_ms, stream)) <==> exists|i: int|
                0 <= i < streams.len() && #[trigger] streams[i] == stream
        },
{
    if plan is Streams {
        let streams = plan->Streams_0;
        let row = plan_row(position, epoch_ms, stream);
        if sql::holds(plan.condition(), row) {
            let i = choose|i: int| 0 <= i < streams.len() && streams[i] == stream;
            assert(streams[i] == stream);
        }
        if exists|i: int| 0 <= i < streams.len() && #[trigger] streams[i] == stream {
            assert(streams.contains(stream));
        }
    }
}

/// How a plan is written in the ledger: what it is, and its bound or how many
/// streams it names.
pub proof fn plans_are_told_apart_in_the_ledger(plan: Removal)
    ensures
        plan matches Removal::Before(position) ==> plan.described() == "before:"@
            + text::decimal_text(position.0 as nat),
        plan matches Removal::OlderThan(epoch_ms) ==> plan.described() == "older_than:"@
            + text::decimal_text(epoch_ms as nat),
        plan matches Removal::Streams(streams) ==> plan.described() == "streams:"@
            + text::decimal_text(streams.len()),
{
}

/// The statements of an application speak of its own plan: the events it
/// measures and those it removes are the same ones, whoever is behind is held
/// against the highest of them, and the ledger keeps how many there were and
/// the highest.
pub proof fn applications_write_down_what_they_did(
    head: Seq<char>,
    condition: Condition,
    now_ms: u64,
    described: Seq<char>,
    found: Found,
)
    ensures
        over_events(head, condition).sql == head + sql::condition_text(condition, 1),
        over_events(head, condition).params == sql::condition_params(condition),
        behind_query(found.highest).sql
            == "SELECT consumer, position FROM checkpoints WHERE position < ?1 ORDER BY position LIMIT 1"@,
        behind_query(found.highest).params == seq![Bound::Integer(found.highest)],
        ledger_query(now_ms, described, found).params == seq![
            Bound::Integer(now_ms as i64),
            Bound::Text(described),
            Bound::Integer(found.removed),
            Bound::Integer(found.highest),
        ],
        removal_report(found).removed == found.removed as usize,
        removal_report(found).highest_removed == Some(Position(found.highest as u64)),
        removal_report(found).streams_affected == found.streams as usize,
        landed_query().sql
            == "SELECT from_position, through FROM exports WHERE landed_ms IS NOT NULL AND whole = 1 ORDER BY from_position, through"@,
        landed_query().params.len() == 0,
{
    let one = seq![condition];
    assert(one.drop_last() =~= Seq::<Condition>::empty());
    assert(one.last() == condition);
    assert(sql::predicate_params(one.drop_last()) =~= Seq::<Bound>::empty());
    reveal_with_fuel(sql::predicate_text, 2);
    reveal_with_fuel(sql::predicate_params, 2);
    assert(sql::predicate_params(one) =~= sql::condition_params(condition));
}

/// A confirmed export is the only way past a position: every position the
/// chain reaches lies in the range of a receipt, after where that page was read
/// from and not after where it ended; and where the chain stops no receipt
/// carries it further.
pub proof fn the_chain_reaches_what_is_covered(receipts: Seq<(i64, i64)>, position: int)
    requires
        in_chain_order(receipts),
        position > 0,
    ensures
        position <= chain_reach(receipts) ==> exists|i: int|
            0 <= i < receipts.len() && (#[trigger] receipts[i]).0 < position <= receipts[i].1,
        forall|i: int|
            0 <= i < receipts.len() ==> (#[trigger] receipts[i]).0 > chain_reach(receipts)
                || receipts[i].1 <= chain_reach(receipts),
        chain_reach(receipts) >= 0,
        receipts.len() == 0 ==> chain_reach(receipts) == 0,
        chain_reach(receipts) > 0 ==> exists|i: int|
            0 <= i < receipts.len() && (#[trigger] receipts[i]).1 == chain_reach(receipts),
{
    chain_grows(0, receipts);
    if position <= chain_reach(receipts) {
        chain_is_covered(receipts, position);
        let i = choose|i: int| 0 <= i < receipts.len() && covers(#[trigger] receipts[i], position);
        assert(receipts[i].0 < position <= receipts[i].1);
    }
    assert forall|i: int| 0 <= i < receipts.len() implies (#[trigger] receipts[i]).0 > chain_reach(
        receipts,
    ) || receipts[i].1 <= chain_reach(receipts) by {
        chain_stops_at_a_gap(receipts, i);
    }
    chain_ends_at_a_receipt(receipts);
}

proof fn chain_ends_at_a_receipt(receipts: Seq<(i64, i64)>)
    ensures
        chain_reach(receipts) != 0 ==> exists|i: int|
            0 <= i < receipts.len() && (#[trigger] receipts[i]).1 == chain_reach(receipts),
    decreases receipts.len(),
{
    if receipts.len() > 0 {
        let front = receipts.drop_last();
        chain_ends_at_a_receipt(front);
        if chain_reach(receipts) == chain_reach(front) && chain_reach(front) != 0 {
            let i = choose|i: int|
                0 <= i < front.len() && (#[trigger] front[i]).1 == chain_reach(front);
            assert(receipts[i] == front[i]);
        } else {
            assert(receipts[receipts.len() - 1] == receipts.last());
        }
    }
}

/// Under [`Guard::Exported`] nothing is removed that no confirmed export
/// covers: when the receipts let an application go on, every position up to
/// the highest it removes is in the range of one of them.
pub proof fn exported_before_removed(receipts: Seq<(i64, i64)>, highest: i64, position: int)
    requires
        highest >= 0,
        highest as u64 <= chain_reach(receipts) as u64,
        0 < position <= highest,
    ensures
        exists|i: int| 0 <= i < receipts.len() && covers(#[trigger] receipts[i], position),
{
    chain_grows(0, receipts);
    chain_is_covered(receipts, position);
}

/// The statement that asks for the highest position any retention has removed,
/// 0 when none has run.
pub fn watermark() -> (statement: Statement)
    ensures
        statement@ == (Query {
            sql: "SELECT COALESCE(MAX(highest_removed), 0) FROM retention"@,
            params: Seq::empty(),
        }),
{
    Statement::plain("SELECT COALESCE(MAX(highest_removed), 0) FROM retention")
}

/// Whether the history from a given position is all still there.
#[derive(Debug, Clone, Copy, PartialEq, Eq, Structural)]
#[non_exhaustive]
pub enum Completeness {
    Complete,
    /// Events at or below `removed_up_to` are gone, so a fold from the
    /// requested position would be missing some of its input.
    Incomplete { removed_up_to: Position },
}

impl Completeness {
    pub fn is_complete(self) -> (complete: bool)
        ensures
            complete == (self is Complete),
    {
        matches!(self, Completeness::Complete)
    }
}

/// What a fold from `from` would see, with the watermark where it is.
pub open spec fn complete_from(from: Position, watermark: Position) -> Completeness {
    if from.0 < watermark.0 {
        Completeness::Incomplete { removed_up_to: watermark }
    } else {
        Completeness::Complete
    }
}

/// Whether a fold starting at `from` would see everything it needs.
pub fn completeness_from(from: Position, watermark: Position) -> (completeness: Completeness)
    ensures
        completeness == complete_from(from, watermark),
{
    if from.get() < watermark.get() {
        Completeness::Incomplete { removed_up_to: watermark }
    } else {
        Completeness::Complete
    }
}

/// Refuses a fold that would be missing some of its input.
pub fn require_complete_from(from: Position, watermark: Position) -> (checked: Result<(), Error>)
    ensures
        checked is Ok <==> complete_from(from, watermark) is Complete,
        checked is Err ==> checked->Err_0@ == (Failure::Truncated {
            requested: from.0,
            removed_up_to: watermark.0,
        }),
{
    if from.get() < watermark.get() {
        return Err(
            Error::Truncated { requested: from.get(), removed_up_to: watermark.get() },
        );
    }
    Ok(())
}

/// A fold is complete exactly when it starts at the highest removed position or
/// past it; an incomplete one is told how far the removals reach.
pub proof fn complete_means_nothing_is_missing(from: Position, watermark: Position)
    ensures
        complete_from(from, watermark) is Complete <==> from.0 >= watermark.0,
        from.0 < watermark.0 ==> complete_from(from, watermark) == (Completeness::Incomplete {
            removed_up_to: watermark,
        }),
{
}

/// The watermark a ledger stands at: the highest position any entry removed.
pub open spec fn watermark_of(ledger: Seq<i64>) -> i64
    decreases ledger.len(),
{
    if ledger.len() == 0 {
        0
    } else {
        let before = watermark_of(ledger.drop_last());
        if ledger.last() > before {
            ledger.last()
        } else {
            before
        }
    }
}

/// A removal is never forgotten: once it is in the ledger, a fold that starts
/// before the highest position it removed is refused, whatever is applied
/// after it.
pub proof fn removals_are_remembered(ledger: Seq<i64>, at: int, from: Position)
    requires
        0 <= at < ledger.len(),
        from.0 < ledger[at],
    ensures
        !(complete_from(from, Position(watermark_of(ledger) as u64)) is Complete),
{
    watermark_is_highest(ledger, at);
}

proof fn watermark_is_highest(ledger: Seq<i64>, at: int)
    requires
        0 <= at < ledger.len(),
    ensures
        watermark_of(ledger) >= ledger[at],
        watermark_of(ledger) >= 0,
    decreases ledger.len(),
{
    if ledger.len() > 1 {
        watermark_is_highest(
            ledger.drop_last(),
            if at < ledger.len() - 1 {
                at
            } else {
                0
            },
        );
    } else {
        assert(watermark_of(ledger.drop_last()) == 0);
    }
}

/// What was written down about one exported page.
#[derive(Debug, Clone, Copy, PartialEq, Eq, Structural)]
pub struct ExportReceipt {
    /// The row's identity.
    pub id: u64,
    /// The position the page was read from, exclusive.
    pub from: Position,
    /// The position of the last event in the page, or `from` when the page
    /// was empty.
    pub through: Position,
    pub count: usize,
    /// Whether the filter selected every event in the range.
    pub whole: bool,
}

/// Stored rows as records that travel: each keeps its stream and the position
/// it had.
pub open spec fn exported_rows(rows: Seq<Stored>) -> Seq<Exported> {
    Seq::new(
        rows.len(),
        |i: int|
            Exported {
                stream: rows[i].stream,
                position: Some(Position(rows[i].position)),
                event: rows[i].event->Object_0,
            },
    )
}

/// Turns the stored rows of a page into records, as they are stored: no
/// upcaster runs.
pub fn export(rows: Vec<StoredRow>) -> (records: Vec<ExportedEvent>)
    requires
        forall|i: int| 0 <= i < rows@.len() ==> (#[trigger] rows@[i])@.event is Object,
    ensures
        transfer::record_views(records@) == exported_rows(read::stored_views(rows@)),
        records@.len() == rows@.len(),
        forall|i: int|
            0 <= i < rows@.len() ==> (#[trigger] records@[i])@.stream == rows@[i].stream@
                && records@[i]@.position == Some(Position(rows@[i].position)) && Json::Object(
                records@[i]@.event,
            ) == rows@[i].event@,
{
    let ghost given = rows@;
    let mut records: Vec<ExportedEvent> = Vec::new();
    for row in it: rows
        invariant
            it.seq() == given,
            forall|i: int| 0 <= i < given.len() ==> (#[trigger] given[i])@.event is Object,
            records@.len() == it.index(),
            forall|i: int|
                0 <= i < it.index() ==> (#[trigger] records@[i])@ == exported_rows(
                    read::stored_views(given),
                )[i],
    {
        proof {
            assert(given[it.index() as int]@.event is Object);
        }
        if let Value::Object(event) = row.event {
            records.push(
                ExportedEvent {
                    stream: row.stream,
                    position: Some(Position::new(row.position)),
                    event,
                },
            );
        }
    }
    proof {
        assert(transfer::record_views(records@) =~= exported_rows(read::stored_views(given)));
        assert forall|i: int| 0 <= i < given.len() implies (#[trigger] records@[i])@.stream
            == given[i].stream@ && records@[i]@.position == Some(Position(given[i].position))
            && Json::Object(records@[i]@.event) == given[i].event@ by {
            assert(given[i]@.event is Object);
            assert(read::stored_views(given)[i] == given[i]@);
        }
    }
    records
}

/// Where a page ends: the position of its last record, or where it was read
/// from.
pub open spec fn page_end(from: Position, records: Seq<Exported>) -> Position {
    if records.len() > 0 && records.last().position is Some {
        records.last().position->0
    } else {
        from
    }
}

/// The receipt of a page, under the identity its row was given.
pub open spec fn receipt_of(id: i64, from: Position, axes: Axes, records: Seq<Exported>) -> ExportReceipt {
    ExportReceipt {
        id: id as u64,
        from,
        through: page_end(from, records),
        count: records.len() as usize,
        whole: axes.whole(),
    }
}

/// What a receipt vouches for: the range from where the page was read to its
/// last record, or nowhere past that where it held none; how many records it
/// held; and the whole of the range only where no axis of the filter placed a
/// condition.
pub proof fn receipts_say_what_was_exported(
    id: i64,
    from: Position,
    axes: Axes,
    records: Seq<Exported>,
)
    ensures
        ({
            let receipt = receipt_of(id, from, axes, records);
            &&& receipt.id == id as u64
            &&& receipt.from == from
            &&& receipt.count == records.len() as usize
            &&& records.len() == 0 ==> receipt.through == from
            &&& records.len() > 0 && records[records.len() - 1].position is Some
                ==> receipt.through == records[records.len() - 1].position->0
            &&& receipt.whole <==> {
                &&& axes.kinds is None
                &&& axes.streams is None
                &&& axes.meta is Some ==> axes.meta->0.len() == 0
                &&& axes.stream_prefix is Some ==> axes.stream_prefix->0.len() == 0
            }
        }),
{
}

/// The statement that writes a receipt: taken, not yet landed.
pub open spec fn receipt_query(taken_ms: u64, receipt: ExportReceipt) -> Query {
    Query {
        sql:
            "INSERT INTO exports (taken_ms, from_position, through, count, whole, landed_ms) VALUES (?1, ?2, ?3, ?4, ?5, NULL)"@,
        params: seq![
            Bound::Integer(taken_ms as i64),
            Bound::Integer(receipt.from.0 as i64),
            Bound::Integer(receipt.through.0 as i64),
            Bound::Integer(receipt.count as i64),
            Bound::Integer(
                if receipt.whole {
                    1
                } else {
                    0
                },
            ),
        ],
    }
}

/// A receipt's row holds what the receipt says, and no landing yet.
pub proof fn receipts_are_written_as_they_are(taken_ms: u64, receipt: ExportReceipt)
    ensures
        receipt_query(taken_ms, receipt).sql
            == "INSERT INTO exports (taken_ms, from_position, through, count, whole, landed_ms) VALUES (?1, ?2, ?3, ?4, ?5, NULL)"@,
        receipt_query(taken_ms, receipt).params == seq![
            Bound::Integer(taken_ms as i64),
            Bound::Integer(receipt.from.0 as i64),
            Bound::Integer(receipt.through.0 as i64),
            Bound::Integer(receipt.count as i64),
            Bound::Integer(
                if receipt.whole {
                    1
                } else {
                    0
                },
            ),
        ],
{
}

impl ExportReceipt {
    /// What is to be written down about a page, before its row has an
    /// identity.
    pub fn of_page(from: Position, filter: &Filter, records: &[ExportedEvent]) -> (receipt: Self)
        ensures
            receipt == receipt_of(0, from, filter@, transfer::record_views(records@)),
    {
        let count: usize = records.len();
        let through = if count > 0 {
            match records[count - 1].position {
                Some(position) => position,
                None => from,
            }
        } else {
            from
        };
        ExportReceipt { id: 0, from, through, count, whole: filter.selects_everything() }
    }

    /// The statement that writes the receipt down.
    pub fn record(&self, taken_ms: u64) -> (statement: Result<Statement, Error>)
        ensures
            sql::position_refusal(self.from) is Some ==> statement is Err
                && statement->Err_0@ == Failure::Validation(sql::position_refusal(self.from)->0),
            sql::position_refusal(self.from) is None && sql::position_refusal(self.through) is Some
                ==> statement is Err && statement->Err_0@ == Failure::Validation(
                sql::position_refusal(self.through)->0,
            ),
            sql::position_refusal(self.from) is None && sql::position_refusal(self.through) is None
                ==> statement is Ok && statement->Ok_0@ == receipt_query(taken_ms, *self),
    {
        let from = match sql::stored_position(self.from) {
            Ok(from) => from,
            Err(error) => {
                return Err(error);
            },
        };
        let through = match sql::stored_position(self.through) {
            Ok(through) => through,
            Err(error) => {
                return Err(error);
            },
        };
        let params: Vec<SqlValue> = vec![
            SqlValue::Integer(#[verifier::truncate] (taken_ms as i64)),
            SqlValue::Integer(from),
            SqlValue::Integer(through),
            SqlValue::Integer(#[verifier::truncate] (self.count as i64)),
            SqlValue::Integer(
                if self.whole {
                    1
                } else {
                    0
                },
            ),
        ];
        proof {
            assert(sql::bound_views(params@) =~= receipt_query(taken_ms, *self).params);
        }
        Ok(
            Statement::with(
                "INSERT INTO exports (taken_ms, from_position, through, count, whole, landed_ms) VALUES (?1, ?2, ?3, ?4, ?5, NULL)",
                params,
            ),
        )
    }

    /// The receipt under the identity its row was given.
    pub fn numbered(self, id: i64) -> (receipt: Self)
        ensures
            receipt == (ExportReceipt { id: id as u64, ..self }),
    {
        ExportReceipt { id: #[verifier::truncate] (id as u64), ..self }
    }
}

/// Why a receipt is refused: nobody took it.
pub open spec fn no_receipt(receipt: u64) -> Failure {
    Failure::Validation("no export receipt "@ + text::decimal_text(receipt as nat))
}

fn unknown_receipt(receipt: u64) -> (error: Error)
    ensures
        error@ == no_receipt(receipt),
{
    Error::validation(text::cat2("no export receipt ", text::decimal(receipt).as_str()))
}

/// The statement that says a page landed. It changes a row only where the
/// receipt is there and not yet confirmed.
pub fn confirm_export(receipt: u64, landed_ms: u64) -> (statement: Result<Statement, Error>)
    ensures
        statement is Ok <==> receipt <= i64::MAX,
        statement is Ok ==> statement->Ok_0@ == (Query {
            sql: "UPDATE exports SET landed_ms = ?1 WHERE id = ?2 AND landed_ms IS NULL"@,
            params: seq![Bound::Integer(landed_ms as i64), Bound::Integer(receipt as i64)],
        }),
        statement is Err ==> statement->Err_0@ == no_receipt(receipt),
{
    if receipt > i64::MAX as u64 {
        return Err(unknown_receipt(receipt));
    }
    let params: Vec<SqlValue> = vec![
        SqlValue::Integer(#[verifier::truncate] (landed_ms as i64)),
        SqlValue::Integer(receipt as i64),
    ];
    proof {
        assert(sql::bound_views(params@) =~= seq![
            Bound::Integer(landed_ms as i64),
            Bound::Integer(receipt as i64),
        ]);
    }
    Ok(
        Statement::with(
            "UPDATE exports SET landed_ms = ?1 WHERE id = ?2 AND landed_ms IS NULL",
            params,
        ),
    )
}

/// What follows the update: nothing where it changed a row, and otherwise the
/// statement that asks whether the receipt is there at all.
pub fn confirmed(receipt: u64, changed: usize) -> (ask: Option<Statement>)
    requires
        receipt <= i64::MAX,
    ensures
        ask is None <==> changed == 1,
        ask is Some ==> ask->0@ == (Query {
            sql: "SELECT 1 FROM exports WHERE id = ?1"@,
            params: seq![Bound::Integer(receipt as i64)],
        }),
{
    if changed == 1 {
        return None;
    }
    let params: Vec<SqlValue> = vec![SqlValue::Integer(receipt as i64)];
    proof {
        assert(sql::bound_views(params@) =~= seq![Bound::Integer(receipt as i64)]);
    }
    Some(Statement::with("SELECT 1 FROM exports WHERE id = ?1", params))
}

/// How a confirmation that changed nothing ends: confirming twice is one
/// confirmation, and a receipt nobody took is refused.
pub fn confirmation_known(receipt: u64, exists_already: bool) -> (outcome: Result<(), Error>)
    ensures
        outcome is Ok <==> exists_already,
        outcome is Err ==> outcome->Err_0@ == no_receipt(receipt),
{
    if exists_already {
        Ok(())
    } else {
        Err(unknown_receipt(receipt))
    }
}

/// A row of the exports table, beside its id.
#[verifier::ext_equal]
pub ghost struct ExportRow {
    pub taken_ms: i64,
    pub from: i64,
    pub through: i64,
    pub count: i64,
    pub whole: i64,
    pub landed_ms: Option<i64>,
}

/// The row a receipt is written as.
pub open spec fn taken_row(taken_ms: u64, receipt: ExportReceipt) -> ExportRow {
    ExportRow {
        taken_ms: taken_ms as i64,
        from: receipt.from.0 as i64,
        through: receipt.through.0 as i64,
        count: receipt.count as i64,
        whole: if receipt.whole {
            1
        } else {
            0
        },
        landed_ms: None,
    }
}

/// How many rows the statement of [`confirm_export`] changes: the receipt's,
/// where it is there and not yet confirmed.
pub open spec fn rows_changed(table: Map<i64, ExportRow>, receipt: u64) -> nat {
    if receipt <= i64::MAX && table.contains_key(receipt as i64)
        && table[receipt as i64].landed_ms is None {
        1
    } else {
        0
    }
}

/// The table after a confirmation.
pub open spec fn confirmed_in(
    table: Map<i64, ExportRow>,
    receipt: u64,
    landed_ms: u64,
) -> Map<i64, ExportRow> {
    if rows_changed(table, receipt) == 1 {
        table.insert(
            receipt as i64,
            ExportRow { landed_ms: Some(landed_ms as i64), ..table[receipt as i64] },
        )
    } else {
        table
    }
}

/// How a confirmation ends, step by step: an id beyond the range is nobody's,
/// a changed row is the answer, and otherwise it is whether the receipt is
/// there.
pub open spec fn confirmation(table: Map<i64, ExportRow>, receipt: u64) -> Result<(), Failure> {
    if receipt > i64::MAX {
        Err(no_receipt(receipt))
    } else if rows_changed(table, receipt) == 1 {
        Ok(())
    } else if table.contains_key(receipt as i64) {
        Ok(())
    } else {
        Err(no_receipt(receipt))
    }
}

/// Confirming a receipt that is there succeeds and marks its row, and nothing
/// else: no other row and no other column changes. Confirming it again
/// succeeds and keeps the first time. A receipt that nobody took is refused,
/// and the table stays as it was.
pub proof fn confirming_twice_is_confirming_once(
    table: Map<i64, ExportRow>,
    receipt: u64,
    first_ms: u64,
    second_ms: u64,
    other: i64,
)
    ensures
        ({
            let once = confirmed_in(table, receipt, first_ms);
            let there = receipt <= i64::MAX && table.contains_key(receipt as i64);
            let id = receipt as i64;
            &&& confirmation(table, receipt) is Ok <==> there
            &&& !there ==> confirmation(table, receipt) == Err::<(), Failure>(no_receipt(receipt))
            &&& !there ==> once == table
            &&& there ==> once[id].landed_ms is Some
            &&& there && table[id].landed_ms is None ==> once[id].landed_ms == Some(
                first_ms as i64,
            )
            &&& there ==> once[id] == (ExportRow { landed_ms: once[id].landed_ms, ..table[id] })
            &&& once.dom() == table.dom()
            &&& table.contains_key(other) && (other != id || receipt > i64::MAX) ==> once[other]
                == table[other]
            &&& confirmation(once, receipt) == confirmation(table, receipt)
            &&& confirmed_in(once, receipt, second_ms) == once
        }),
{
    let once = confirmed_in(table, receipt, first_ms);
    assert(once.dom() =~= table.dom());
}

/// Whether a row counts towards the chain of exports, with this range.
pub open spec fn counts(table: Map<i64, ExportRow>, id: i64, range: (i64, i64)) -> bool {
    &&& table.contains_key(id)
    &&& table[id].landed_ms is Some
    &&& table[id].whole == 1
    &&& (table[id].from, table[id].through) == range
}

/// Whether these are the ranges of the rows that count, in the order the chain
/// is walked.
pub open spec fn lists_landed(table: Map<i64, ExportRow>, receipts: Seq<(i64, i64)>) -> bool {
    &&& in_chain_order(receipts)
    &&& forall|range: (i64, i64)| #[trigger]
        receipts.contains(range) <==> exists|id: i64| counts(table, id, range)
}

/// How far the exports reach never goes down by a confirmation.
pub proof fn confirming_never_shortens_the_chain(
    table: Map<i64, ExportRow>,
    receipt: u64,
    landed_ms: u64,
    before: Seq<(i64, i64)>,
    after: Seq<(i64, i64)>,
)
    requires
        lists_landed(table, before),
        lists_landed(confirmed_in(table, receipt, landed_ms), after),
    ensures
        chain_reach(before) <= chain_reach(after),
{
    let now = confirmed_in(table, receipt, landed_ms);
    assert forall|i: int| 0 <= i < before.len() implies after.contains(#[trigger] before[i]) by {
        assert(before.contains(before[i]));
        let id = choose|id: i64| counts(table, id, before[i]);
        assert(counts(now, id, before[i]));
    }
    more_receipts_reach_further(before, after);
}

/// Something that happens to the exports table.
pub ghost enum ExportAct {
    /// A page was taken, and its receipt written under this id.
    Taken(i64, ExportRow),
    /// A receipt was confirmed.
    Confirmed { receipt: u64, landed_ms: u64 },
}

/// The table after some acts, in order.
pub open spec fn acted(table: Map<i64, ExportRow>, acts: Seq<ExportAct>) -> Map<i64, ExportRow>
    decreases acts.len(),
{
    if acts.len() == 0 {
        table
    } else {
        let before = acted(table, acts.drop_last());
        match acts.last() {
            ExportAct::Taken(id, row) => before.insert(id, row),
            ExportAct::Confirmed { receipt, landed_ms } => confirmed_in(before, receipt, landed_ms),
        }
    }
}

/// Whether an act confirms the receipt with this id.
pub open spec fn confirms(act: ExportAct, id: i64) -> bool {
    act is Confirmed && act->receipt <= i64::MAX && act->receipt as i64 == id
}

/// When a receipt was first confirmed, if it was.
pub open spec fn first_landing(acts: Seq<ExportAct>, id: i64) -> Option<i64>
    decreases acts.len(),
{
    if acts.len() == 0 {
        None
    } else {
        match first_landing(acts.drop_last(), id) {
            Some(landed_ms) => Some(landed_ms),
            None => if confirms(acts.last(), id) {
                Some(acts.last()->landed_ms as i64)
            } else {
                None
            },
        }
    }
}

/// A receipt has landed exactly when it was confirmed since it was taken, and
/// keeps the time of the first confirmation; what was written down about its
/// page stays as it was. Ids are never reused.
pub proof fn landed_exactly_when_confirmed(
    table: Map<i64, ExportRow>,
    acts: Seq<ExportAct>,
    id: i64,
)
    requires
        table.contains_key(id),
        table[id].landed_ms is None,
        forall|k: int|
            0 <= k < acts.len() && (#[trigger] acts[k]) is Taken ==> acts[k]->Taken_0 != id,
    ensures
        acted(table, acts).contains_key(id),
        acted(table, acts)[id] == (ExportRow { landed_ms: first_landing(acts, id), ..table[id] }),
        acted(table, acts)[id].landed_ms is Some <==> exists|k: int|
            0 <= k < acts.len() && confirms(#[trigger] acts[k], id),
    decreases acts.len(),
{
    if acts.len() > 0 {
        let front = acts.drop_last();
        assert forall|k: int|
            0 <= k < front.len() && (#[trigger] front[k]) is Taken implies front[k]->Taken_0
            != id by {
            assert(acts[k] == front[k]);
        }
        landed_exactly_when_confirmed(table, front, id);
        let last = acts[acts.len() - 1];
        assert(last == acts.last());
        if exists|k: int| 0 <= k < front.len() && confirms(#[trigger] front[k], id) {
            let k = choose|k: int| 0 <= k < front.len() && confirms(#[trigger] front[k], id);
            assert(confirms(acts[k], id));
        }
        if exists|k: int| 0 <= k < acts.len() && confirms(#[trigger] acts[k], id) {
            let k = choose|k: int| 0 <= k < acts.len() && confirms(#[trigger] acts[k], id);
            if k < front.len() {
                assert(confirms(front[k], id));
            }
        }
        assert(acted(table, acts)[id] =~= (ExportRow {
            landed_ms: first_landing(acts, id),
            ..table[id]
        }));
    } else {
        assert(acted(table, acts)[id] =~= (ExportRow {
            landed_ms: first_landing(acts, id),
            ..table[id]
        }));
    }
}

/// What archiving does next.
#[derive(Debug, Clone, Copy, PartialEq, Eq, Structural)]
pub enum ArchiveStep {
    /// Export a page from here, hand it over, and confirm it.
    Export(Position),
    /// Everything the plan touches is preserved: apply it under
    /// [`Guard::Exported`].
    Retain,
}

/// Export, hand over, confirm; and remove only then.
#[derive(Debug, Clone, Copy, PartialEq, Eq, Structural)]
pub struct Archive {
    /// How far confirmed exports reach.
    pub cursor: Position,
    /// The highest position the plan would remove.
    pub target: Position,
}

impl Archive {
    /// Resumes from where confirmed exports reach, rather than from the
    /// beginning.
    pub fn begin(exported_through: Position, target: Position) -> (archive: Self)
        ensures
            archive == (Archive { cursor: exported_through, target }),
    {
        Archive { cursor: exported_through, target }
    }

    pub open spec fn step(self) -> ArchiveStep {
        if self.cursor.0 < self.target.0 {
            ArchiveStep::Export(self.cursor)
        } else {
            ArchiveStep::Retain
        }
    }

    pub fn next(&self) -> (step: ArchiveStep)
        ensures
            step == self.step(),
            self.cursor.0 < self.target.0 ==> step == ArchiveStep::Export(self.cursor),
            self.cursor.0 >= self.target.0 ==> step is Retain,
    {
        if self.cursor.get() < self.target.get() {
            ArchiveStep::Export(self.cursor)
        } else {
            ArchiveStep::Retain
        }
    }

    /// Where archiving stands once a page landed. An empty page says that
    /// nothing is left past the cursor to preserve.
    pub open spec fn after(self, receipt: ExportReceipt) -> Archive {
        Archive {
            cursor: receipt.through,
            target: if receipt.count == 0 {
                receipt.through
            } else {
                self.target
            },
        }
    }

    /// Takes that a page landed and was confirmed.
    pub fn landed(&mut self, receipt: &ExportReceipt)
        ensures
            *final(self) == old(self).after(*receipt),
            final(self).cursor == receipt.through,
            receipt.count > 0 ==> final(self).target == old(self).target,
            receipt.count == 0 ==> final(self).target == receipt.through,
    {
        self.cursor = receipt.through;
        if receipt.count == 0 {
            self.target = receipt.through;
        }
    }
}

/// A page that holds events leaves the target where it was, and moves the
/// cursor to its end; only an empty page, past which there is nothing left,
/// brings the target to the cursor.
pub proof fn pages_keep_the_target(archive: Archive, receipt: ExportReceipt)
    ensures
        archive.after(receipt).cursor == receipt.through,
        receipt.count > 0 ==> archive.after(receipt).target == archive.target,
        receipt.count > 0 ==> (archive.after(receipt).step() is Retain <==> receipt.through.0
            >= archive.target.0),
        receipt.count > 0 && receipt.through.0 < archive.target.0 ==> archive.after(receipt).step()
            == ArchiveStep::Export(receipt.through),
        receipt.count == 0 ==> archive.after(receipt).step() is Retain,
{
}

/// Where archiving stands after these pages landed, in order.
pub open spec fn archived(archive: Archive, receipts: Seq<ExportReceipt>) -> Archive
    decreases receipts.len(),
{
    if receipts.len() == 0 {
        archive
    } else {
        archived(archive, receipts.drop_last()).after(receipts.last())
    }
}

/// Archiving goes on until everything the plan touches is preserved: after
/// pages that all held events, it is told to remove exactly when the last of
/// them ended at the highest position the plan removes, or past it, and until
/// then to export from where that page ended.
pub proof fn everything_is_preserved_before_removal(
    exported_through: Position,
    target: Position,
    receipts: Seq<ExportReceipt>,
)
    requires
        forall|i: int| 0 <= i < receipts.len() ==> (#[trigger] receipts[i]).count > 0,
    ensures
        ({
            let now = archived(Archive { cursor: exported_through, target }, receipts);
            let reached = if receipts.len() > 0 {
                receipts[receipts.len() - 1].through
            } else {
                exported_through
            };
            &&& now.target == target
            &&& now.step() is Retain <==> reached.0 >= target.0
            &&& reached.0 < target.0 ==> now.step() == ArchiveStep::Export(reached)
        }),
    decreases receipts.len(),
{
    if receipts.len() > 0 {
        let front = receipts.drop_last();
        assert forall|i: int| 0 <= i < front.len() implies (#[trigger] front[i]).count > 0 by {
            assert(receipts[i].count > 0);
        }
        everything_is_preserved_before_removal(exported_through, target, front);
        assert(receipts[receipts.len() - 1].count > 0);
    }
}

/// Archiving comes to an end: a page that holds events ends past where it was
/// read from, and one that holds none is the last.
pub proof fn archiving_ends(archive: Archive, receipt: ExportReceipt)
    requires
        archive.step() is Export,
        receipt.count > 0 ==> receipt.through.0 > archive.cursor.0,
    ensures
        archive.after(receipt).step() is Retain || archive.target.0 - archive.after(
            receipt,
        ).cursor.0 < archive.target.0 - archive.cursor.0,
{
}

/// When archiving is done, the guard lets the plan through: with the chain of
/// confirmed exports at the archive's cursor or past it, a plan that removes
/// up to the target is not refused as unexported.
pub proof fn archived_plans_are_covered(archive: Archive, receipts: Seq<(i64, i64)>)
    requires
        archive.step() is Retain,
        chain_reach(receipts) as u64 >= archive.cursor.0,
    ensures
        !(archive.target.0 > chain_reach(receipts) as u64),
{
}

/// A filtered export vouches for nothing and an unfiltered one for its range:
/// only a receipt whose filter places no condition is marked whole.
pub proof fn only_unfiltered_exports_are_whole(
    id: i64,
    from: Position,
    axes: Axes,
    records: Seq<Exported>,
    stream: Seq<char>,
    kind: Seq<char>,
    meta: Map<Seq<char>, Json>,
)
    requires
        receipt_of(id, from, axes, records).whole,
    ensures
        axes.selects(stream, kind, meta),
{
    crate::log::whole_selects_everything(axes, stream, kind, meta);
}

/// A plan removes what it says, and an ask asks for what it holds.
pub proof fn plans_and_asks_say_what_they_hold(plan: Plan, ask: Ask, receipt: u64)
    ensures
        plan matches Plan::Before(position) ==> plan@ == Removal::Before(position),
        plan matches Plan::OlderThan(epoch_ms) ==> plan@ == Removal::OlderThan(epoch_ms),
        plan matches Plan::Streams(streams) ==> plan@ == Removal::Streams(text::views(streams@)),
        ask matches Ask::Receipts(statement) ==> ask@ == Asked::Receipts(statement@),
        ask matches Ask::Behind(statement) ==> ask@ == Asked::Behind(statement@),
        ask matches Ask::Remove { delete, ledger } ==> ask@ == (Asked::Remove {
            delete: delete@,
            ledger: ledger@,
        }),
        ask matches Ask::Finish(report) ==> ask@ == Asked::Finish(report),
        no_receipt(receipt) == Failure::Validation(
            "no export receipt "@ + text::decimal_text(receipt as nat),
        ),
{
}

/// An application stays the one it was: its guard, the events it is about and
/// how it is described do not change from step to step. And it removes only
/// what its guard allows: under [`Guard::Exported`] no further than the exports
/// reach, and past no consumer unless it was told to remove regardless.
pub proof fn applications_stay_within_their_guard(now: Retention, before: Retention)
    ensures
        now.continues(&before) ==> now.guarded_by() == before.guarded_by() && now.condition()
            == before.condition() && now.description() == before.description(),
        now.allowed() && now.at() is Removing && now.guarded_by() is Exported
            ==> now.at()->Removing_1 is Some && now.at()->Removing_0.highest as u64 <= (
        now.at()->Removing_1->0).0,
        now.allowed() && now.at() is Removing && !(now.guarded_by() is Force)
            ==> now.at()->Removing_2,
        now.allowed() && now.at() is Checking ==> !(now.guarded_by() is Force),
        now.allowed() && now.at() is Checking && now.guarded_by() is Exported
            ==> now.at()->Checking_1 is Some && now.at()->Checking_0.highest as u64 <= (
        now.at()->Checking_1->0).0,
{
}

} // verus!
