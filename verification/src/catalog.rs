//! What is in the log: the five listings.
//!
//! Each is a page with an exclusive cursor and a limit: the ordering key of
//! the last row of a page, handed straight back in, reads the next one, and a
//! page shorter than its limit is the end of the listing as of that read. A
//! limit of 0 is an empty page and no query at all.
//!
//! Retention removes events and touches nothing else, so a stream whose every
//! event is gone still lists, with its head intact.

use vstd::prelude::*;

use crate::json;
use crate::position::Position;
use crate::read;
use crate::retention::{self, ExportAct, ExportReceipt, ExportRow};
use crate::sql::{
    self, Bound, Clause, Column, Condition, Engine, Query, Relation, Row, SqlValue, Statement,
};
use crate::text;

verus! {

/// One stream, and where its counter stands.
#[derive(Debug, PartialEq, Eq)]
pub struct StreamInfo {
    pub stream: String,
    /// The `seq` of the last event appended to this stream: the stored counter
    /// minus one. Not a count of what is there now.
    pub head_seq: u64,
}

/// Where one consumer sits.
#[derive(Debug, PartialEq, Eq)]
pub struct ConsumerCheckpoint {
    pub consumer: String,
    /// The position the consumer reported: it has handled everything at or
    /// below this.
    pub position: Position,
    /// Wall clock of the last report.
    pub updated_ms: u64,
}

/// One application of a plan, as the ledger recorded it.
#[derive(Debug, PartialEq, Eq)]
pub struct RetentionEntry {
    /// The ledger row's id, and the cursor the ledger pages by.
    pub id: u64,
    /// Wall clock of the application.
    pub applied_ms: u64,
    /// How the application described itself.
    pub plan: String,
    /// How many events that application removed.
    pub removed_count: usize,
    /// The highest position it removed.
    pub highest_removed: Position,
}

/// One export receipt, with the two moments the table keeps for it.
#[derive(Debug, Clone, Copy, PartialEq, Eq, Structural)]
pub struct ExportRecord {
    /// The range, the count and the whole flag.
    pub receipt: ExportReceipt,
    /// Wall clock of the moment the page was handed out.
    pub taken_ms: u64,
    /// Wall clock of the moment the caller said it landed, or `None` for a
    /// page taken and never confirmed.
    pub landed_ms: Option<u64>,
}

impl Clone for StreamInfo {
    fn clone(&self) -> (copy: Self)
        ensures
            copy.stream@ == self.stream@,
            copy.head_seq == self.head_seq,
    {
        StreamInfo { stream: self.stream.clone(), head_seq: self.head_seq }
    }
}

impl Clone for ConsumerCheckpoint {
    fn clone(&self) -> (copy: Self)
        ensures
            copy.consumer@ == self.consumer@,
            copy.position == self.position,
            copy.updated_ms == self.updated_ms,
    {
        ConsumerCheckpoint {
            consumer: self.consumer.clone(),
            position: self.position,
            updated_ms: self.updated_ms,
        }
    }
}

impl Clone for RetentionEntry {
    fn clone(&self) -> (copy: Self)
        ensures
            copy.id == self.id,
            copy.applied_ms == self.applied_ms,
            copy.plan@ == self.plan@,
            copy.removed_count == self.removed_count,
            copy.highest_removed == self.highest_removed,
    {
        RetentionEntry {
            id: self.id,
            applied_ms: self.applied_ms,
            plan: self.plan.clone(),
            removed_count: self.removed_count,
            highest_removed: self.highest_removed,
        }
    }
}

impl ExportRecord {
    /// Whether the caller has confirmed this page.
    pub fn landed(&self) -> (landed: bool)
        ensures
            landed == (self.landed_ms is Some),
    {
        self.landed_ms.is_some()
    }
}

/// A page of a listing: `select`, then the conditions there are, then the
/// order and the limit. A listing without a condition has no `WHERE`.
pub open spec fn listing_query(
    select: Seq<char>,
    conditions: Seq<Condition>,
    order: Seq<char>,
    limit: usize,
) -> Query {
    let head = if conditions.len() == 0 {
        select
    } else {
        select + " WHERE "@
    };
    sql::closed_with(
        Query {
            sql: head + sql::predicate_text(conditions),
            params: sql::predicate_params(conditions),
        },
        order,
        Bound::Integer(sql::limit_value(limit)),
    )
}

/// Renders a page of a listing.
fn listing(select: &str, clauses: &Vec<Clause>, order: &str, limit: usize) -> (statement: Statement)
    ensures
        statement@ == listing_query(select@, sql::clause_views(clauses@), order@, limit),
{
    let head = if clauses.len() == 0 {
        select.to_owned()
    } else {
        text::cat2(select, " WHERE ")
    };
    let body = sql::render_where(head.as_str(), clauses);
    sql::close_with(body, order, SqlValue::Integer(sql::clamp_limit(limit)))
}

/// The condition of a cursor over names.
pub open spec fn past_name(column: Column, after: Option<Seq<char>>) -> Seq<Condition> {
    match after {
        Some(name) => seq![Condition::Compare(column, Relation::After, Bound::Text(name))],
        None => Seq::empty(),
    }
}

/// A row id as SQLite compares it: one above the range names a row above every
/// row there can be.
pub open spec fn clamped_id(after: u64) -> i64 {
    if after <= i64::MAX {
        after as i64
    } else {
        i64::MAX
    }
}

/// The condition of a cursor over row ids.
pub open spec fn past_id(after: Option<u64>) -> Seq<Condition> {
    match after {
        Some(id) => seq![
            Condition::Compare(Column::Id, Relation::After, Bound::Integer(clamped_id(id))),
        ],
        None => Seq::empty(),
    }
}

/// An optional text, as one.
pub open spec fn optional(name: Option<&str>) -> Option<Seq<char>> {
    match name {
        Some(name) => Some(name@),
        None => None,
    }
}

fn name_cursor(column: Column, after: Option<&str>) -> (clauses: Vec<Clause>)
    ensures
        sql::clause_views(clauses@) == past_name(column, optional(after)),
{
    let mut clauses: Vec<Clause> = Vec::new();
    if let Some(after) = after {
        clauses.push(Clause::Compare(column, Relation::After, SqlValue::Text(after.to_owned())));
    }
    proof {
        assert(sql::clause_views(clauses@) =~= past_name(column, optional(after)));
    }
    clauses
}

fn after_id(after: u64) -> (id: i64)
    ensures
        id == clamped_id(after),
{
    if after <= i64::MAX as u64 {
        after as i64
    } else {
        i64::MAX
    }
}

fn id_cursor(after: Option<u64>) -> (clauses: Vec<Clause>)
    ensures
        sql::clause_views(clauses@) == past_id(after),
{
    let mut clauses: Vec<Clause> = Vec::new();
    if let Some(after) = after {
        clauses.push(
            Clause::Compare(Column::Id, Relation::After, SqlValue::Integer(after_id(after))),
        );
    }
    proof {
        assert(sql::clause_views(clauses@) =~= past_id(after));
    }
    clauses
}

/// Every stream the log has a counter for, ordered by name. The prefix is the
/// read's prefix, over the same range.
pub fn streams(after: Option<&str>, prefix: Option<&str>, limit: usize) -> (statement: Option<
    Statement,
>)
    ensures
        statement is None <==> limit == 0,
        statement is Some ==> statement->0@ == listing_query(
            "SELECT stream, next_seq FROM stream_seq"@,
            past_name(Column::Stream, optional(after)) + read::prefix_conditions(optional(prefix)),
            " ORDER BY stream LIMIT "@,
            limit,
        ),
{
    if limit == 0 {
        return None;
    }
    let mut clauses = name_cursor(Column::Stream, after);
    let ghost cursor = sql::clause_views(clauses@);
    if let Some(prefix) = prefix {
        read::push_prefix(&mut clauses, prefix);
    }
    proof {
        assert(sql::clause_views(clauses@) =~= cursor + read::prefix_conditions(
            optional(prefix),
        ));
    }
    Some(
        listing("SELECT stream, next_seq FROM stream_seq", &clauses, " ORDER BY stream LIMIT ", limit),
    )
}

/// Every kind the log currently holds an event of, ordered by kind.
pub fn kinds(after: Option<&str>, limit: usize) -> (statement: Option<Statement>)
    ensures
        statement is None <==> limit == 0,
        statement is Some ==> statement->0@ == listing_query(
            "SELECT DISTINCT kind FROM events"@,
            past_name(Column::Kind, optional(after)),
            " ORDER BY kind LIMIT "@,
            limit,
        ),
{
    if limit == 0 {
        return None;
    }
    let clauses = name_cursor(Column::Kind, after);
    Some(listing("SELECT DISTINCT kind FROM events", &clauses, " ORDER BY kind LIMIT ", limit))
}

/// Every consumer that has saved a checkpoint, ordered by name.
pub fn checkpoints(after: Option<&str>, limit: usize) -> (statement: Option<Statement>)
    ensures
        statement is None <==> limit == 0,
        statement is Some ==> statement->0@ == listing_query(
            "SELECT consumer, position, updated_ms FROM checkpoints"@,
            past_name(Column::Consumer, optional(after)),
            " ORDER BY consumer LIMIT "@,
            limit,
        ),
{
    if limit == 0 {
        return None;
    }
    let clauses = name_cursor(Column::Consumer, after);
    Some(
        listing(
            "SELECT consumer, position, updated_ms FROM checkpoints",
            &clauses,
            " ORDER BY consumer LIMIT ",
            limit,
        ),
    )
}

/// Every application of a retention plan, oldest first.
pub fn retention_ledger(after: Option<u64>, limit: usize) -> (statement: Option<Statement>)
    ensures
        statement is None <==> limit == 0,
        statement is Some ==> statement->0@ == listing_query(
            "SELECT id, applied_ms, plan, removed_count, highest_removed FROM retention"@,
            past_id(after),
            " ORDER BY id LIMIT "@,
            limit,
        ),
{
    if limit == 0 {
        return None;
    }
    let clauses = id_cursor(after);
    Some(
        listing(
            "SELECT id, applied_ms, plan, removed_count, highest_removed FROM retention",
            &clauses,
            " ORDER BY id LIMIT ",
            limit,
        ),
    )
}

/// Every export receipt, oldest first.
pub fn export_receipts(after: Option<u64>, limit: usize) -> (statement: Option<Statement>)
    ensures
        statement is None <==> limit == 0,
        statement is Some ==> statement->0@ == listing_query(
            "SELECT id, taken_ms, from_position, through, count, whole, landed_ms FROM exports"@,
            past_id(after),
            " ORDER BY id LIMIT "@,
            limit,
        ),
{
    if limit == 0 {
        return None;
    }
    let clauses = id_cursor(after);
    Some(
        listing(
            "SELECT id, taken_ms, from_position, through, count, whole, landed_ms FROM exports",
            &clauses,
            " ORDER BY id LIMIT ",
            limit,
        ),
    )
}

/// A stored number, read as 0 where it is below.
pub open spec fn at_least_zero(stored: i64) -> u64 {
    if stored < 0 {
        0
    } else {
        stored as u64
    }
}

fn floored(stored: i64) -> (value: u64)
    ensures
        value == at_least_zero(stored),
{
    if stored < 0 {
        0
    } else {
        stored as u64
    }
}

/// A stored position. A negative one, which nothing here writes, reads as the
/// beginning rather than as a huge position.
pub fn position_of(stored: i64) -> (position: Position)
    ensures
        position == Position(at_least_zero(stored)),
{
    Position::new(floored(stored))
}

/// The head a stored counter stands for: the number before the next, and 0
/// where there is none.
pub open spec fn head_of(next_seq: i64) -> u64 {
    if next_seq <= 1 {
        0
    } else {
        (next_seq - 1) as u64
    }
}

impl StreamInfo {
    /// A row of the stream listing.
    pub fn from_row(stream: String, next_seq: i64) -> (info: Self)
        ensures
            info.stream == stream,
            info.head_seq == head_of(next_seq),
    {
        StreamInfo { stream, head_seq: floored(next_seq).saturating_sub(1) }
    }
}

impl ConsumerCheckpoint {
    /// A row of the checkpoint listing.
    pub fn from_row(consumer: String, position: i64, updated_ms: i64) -> (checkpoint: Self)
        ensures
            checkpoint == (ConsumerCheckpoint {
                consumer,
                position: Position(at_least_zero(position)),
                updated_ms: at_least_zero(updated_ms),
            }),
    {
        ConsumerCheckpoint {
            consumer,
            position: position_of(position),
            updated_ms: floored(updated_ms),
        }
    }
}

impl RetentionEntry {
    /// A row of the ledger.
    pub fn from_row(
        id: i64,
        applied_ms: i64,
        plan: String,
        removed_count: i64,
        highest_removed: i64,
    ) -> (entry: Self)
        ensures
            entry == (RetentionEntry {
                id: at_least_zero(id),
                applied_ms: at_least_zero(applied_ms),
                plan,
                removed_count: at_least_zero(removed_count) as usize,
                highest_removed: Position(at_least_zero(highest_removed)),
            }),
    {
        RetentionEntry {
            id: floored(id),
            applied_ms: floored(applied_ms),
            plan,
            removed_count: #[verifier::truncate] (floored(removed_count) as usize),
            highest_removed: position_of(highest_removed),
        }
    }
}

/// How a row of the exports table is listed.
pub open spec fn listed_export(id: i64, row: ExportRow) -> ExportRecord {
    ExportRecord {
        receipt: ExportReceipt {
            id: at_least_zero(id),
            from: Position(at_least_zero(row.from)),
            through: Position(at_least_zero(row.through)),
            count: at_least_zero(row.count) as usize,
            whole: row.whole != 0,
        },
        taken_ms: at_least_zero(row.taken_ms),
        landed_ms: match row.landed_ms {
            Some(landed_ms) => Some(at_least_zero(landed_ms)),
            None => None,
        },
    }
}

impl ExportRecord {
    /// A row of the receipt listing.
    pub fn from_row(
        id: i64,
        taken_ms: i64,
        range: (i64, i64),
        count: i64,
        whole: i64,
        landed_ms: Option<i64>,
    ) -> (record: Self)
        ensures
            record == listed_export(
                id,
                ExportRow {
                    taken_ms,
                    from: range.0,
                    through: range.1,
                    count,
                    whole,
                    landed_ms,
                },
            ),
    {
        ExportRecord {
            receipt: ExportReceipt {
                id: floored(id),
                from: position_of(range.0),
                through: position_of(range.1),
                count: #[verifier::truncate] (floored(count) as usize),
                whole: whole != 0,
            },
            taken_ms: floored(taken_ms),
            landed_ms: match landed_ms {
                Some(landed) => Some(floored(landed)),
                None => None,
            },
        }
    }
}

/// A row of the stream listing.
pub open spec fn stream_row(stream: Seq<char>) -> Row {
    Row {
        cells: |column: Column|
            match column {
                Column::Stream => Bound::Text(stream),
                _ => Bound::Null,
            },
        meta: Map::empty(),
        engine: Engine::unasked(),
    }
}

/// Whether a name is past a cursor.
pub open spec fn past(after: Option<Seq<char>>, name: Seq<char>) -> bool {
    after is Some ==> text::text_lt(after->0, name)
}

/// Whether a listing from a cursor, under a prefix, asks for a name.
pub open spec fn asked(
    after: Option<Seq<char>>,
    prefix: Option<Seq<char>>,
    name: Seq<char>,
) -> bool {
    past(after, name) && (prefix is Some ==> prefix->0.is_prefix_of(name))
}

/// A page of the stream listing holds the names past its cursor that start
/// with its prefix, and no others.
pub proof fn stream_listing_is_exact(
    after: Option<Seq<char>>,
    prefix: Option<Seq<char>>,
    stream: Seq<char>,
)
    ensures
        sql::meets(
            past_name(Column::Stream, after) + read::prefix_conditions(prefix),
            stream_row(stream),
        ) <==> asked(after, prefix, stream),
{
    let row = stream_row(stream);
    let cursor = past_name(Column::Stream, after);
    read::meets_both(cursor, read::prefix_conditions(prefix), row);
    read::prefix_selects(prefix, row, stream);
    if after is Some {
        assert(sql::holds(cursor[0], row) == text::text_lt(after->0, stream));
    }
}

/// A row of a listing by name.
pub open spec fn name_row(column: Column, name: Seq<char>) -> Row {
    Row {
        cells: |other: Column|
            if other == column {
                Bound::Text(name)
            } else {
                Bound::Null
            },
        meta: Map::empty(),
        engine: Engine::unasked(),
    }
}

/// A page of the kinds or of the consumers holds the names past its cursor,
/// and no others.
pub proof fn name_listing_is_exact(column: Column, after: Option<Seq<char>>, name: Seq<char>)
    ensures
        sql::meets(past_name(column, after), name_row(column, name)) <==> asked(after, None, name),
{
    if after is Some {
        assert(sql::holds(past_name(column, after)[0], name_row(column, name)) == text::text_lt(
            after->0,
            name,
        ));
    }
}

/// The names a listing asks for, among the names there are.
pub open spec fn asked_of(
    names: Seq<Seq<char>>,
    after: Option<Seq<char>>,
    prefix: Option<Seq<char>>,
) -> Seq<Seq<char>>
    decreases names.len(),
{
    if names.len() == 0 {
        Seq::empty()
    } else {
        let front = asked_of(names.drop_last(), after, prefix);
        if asked(after, prefix, names.last()) {
            front.push(names.last())
        } else {
            front
        }
    }
}

/// One page of a listing.
pub open spec fn name_page(
    names: Seq<Seq<char>>,
    after: Option<Seq<char>>,
    prefix: Option<Seq<char>>,
    limit: nat,
) -> Seq<Seq<char>> {
    let all = asked_of(names, after, prefix);
    if all.len() <= limit {
        all
    } else {
        all.take(limit as int)
    }
}

/// What paging lists: a page, and, unless it came back short, what paging
/// lists from its last name on.
pub open spec fn paged_names(
    names: Seq<Seq<char>>,
    after: Option<Seq<char>>,
    prefix: Option<Seq<char>>,
    limit: nat,
) -> Seq<Seq<char>>
    decreases asked_of(names, after, prefix).len(),
    when limit > 0 && json::in_order(names)
    via name_paging_ends
{
    let page = name_page(names, after, prefix, limit);
    if page.len() == limit {
        page + paged_names(names, Some(page.last()), prefix, limit)
    } else {
        page
    }
}

#[via_fn]
proof fn name_paging_ends(
    names: Seq<Seq<char>>,
    after: Option<Seq<char>>,
    prefix: Option<Seq<char>>,
    limit: nat,
) {
    if name_page(names, after, prefix, limit).len() == limit {
        next_name_page(names, after, prefix, limit);
    }
}

/// The names of an ordered list from the first that is past a cursor.
spec fn rest_past(names: Seq<Seq<char>>, after: Option<Seq<char>>) -> Seq<Seq<char>>
    decreases names.len(),
{
    if names.len() == 0 || past(after, names[0]) {
        names
    } else {
        rest_past(names.drop_first(), after)
    }
}

proof fn rest_past_push(names: Seq<Seq<char>>, name: Seq<char>, after: Option<Seq<char>>)
    requires
        json::in_order(names.push(name)),
    ensures
        rest_past(names.push(name), after) == (if past(after, name) {
            rest_past(names, after).push(name)
        } else {
            rest_past(names, after)
        }),
    decreases names.len(),
{
    reveal_with_fuel(rest_past, 2);
    let all = names.push(name);
    if names.len() == 0 {
        assert(all.drop_first() =~= names);
        assert(all[0] == name);
    } else {
        assert(all[0] == names[0]);
        assert(all[names.len() as int] == name);
        assert(text::text_lt(all[0], all[names.len() as int]));
        if past(after, names[0]) {
            if after is Some {
                text::text_transitive(after->0, names[0], name);
            }
        } else {
            let rest = names.drop_first();
            assert(all.drop_first() =~= rest.push(name));
            assert forall|i: int, j: int| 0 <= i < j < rest.push(name).len() implies text::text_lt(
                #[trigger] rest.push(name)[i],
                #[trigger] rest.push(name)[j],
            ) by {
                assert(text::text_lt(all[i + 1], all[j + 1]));
            }
            rest_past_push(rest, name, after);
        }
    }
}

proof fn rest_past_one_of_them(names: Seq<Seq<char>>, k: int)
    requires
        json::in_order(names),
        0 <= k < names.len(),
    ensures
        rest_past(names, Some(names[k])) == names.skip(k + 1),
    decreases k,
{
    reveal_with_fuel(rest_past, 2);
    let rest = names.drop_first();
    assert forall|i: int, j: int| 0 <= i < j < rest.len() implies text::text_lt(
        #[trigger] rest[i],
        #[trigger] rest[j],
    ) by {
        assert(text::text_lt(names[i + 1], names[j + 1]));
    }
    text::text_order(names[k], names[0]);
    text::text_order(names[0], names[k]);
    if k == 0 {
        if rest.len() > 0 {
            assert(text::text_lt(names[0], names[1]));
            assert(rest[0] == names[1]);
        }
        assert(rest =~= names.skip(1));
    } else {
        assert(text::text_lt(names[0], names[k]));
        rest_past_one_of_them(rest, k - 1);
        assert(rest[k - 1] == names[k]);
        assert(rest.skip(k) =~= names.skip(k + 1));
    }
}

/// The names asked for are names there are, in order, each as it was asked.
proof fn asked_of_is_in_order(
    names: Seq<Seq<char>>,
    after: Option<Seq<char>>,
    prefix: Option<Seq<char>>,
)
    requires
        json::in_order(names),
    ensures
        json::in_order(asked_of(names, after, prefix)),
        forall|name: Seq<char>| #[trigger]
            asked_of(names, after, prefix).contains(name) <==> names.contains(name) && asked(
                after,
                prefix,
                name,
            ),
    decreases names.len(),
{
    let all = asked_of(names, after, prefix);
    if names.len() > 0 {
        let fewer = names.drop_last();
        let front = asked_of(fewer, after, prefix);
        assert forall|i: int, j: int| 0 <= i < j < fewer.len() implies text::text_lt(
            #[trigger] fewer[i],
            #[trigger] fewer[j],
        ) by {
            assert(text::text_lt(names[i], names[j]));
        }
        asked_of_is_in_order(fewer, after, prefix);
        assert forall|i: int, j: int| 0 <= i < j < all.len() implies text::text_lt(
            #[trigger] all[i],
            #[trigger] all[j],
        ) by {
            assert(all[i] == front[i]);
            if j < front.len() {
                assert(all[j] == front[j]);
            } else {
                assert(front.contains(front[i]));
                assert(fewer.contains(front[i]));
                let k = choose|k: int| 0 <= k < fewer.len() && fewer[k] == front[i];
                assert(text::text_lt(names[k], names[names.len() - 1]));
            }
        }
        assert forall|name: Seq<char>| #[trigger] all.contains(name) <==> names.contains(name)
            && asked(after, prefix, name) by {
            assert(front.contains(name) <==> fewer.contains(name) && asked(after, prefix, name));
            if all.contains(name) {
                let k = choose|k: int| 0 <= k < all.len() && all[k] == name;
                if k < front.len() {
                    assert(front[k] == name);
                    let l = choose|l: int| 0 <= l < fewer.len() && fewer[l] == name;
                    assert(names[l] == name);
                } else {
                    assert(names[names.len() - 1] == name);
                }
            }
            if names.contains(name) && asked(after, prefix, name) {
                let k = choose|k: int| 0 <= k < names.len() && names[k] == name;
                if k < fewer.len() {
                    assert(fewer[k] == name);
                    assert(front.contains(name));
                    let l = choose|l: int| 0 <= l < front.len() && front[l] == name;
                    assert(all[l] == name);
                } else {
                    assert(all[front.len() as int] == name);
                }
            }
        }
    }
}

/// Moving the cursor on leaves, of the names asked for, those past it.
proof fn cursor_moved_on(
    names: Seq<Seq<char>>,
    after: Option<Seq<char>>,
    prefix: Option<Seq<char>>,
    cursor: Seq<char>,
)
    requires
        json::in_order(names),
        past(after, cursor),
    ensures
        asked_of(names, Some(cursor), prefix) == rest_past(
            asked_of(names, after, prefix),
            Some(cursor),
        ),
    decreases names.len(),
{
    if names.len() > 0 {
        let fewer = names.drop_last();
        let name = names.last();
        assert forall|i: int, j: int| 0 <= i < j < fewer.len() implies text::text_lt(
            #[trigger] fewer[i],
            #[trigger] fewer[j],
        ) by {
            assert(text::text_lt(names[i], names[j]));
        }
        cursor_moved_on(fewer, after, prefix, cursor);
        if asked(Some(cursor), prefix, name) && after is Some {
            text::text_transitive(after->0, cursor, name);
        }
        if asked(after, prefix, name) {
            asked_of_is_in_order(names, after, prefix);
            rest_past_push(asked_of(fewer, after, prefix), name, Some(cursor));
        }
    }
}

/// The page after a full page begins where it ended.
proof fn next_name_page(
    names: Seq<Seq<char>>,
    after: Option<Seq<char>>,
    prefix: Option<Seq<char>>,
    limit: nat,
)
    requires
        json::in_order(names),
        limit > 0,
        name_page(names, after, prefix, limit).len() == limit,
    ensures
        asked_of(names, Some(name_page(names, after, prefix, limit).last()), prefix) == asked_of(
            names,
            after,
            prefix,
        ).skip(limit as int),
        asked_of(names, Some(name_page(names, after, prefix, limit).last()), prefix).len()
            < asked_of(names, after, prefix).len(),
{
    let all = asked_of(names, after, prefix);
    let last = name_page(names, after, prefix, limit).last();
    asked_of_is_in_order(names, after, prefix);
    assert(last == all[limit - 1]);
    assert(all.contains(last));
    cursor_moved_on(names, after, prefix, last);
    rest_past_one_of_them(all, limit - 1);
}

/// Paging by the last name until a page comes back short lists every name
/// asked for, each once, in order, whatever the limit.
pub proof fn paging_lists_every_name_once(
    names: Seq<Seq<char>>,
    after: Option<Seq<char>>,
    prefix: Option<Seq<char>>,
    limit: nat,
)
    requires
        json::in_order(names),
        limit > 0,
    ensures
        paged_names(names, after, prefix, limit) == asked_of(names, after, prefix),
        json::in_order(paged_names(names, after, prefix, limit)),
        paged_names(names, after, prefix, limit).no_duplicates(),
        forall|name: Seq<char>| #[trigger]
            paged_names(names, after, prefix, limit).contains(name) <==> names.contains(name)
                && asked(after, prefix, name),
    decreases asked_of(names, after, prefix).len(),
{
    let page = name_page(names, after, prefix, limit);
    let all = asked_of(names, after, prefix);
    asked_of_is_in_order(names, after, prefix);
    if page.len() == limit {
        next_name_page(names, after, prefix, limit);
        paging_lists_every_name_once(names, Some(page.last()), prefix, limit);
        assert(page + all.skip(limit as int) =~= all);
    }
    assert forall|i: int, j: int| 0 <= i < all.len() && 0 <= j < all.len() && i != j implies all[i]
        != all[j] by {
        text::text_order(all[i], all[j]);
        text::text_order(all[j], all[i]);
        if i < j {
            assert(text::text_lt(all[i], all[j]));
        } else {
            assert(text::text_lt(all[j], all[i]));
        }
    }
}

/// A page of the ledger or of the receipts holds the rows past its cursor; a
/// cursor beyond every row there can be holds none.
pub proof fn id_listing_is_exact(after: u64, id: i64)
    ensures
        Relation::After.of_integers(id, clamped_id(after)) <==> id > after,
{
}

/// A receipt lists as it was taken, and as landed exactly after it was
/// confirmed: whatever happened to the table since its row was written, the
/// listing shows the range, the count and the flag the taker was given, and a
/// landing exactly when there was a confirmation of its id.
pub proof fn receipts_list_as_taken(
    table: Map<i64, ExportRow>,
    id: i64,
    taken_ms: u64,
    receipt: ExportReceipt,
    acts: Seq<ExportAct>,
)
    requires
        id >= 0,
        sql::position_refusal(receipt.from) is None,
        sql::position_refusal(receipt.through) is None,
        receipt.count <= i64::MAX,
        table.contains_key(id),
        table[id] == retention::taken_row(taken_ms, receipt),
        forall|k: int|
            0 <= k < acts.len() && (#[trigger] acts[k]) is Taken ==> acts[k]->Taken_0 != id,
    ensures
        ({
            let record = listed_export(id, retention::acted(table, acts)[id]);
            &&& retention::acted(table, acts).contains_key(id)
            &&& record.receipt == (ExportReceipt { id: id as u64, ..receipt })
            &&& record.landed_ms is Some <==> exists|k: int|
                0 <= k < acts.len() && retention::confirms(#[trigger] acts[k], id)
        }),
{
    retention::landed_exactly_when_confirmed(table, acts, id);
}

/// The head a listing shows is the head an append is held against: 0 for a
/// counter that was never moved, and the number before the next otherwise.
pub proof fn listed_head_is_the_appended_head(next_seq: i64)
    requires
        next_seq >= 1,
    ensures
        crate::store::Expected::head_before(next_seq as u64) is Unwritten <==> head_of(next_seq)
            == 0,
        head_of(next_seq) > 0 ==> crate::store::Expected::head_before(next_seq as u64)
            == crate::store::Expected::Last(head_of(next_seq)),
{
}

/// A listing asks for a name exactly when it is past the cursor, where there is
/// one, and begins with the prefix, where there is one.
pub proof fn listings_ask_for_names(
    after: Option<Seq<char>>,
    prefix: Option<Seq<char>>,
    name: Seq<char>,
)
    ensures
        asked(after, prefix, name) <==> {
            &&& after is Some ==> text::text_lt(after->0, name)
            &&& prefix is Some ==> prefix->0.len() <= name.len() && forall|i: int|
                0 <= i < prefix->0.len() ==> #[trigger] prefix->0[i] == name[i]
        },
        sql::meets(
            past_name(Column::Stream, after) + read::prefix_conditions(prefix),
            stream_row(name),
        ) <==> {
            &&& after is Some ==> text::text_lt(after->0, name)
            &&& prefix is Some ==> prefix->0.len() <= name.len() && forall|i: int|
                0 <= i < prefix->0.len() ==> #[trigger] prefix->0[i] == name[i]
        },
{
    stream_listing_is_exact(after, prefix, name);
    if prefix is Some {
        let p = prefix->0;
        if p.is_prefix_of(name) {
            assert forall|i: int| 0 <= i < p.len() implies #[trigger] p[i] == name[i] by {
                assert(name.take(p.len() as int)[i] == name[i]);
            }
        }
        if p.len() <= name.len() && forall|i: int| 0 <= i < p.len() ==> #[trigger] p[i] == name[i] {
            assert(name.take(p.len() as int) =~= p);
        }
    }
}

/// A listing's statement: what it selects, its conditions where it has any, its
/// order and its limit.
pub proof fn listings_ask_for_their_page(
    select: Seq<char>,
    conditions: Seq<Condition>,
    order: Seq<char>,
    limit: usize,
    after: Option<Seq<char>>,
    column: Column,
    id: Option<u64>,
)
    ensures
        listing_query(select, conditions, order, limit).sql == select + (if conditions.len() == 0 {
            Seq::<char>::empty()
        } else {
            " WHERE "@ + sql::predicate_text(conditions)
        }) + order + "?"@ + text::decimal_text(sql::predicate_params(conditions).len() + 1),
        listing_query(select, conditions, order, limit).params == sql::predicate_params(
            conditions,
        ).push(
            Bound::Integer(
                if limit <= i64::MAX {
                    limit as i64
                } else {
                    -1i64
                },
            ),
        ),
        after is None ==> past_name(column, after).len() == 0,
        after is Some ==> past_name(column, after) == seq![
            Condition::Compare(column, Relation::After, Bound::Text(after->0)),
        ],
        id is None ==> past_id(id).len() == 0,
        id is Some ==> past_id(id) == seq![
            Condition::Compare(
                Column::Id,
                Relation::After,
                Bound::Integer(
                    if id->0 <= i64::MAX {
                        id->0 as i64
                    } else {
                        i64::MAX
                    },
                ),
            ),
        ],
{
    let number = text::decimal_text(sql::predicate_params(conditions).len() + 1);
    let all = listing_query(select, conditions, order, limit).sql;
    if conditions.len() == 0 {
        assert(select + Seq::<char>::empty() + order + ("?"@ + number) =~= select + Seq::<
            char,
        >::empty() + order + "?"@ + number);
    } else {
        assert(select + " WHERE "@ + sql::predicate_text(conditions) + order + ("?"@ + number)
            =~= select + (" WHERE "@ + sql::predicate_text(conditions)) + order + "?"@ + number);
    }
}

/// What the rows of the listings read as: a stored number as itself, and as 0
/// where it is below; a stream's head the number before its next; and a receipt
/// whole where its column is not 0, landed where it has a time.
pub proof fn listed_rows_read_as_stored(stored: i64, id: i64, row: ExportRow)
    ensures
        stored >= 0 ==> at_least_zero(stored) == stored,
        stored < 0 ==> at_least_zero(stored) == 0,
        stored > 1 ==> head_of(stored) == stored - 1,
        stored <= 1 ==> head_of(stored) == 0,
        ({
            let record = listed_export(id, row);
            &&& id >= 0 ==> record.receipt.id == id
            &&& row.from >= 0 ==> record.receipt.from.0 == row.from
            &&& row.through >= 0 ==> record.receipt.through.0 == row.through
            &&& 0 <= row.count <= usize::MAX ==> record.receipt.count == row.count
            &&& record.receipt.whole <==> row.whole != 0
            &&& row.taken_ms >= 0 ==> record.taken_ms == row.taken_ms
            &&& record.landed_ms is Some <==> row.landed_ms is Some
            &&& row.landed_ms is Some && row.landed_ms->0 >= 0 ==> record.landed_ms->0
                == row.landed_ms->0
        }),
{
}

/// A cursor or a prefix is the text it was given as.
pub proof fn optional_names_are_as_given(name: Option<&str>)
    ensures
        name is None ==> optional(name) is None,
        name is Some ==> optional(name) == Some(name->0@),
{
}

} // verus!
