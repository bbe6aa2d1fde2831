//! Reading the log: the statements a read runs, the pages a replay or a
//! subscription is made of, and the events they hand out.
//!
//! A read across streams is a page: everything after a position that a filter
//! selects, in position order, up to a limit. Anything that reads more than a
//! page is that read in a loop with the cursor fed back in. Nothing is held
//! between pages.

use std::sync::Arc;

use vstd::prelude::*;

use crate::error::{Error, Failure};
use crate::event;
use crate::json::{Json, Object, Value};
use crate::log::{self, Axes, Filter};
use crate::position::Position;
use crate::row::{Stored, StoredRow, COLUMNS};
use crate::sql::{
    self, Bound, Clause, Column, Condition, Engine, Query, Relation, Row, Shape, SqlValue,
    Statement,
};
use crate::text;
use crate::upcast::{self, Current, Upcaster};

verus! {

/// An event read back from the log, with where it sits. It has already been
/// through the upcaster chain.
#[derive(Debug)]
pub struct Recorded {
    pub position: Position,
    pub stream: String,
    pub event: Current,
}

/// What a [`Recorded`] event is.
pub ghost struct Record {
    pub position: Position,
    pub stream: Seq<char>,
    pub event: Map<Seq<char>, Json>,
}

impl Recorded {
    pub open spec fn view(&self) -> Record {
        Record { position: self.position, stream: self.stream@, event: self.event@ }
    }

    /// The event's `kind`, as it reads after upcasting.
    pub fn kind(&self) -> (kind: &str)
        requires
            self@.event.contains_key(event::FIELD_KIND@),
            self@.event[event::FIELD_KIND@] is String,
        ensures
            self@.event[event::FIELD_KIND@] == Json::String(kind@),
    {
        self.event.kind()
    }

    /// The per-stream sequence.
    pub fn seq(&self) -> (seq: u64)
        requires
            event::has_u64(self@.event, event::FIELD_SEQ@),
        ensures
            self@.event[event::FIELD_SEQ@] == event::whole(seq),
    {
        self.event.seq()
    }

    /// The underlying object.
    pub fn into_inner(self) -> (object: Object)
        ensures
            object@ == self@.event,
    {
        self.event.into_inner()
    }
}

impl Clone for Recorded {
    fn clone(&self) -> (copy: Self)
        ensures
            copy@ == self@,
    {
        Recorded {
            position: self.position,
            stream: self.stream.clone(),
            event: self.event.clone(),
        }
    }
}

/// The conditions a stream prefix stands for: none for the empty prefix, and
/// an open range where the prefix has no bound.
pub open spec fn prefix_conditions(prefix: Option<Seq<char>>) -> Seq<Condition> {
    match prefix {
        Some(prefix) => if prefix.len() == 0 {
            Seq::empty()
        } else {
            let from = seq![
                Condition::Compare(Column::Stream, Relation::AtLeast, Bound::Text(prefix)),
            ];
            match log::prefix_bound(prefix) {
                Some(bound) => from.push(
                    Condition::Compare(Column::Stream, Relation::Below, Bound::Text(bound)),
                ),
                None => from,
            }
        },
        None => Seq::empty(),
    }
}

/// A condition that a column holds one of some texts, where a set is given.
pub open spec fn set_conditions(column: Column, set: Option<Seq<Seq<char>>>) -> Seq<Condition> {
    match set {
        Some(texts) => seq![Condition::OneOf(column, texts)],
        None => Seq::empty(),
    }
}

/// The conditions some `meta` pairs stand for, one each.
pub open spec fn meta_conditions(pairs: Option<Seq<(Seq<char>, Json)>>) -> Seq<Condition> {
    match pairs {
        Some(pairs) => Seq::new(
            pairs.len(),
            |i: int|
                Condition::Meta(
                    pairs[i].0,
                    sql::scalar_bound(pairs[i].1),
                    sql::shape_of(pairs[i].1),
                ),
        ),
        None => Seq::empty(),
    }
}

/// What a read after `from` asks of a row: past the cursor, then each axis of
/// the filter.
pub open spec fn read_conditions(from: Position, axes: Axes) -> Seq<Condition> {
    seq![
        Condition::Compare(Column::Position, Relation::After, Bound::Integer(from.0 as i64)),
    ] + set_conditions(Column::Stream, axes.streams) + prefix_conditions(axes.stream_prefix)
        + set_conditions(Column::Kind, axes.kinds) + meta_conditions(axes.meta)
}

/// Why the first of these `meta` keys that has no spelling has none, if one
/// has none.
pub open spec fn keys_refusal(pairs: Seq<(Seq<char>, Json)>) -> Option<Seq<char>>
    decreases pairs.len(),
{
    if pairs.len() == 0 {
        None
    } else {
        match keys_refusal(pairs.drop_last()) {
            Some(message) => Some(message),
            None => sql::meta_key_refusal(pairs.last().0),
        }
    }
}

/// Why a set is too large to bind, if it is.
pub open spec fn set_refusal(set: Option<Seq<Seq<char>>>, what: Seq<char>) -> Option<Failure> {
    match set {
        Some(texts) => match sql::placeholder_refusal(texts.len(), what) {
            Some(message) => Some(Failure::Unsupported(message)),
            None => None,
        },
        None => None,
    }
}

/// Why a list of `meta` pairs cannot be bound, if it cannot.
pub open spec fn pairs_failure(pairs: Option<Seq<(Seq<char>, Json)>>) -> Option<Failure> {
    match pairs {
        Some(pairs) => match sql::placeholder_refusal(pairs.len(), "meta pairs"@) {
            Some(message) => Some(Failure::Unsupported(message)),
            None => match keys_refusal(pairs) {
                Some(message) => Some(Failure::Validation(message)),
                None => None,
            },
        },
        None => None,
    }
}

/// Why a read cannot be asked, if it cannot: the filter's values first, then
/// the cursor, then each axis in the order it is bound.
pub open spec fn read_failure(from: Position, axes: Axes) -> Option<Failure> {
    if axes.refusal() is Some {
        Some(Failure::Validation(axes.refusal()->0))
    } else if sql::position_refusal(from) is Some {
        Some(Failure::Validation(sql::position_refusal(from)->0))
    } else if set_refusal(axes.streams, "streams"@) is Some {
        set_refusal(axes.streams, "streams"@)
    } else if set_refusal(axes.kinds, "kinds"@) is Some {
        set_refusal(axes.kinds, "kinds"@)
    } else {
        pairs_failure(axes.meta)
    }
}

/// How every read of rows begins.
pub open spec fn select_head() -> Seq<char> {
    "SELECT "@ + COLUMNS@ + " FROM events WHERE "@
}

/// The statement of a predicate over the events, in `order`, up to a limit.
pub open spec fn page_query(conditions: Seq<Condition>, order: Seq<char>, limit: usize) -> Query {
    sql::closed_with(
        Query {
            sql: select_head() + sql::predicate_text(conditions),
            params: sql::predicate_params(conditions),
        },
        order,
        Bound::Integer(sql::limit_value(limit)),
    )
}

/// The statement of a read across streams.
pub open spec fn read_query(from: Position, axes: Axes, limit: usize) -> Query {
    page_query(read_conditions(from, axes), " ORDER BY position LIMIT "@, limit)
}

/// Renders a page of the events.
fn page_statement(clauses: &Vec<Clause>, order: &str, limit: usize) -> (statement: Statement)
    ensures
        statement@ == page_query(sql::clause_views(clauses@), order@, limit),
{
    let head = text::cat3("SELECT ", COLUMNS, " FROM events WHERE ");
    let body = sql::render_where(head.as_str(), clauses);
    sql::close_with(body, order, SqlValue::Integer(sql::clamp_limit(limit)))
}

/// Adds the conditions of a stream prefix.
pub fn push_prefix(clauses: &mut Vec<Clause>, prefix: &str)
    ensures
        sql::clause_views(final(clauses)@) == sql::clause_views(old(clauses)@)
            + prefix_conditions(Some(prefix@)),
{
    let ghost had = sql::clause_views(clauses@);
    if prefix.is_empty() {
        proof {
            assert(had + Seq::<Condition>::empty() =~= had);
        }
        return;
    }
    let low = Clause::Compare(
        Column::Stream,
        Relation::AtLeast,
        SqlValue::Text(prefix.to_owned()),
    );
    clauses.push(low);
    proof {
        assert(sql::clause_views(clauses@) =~= had.push(low@));
    }
    if let Some(bound) = log::stream_prefix_bound(prefix) {
        let high = Clause::Compare(Column::Stream, Relation::Below, SqlValue::Text(bound));
        clauses.push(high);
        proof {
            assert(sql::clause_views(clauses@) =~= had.push(low@).push(high@));
        }
    }
    proof {
        assert(sql::clause_views(clauses@) =~= had + prefix_conditions(Some(prefix@)));
    }
}

/// Adds one condition.
fn push_clause(clauses: &mut Vec<Clause>, clause: Clause)
    ensures
        sql::clause_views(final(clauses)@) == sql::clause_views(old(clauses)@) + seq![clause@],
{
    let ghost had = sql::clause_views(clauses@);
    let ghost added = clause@;
    clauses.push(clause);
    proof {
        assert(sql::clause_views(clauses@) =~= had + seq![added]);
    }
}

proof fn key_refusal_stays(pairs: Seq<(Seq<char>, Json)>, n: int)
    requires
        0 <= n <= pairs.len(),
        keys_refusal(pairs.take(n)) is Some,
    ensures
        keys_refusal(pairs) == keys_refusal(pairs.take(n)),
    decreases pairs.len() - n,
{
    if n == pairs.len() {
        assert(pairs.take(n) =~= pairs);
    } else {
        assert(pairs.take(n + 1).drop_last() =~= pairs.take(n));
        key_refusal_stays(pairs, n + 1);
    }
}

/// Adds the conditions of some `meta` pairs, or says which key has no
/// spelling.
fn push_pairs(clauses: &mut Vec<Clause>, pairs: &Vec<(String, Value)>) -> (done: Result<(), Error>)
    ensures
        done is Ok <==> keys_refusal(log::pair_views(pairs@)) is None,
        done is Ok ==> sql::clause_views(final(clauses)@) == sql::clause_views(old(clauses)@)
            + meta_conditions(Some(log::pair_views(pairs@))),
        done is Err ==> done->Err_0@ == Failure::Validation(
            keys_refusal(log::pair_views(pairs@))->0,
        ),
{
    let ghost all = log::pair_views(pairs@);
    let ghost had = sql::clause_views(clauses@);
    let ghost want = meta_conditions(Some(all));
    let mut i: usize = 0;
    proof {
        assert(all.take(0) =~= Seq::<(Seq<char>, Json)>::empty());
        assert(had + want.take(0) =~= had);
    }
    while i < pairs.len()
        invariant
            all == log::pair_views(pairs@),
            want == meta_conditions(Some(all)),
            i <= pairs@.len(),
            keys_refusal(all.take(i as int)) is None,
            sql::clause_views(clauses@) == had + want.take(i as int),
        decreases pairs@.len() - i,
    {
        let pair = &pairs[i];
        proof {
            assert(all.take(i + 1).drop_last() =~= all.take(i as int));
            assert(all.take(i + 1).last() == (pair.0@, pair.1@));
        }
        match sql::meta_expr(pair.0.as_str()) {
            Ok(_) => {},
            Err(error) => {
                proof {
                    key_refusal_stays(all, i + 1);
                }
                return Err(error);
            },
        }
        let clause = Clause::Meta(
            pair.0.clone(),
            sql::meta_param(&pair.1),
            Shape::of(&pair.1),
        );
        proof {
            assert(clause@ == want[i as int]);
            assert(had + want.take(i + 1) =~= had + want.take(i as int) + seq![clause@]);
        }
        push_clause(clauses, clause);
        i += 1;
    }
    proof {
        assert(all.take(i as int) =~= all);
        assert(want.take(i as int) =~= want);
    }
    Ok(())
}

/// The statement that reads events after `from` that `filter` selects, in
/// position order, or `None` where nothing can match and there is nothing to
/// ask.
pub fn select_stored(from: Position, filter: &Filter, limit: usize) -> (statement: Result<
    Option<Statement>,
    Error,
>)
    ensures
        filter@.nothing() || limit == 0 ==> statement is Ok && statement->Ok_0 is None,
        !filter@.nothing() && limit != 0 ==> match read_failure(from, filter@) {
            Some(failure) => statement is Err && statement->Err_0@ == failure,
            None => statement is Ok && statement->Ok_0 is Some && statement->Ok_0->0@
                == read_query(from, filter@, limit),
        },
{
    if filter.selects_nothing() || limit == 0 {
        return Ok(None);
    }
    match filter.validate() {
        Ok(()) => {},
        Err(error) => {
            return Err(error);
        },
    }
    let cursor = match sql::stored_position(from) {
        Ok(cursor) => cursor,
        Err(error) => {
            return Err(error);
        },
    };
    let mut clauses: Vec<Clause> = Vec::new();
    proof {
        assert(sql::clause_views(clauses@) =~= Seq::<Condition>::empty());
    }
    push_clause(
        &mut clauses,
        Clause::Compare(Column::Position, Relation::After, SqlValue::Integer(cursor)),
    );
    let ghost first = sql::clause_views(clauses@);
    proof {
        assert(first =~= seq![
            Condition::Compare(Column::Position, Relation::After, Bound::Integer(from.0 as i64)),
        ]);
        assert(first + Seq::<Condition>::empty() =~= first);
    }
    if let Some(streams) = &filter.streams {
        match sql::check_placeholders(streams.len(), "streams") {
            Ok(()) => {},
            Err(error) => {
                return Err(error);
            },
        }
        push_clause(&mut clauses, Clause::OneOf(Column::Stream, text::copied(streams)));
    }
    let ghost second = sql::clause_views(clauses@);
    proof {
        assert(second =~= first + set_conditions(Column::Stream, filter@.streams));
        assert(second + Seq::<Condition>::empty() =~= second);
    }
    if let Some(prefix) = &filter.stream_prefix {
        push_prefix(&mut clauses, prefix.as_str());
    }
    let ghost third = sql::clause_views(clauses@);
    proof {
        assert(third =~= second + prefix_conditions(filter@.stream_prefix));
        assert(third + Seq::<Condition>::empty() =~= third);
    }
    if let Some(kinds) = &filter.kinds {
        match sql::check_placeholders(kinds.len(), "kinds") {
            Ok(()) => {},
            Err(error) => {
                return Err(error);
            },
        }
        push_clause(&mut clauses, Clause::OneOf(Column::Kind, text::copied(kinds)));
    }
    let ghost fourth = sql::clause_views(clauses@);
    proof {
        assert(fourth =~= third + set_conditions(Column::Kind, filter@.kinds));
        assert(fourth + Seq::<Condition>::empty() =~= fourth);
    }
    if let Some(pairs) = &filter.meta {
        match sql::check_placeholders(pairs.len(), "meta pairs") {
            Ok(()) => {},
            Err(error) => {
                return Err(error);
            },
        }
        match push_pairs(&mut clauses, pairs) {
            Ok(()) => {},
            Err(error) => {
                return Err(error);
            },
        }
    }
    proof {
        assert(sql::clause_views(clauses@) =~= read_conditions(from, filter@));
    }
    Ok(Some(page_statement(&clauses, " ORDER BY position LIMIT ", limit)))
}

/// What a read of one stream asks of a row.
pub open spec fn stream_conditions(
    stream: Seq<char>,
    kinds: Option<Seq<Seq<char>>>,
    from_seq: u64,
) -> Seq<Condition> {
    seq![
        Condition::Compare(Column::Stream, Relation::Is, Bound::Text(stream)),
        Condition::Compare(
            Column::Sequence,
            Relation::AtLeast,
            Bound::Integer(from_seq as i64),
        ),
    ] + set_conditions(Column::Kind, kinds)
}

/// The kinds a read names, as texts.
pub open spec fn named(kinds: Option<&Vec<String>>) -> Option<Seq<Seq<char>>> {
    match kinds {
        Some(kinds) => Some(text::views(kinds@)),
        None => None,
    }
}

/// The statement that reads one stream in `seq` order, or `None` where nothing
/// can match: no kind is named, or no stored number reaches `from_seq`.
pub fn select_stream(
    stream: &str,
    kinds: Option<&Vec<String>>,
    from_seq: u64,
    limit: usize,
) -> (statement: Option<Statement>)
    ensures
        statement is None <==> (kinds is Some && kinds->0@.len() == 0) || from_seq > i64::MAX,
        statement is Some ==> statement->0@ == page_query(
            stream_conditions(stream@, named(kinds), from_seq),
            " ORDER BY seq LIMIT "@,
            limit,
        ),
{
    if from_seq > i64::MAX as u64 {
        return None;
    }
    let mut clauses: Vec<Clause> = Vec::new();
    proof {
        assert(sql::clause_views(clauses@) =~= Seq::<Condition>::empty());
    }
    push_clause(
        &mut clauses,
        Clause::Compare(Column::Stream, Relation::Is, SqlValue::Text(stream.to_owned())),
    );
    push_clause(
        &mut clauses,
        Clause::Compare(
            Column::Sequence,
            Relation::AtLeast,
            SqlValue::Integer(from_seq as i64),
        ),
    );
    if let Some(kinds) = kinds {
        if kinds.len() == 0 {
            return None;
        }
        push_clause(&mut clauses, Clause::OneOf(Column::Kind, text::copied(kinds)));
    }
    proof {
        assert(sql::clause_views(clauses@) =~= stream_conditions(
            stream@,
            named(kinds),
            from_seq,
        ));
    }
    Some(page_statement(&clauses, " ORDER BY seq LIMIT ", limit))
}

/// The statement that reads the last `n` events of a stream, newest first.
pub fn select_last(stream: &str, n: usize) -> (statement: Statement)
    ensures
        statement@ == page_query(
            seq![Condition::Compare(Column::Stream, Relation::Is, Bound::Text(stream@))],
            " ORDER BY seq DESC LIMIT "@,
            n,
        ),
{
    let mut clauses: Vec<Clause> = Vec::new();
    proof {
        assert(sql::clause_views(clauses@) =~= Seq::<Condition>::empty());
    }
    push_clause(
        &mut clauses,
        Clause::Compare(Column::Stream, Relation::Is, SqlValue::Text(stream.to_owned())),
    );
    proof {
        assert(sql::clause_views(clauses@) =~= seq![
            Condition::Compare(Column::Stream, Relation::Is, Bound::Text(stream@)),
        ]);
    }
    page_statement(&clauses, " ORDER BY seq DESC LIMIT ", n)
}

/// Rows read newest first, as stream order has them.
pub fn oldest_first(rows: Vec<StoredRow>) -> (ordered: Vec<StoredRow>)
    ensures
        ordered@ == rows@.reverse(),
{
    let ghost given = rows@;
    let mut rows = rows;
    let mut ordered: Vec<StoredRow> = Vec::new();
    while rows.len() > 0
        invariant
            rows@ == given.take(rows@.len() as int),
            rows@.len() + ordered@.len() == given.len(),
            forall|i: int|
                0 <= i < ordered@.len() ==> #[trigger] ordered@[i] == given[given.len() - 1 - i],
        decreases rows@.len(),
    {
        let ghost n = rows@.len();
        let last = rows.pop();
        proof {
            assert(rows@ =~= given.take(n - 1));
        }
        if let Some(last) = last {
            ordered.push(last);
        }
    }
    proof {
        assert(ordered@ =~= given.reverse());
    }
    ordered
}

/// A stored position as the log reads it.
pub fn position_read(stored: i64) -> (position: Position)
    ensures
        position == Position(stored as u64),
{
    Position::new(#[verifier::truncate] (stored as u64))
}

/// The statement that asks for the newest position in the log, 0 when it is
/// empty.
pub fn head_position() -> (statement: Statement)
    ensures
        statement@ == (Query {
            sql: "SELECT COALESCE(MAX(position), 0) FROM events"@,
            params: Seq::empty(),
        }),
{
    Statement::plain("SELECT COALESCE(MAX(position), 0) FROM events")
}

/// A statement with one text bound.
fn about(sql: &str, name: &str) -> (statement: Statement)
    ensures
        statement@ == (Query { sql: sql@, params: seq![Bound::Text(name@)] }),
{
    let params: Vec<SqlValue> = vec![SqlValue::Text(name.to_owned())];
    proof {
        assert(sql::bound_views(params@) =~= seq![Bound::Text(name@)]);
    }
    Statement::with(sql, params)
}

/// The statement that asks for the highest `seq` a stream holds.
pub fn stream_head(stream: &str) -> (statement: Statement)
    ensures
        statement@ == (Query {
            sql: "SELECT MAX(seq) FROM events WHERE stream = ?1"@,
            params: seq![Bound::Text(stream@)],
        }),
{
    about("SELECT MAX(seq) FROM events WHERE stream = ?1", stream)
}

/// The statement that counts a stream's events.
pub fn stream_len(stream: &str) -> (statement: Statement)
    ensures
        statement@ == (Query {
            sql: "SELECT COUNT(*) FROM events WHERE stream = ?1"@,
            params: seq![Bound::Text(stream@)],
        }),
{
    about("SELECT COUNT(*) FROM events WHERE stream = ?1", stream)
}

/// The statement that asks how far a consumer has got.
pub fn load_checkpoint(consumer: &str) -> (statement: Statement)
    ensures
        statement@ == (Query {
            sql: "SELECT position FROM checkpoints WHERE consumer = ?1"@,
            params: seq![Bound::Text(consumer@)],
        }),
{
    about("SELECT position FROM checkpoints WHERE consumer = ?1", consumer)
}

/// Where a consumer's checkpoint stands: the beginning for one that has never
/// reported.
pub open spec fn checkpoint_at(stored: Option<i64>) -> Position {
    match stored {
        Some(position) => Position(position as u64),
        None => Position(0),
    }
}

pub fn checkpoint_loaded(stored: Option<i64>) -> (position: Position)
    ensures
        position == checkpoint_at(stored),
{
    match stored {
        Some(position) => position_read(position),
        None => Position::beginning(),
    }
}

/// The statement that records how far a consumer has got.
pub fn save_checkpoint(consumer: &str, at: Position, now_ms: u64) -> (statement: Result<
    Statement,
    Error,
>)
    ensures
        statement is Ok <==> sql::position_refusal(at) is None,
        statement is Ok ==> statement->Ok_0@ == (Query {
            sql:
                "INSERT INTO checkpoints (consumer, position, updated_ms) VALUES (?1, ?2, ?3) ON CONFLICT(consumer) DO UPDATE SET position = excluded.position, updated_ms = excluded.updated_ms"@,
            params: seq![
                Bound::Text(consumer@),
                Bound::Integer(at.0 as i64),
                Bound::Integer(now_ms as i64),
            ],
        }),
        statement is Err ==> statement->Err_0@ == Failure::Validation(
            sql::position_refusal(at)->0,
        ),
{
    let stored = match sql::stored_position(at) {
        Ok(stored) => stored,
        Err(error) => {
            return Err(error);
        },
    };
    let params: Vec<SqlValue> = vec![
        SqlValue::Text(consumer.to_owned()),
        SqlValue::Integer(stored),
        SqlValue::Integer(#[verifier::truncate] (now_ms as i64)),
    ];
    proof {
        assert(sql::bound_views(params@) =~= seq![
            Bound::Text(consumer@),
            Bound::Integer(at.0 as i64),
            Bound::Integer(now_ms as i64),
        ]);
    }
    Ok(
        Statement::with(
            "INSERT INTO checkpoints (consumer, position, updated_ms) VALUES (?1, ?2, ?3) ON CONFLICT(consumer) DO UPDATE SET position = excluded.position, updated_ms = excluded.updated_ms",
            params,
        ),
    )
}

/// The views of a sequence of stored rows.
pub open spec fn stored_views(rows: Seq<StoredRow>) -> Seq<Stored> {
    Seq::new(rows.len(), |i: int| rows[i]@)
}

/// The events of some stored rows.
pub open spec fn stored_events(rows: Seq<Stored>) -> Seq<Json> {
    Seq::new(rows.len(), |i: int| rows[i].event)
}

/// The views of a sequence of recorded events.
pub open spec fn record_views(records: Seq<Recorded>) -> Seq<Record> {
    Seq::new(records.len(), |i: int| records[i]@)
}

/// Upcasted events with the coordinates of the rows they came from.
pub open spec fn placed(rows: Seq<Stored>, events: Seq<Map<Seq<char>, Json>>) -> Seq<Record> {
    Seq::new(
        events.len(),
        |i: int|
            Record {
                position: Position(rows[i].position),
                stream: rows[i].stream,
                event: events[i],
            },
    )
}

/// Whether reading `rows` through `chain` may answer `answer`: each event is
/// upcasted and keeps the coordinates of its row, and the first that cannot be
/// read fails the whole.
pub open spec fn recorded_through(
    chain: Seq<Arc<dyn Upcaster>>,
    rows: Seq<Stored>,
    answer: Result<Vec<Recorded>, Error>,
) -> bool {
    exists|moved: Seq<Json>| #[trigger]
        upcast::upcasts(chain, stored_events(rows), moved) && match upcast::read_back(moved) {
            Ok(events) => answer is Ok && record_views(answer->Ok_0@) == placed(rows, events),
            Err(failure) => answer is Err && answer->Err_0@ == failure,
        }
}

/// Runs the stored rows of a page through the chain and puts their coordinates
/// back on what comes out.
pub fn select_recorded(chain: &[Arc<dyn Upcaster>], rows: Vec<StoredRow>) -> (recorded: Result<
    Vec<Recorded>,
    Error,
>)
    ensures
        recorded_through(chain@, stored_views(rows@), recorded),
{
    let ghost given = rows@;
    let ghost stored = stored_views(given);
    let mut coordinates: Vec<(u64, String)> = Vec::new();
    let mut events: Vec<Value> = Vec::new();
    for row in it: rows
        invariant
            it.seq() == given,
            coordinates@.len() == it.index(),
            events@.len() == it.index(),
            forall|i: int|
                0 <= i < it.index() ==> (#[trigger] coordinates@[i]).0 == given[i].position
                    && coordinates@[i].1@ == given[i].stream@,
            forall|i: int| 0 <= i < it.index() ==> (#[trigger] events@[i])@ == given[i].event@,
    {
        coordinates.push((row.position, row.stream));
        events.push(row.event);
    }
    proof {
        assert(upcast::value_views(events@) =~= stored_events(stored));
    }
    let moved = upcast::apply_chain(chain, events);
    let ghost out = upcast::value_views(moved@);
    let currents = match upcast::currents(moved) {
        Ok(currents) => currents,
        Err(error) => {
            return Err(error);
        },
    };
    let ghost views = upcast::current_views(currents@);
    proof {
        upcast::reads_are_whole(out);
        assert(views.len() == currents@.len());
    }
    let ghost read = currents@;
    let total: usize = coordinates.len();
    let mut recorded: Vec<Recorded> = Vec::new();
    let mut i: usize = 0;
    for current in it: currents
        invariant
            it.seq() == read,
            total == coordinates@.len(),
            read.len() == given.len(),
            coordinates@.len() == given.len(),
            i == it.index(),
            forall|j: int|
                0 <= j < coordinates@.len() ==> (#[trigger] coordinates@[j]).0 == given[j].position
                    && coordinates@[j].1@ == given[j].stream@,
            recorded@.len() == i,
            forall|j: int|
                0 <= j < i ==> (#[trigger] recorded@[j])@ == (Record {
                    position: Position(given[j].position),
                    stream: given[j].stream@,
                    event: read[j]@,
                }),
    {
        let coordinate = &coordinates[i];
        recorded.push(
            Recorded {
                position: Position::new(coordinate.0),
                stream: coordinate.1.clone(),
                event: current,
            },
        );
        i += 1;
    }
    proof {
        assert(record_views(recorded@) =~= placed(stored, views));
        assert(upcast::upcasts(chain@, stored_events(stored), out));
    }
    Ok(recorded)
}

/// Runs the stored rows of one stream through the chain.
pub fn upcast_rows(chain: &[Arc<dyn Upcaster>], rows: Vec<StoredRow>) -> (read: Result<
    Vec<Current>,
    Error,
>)
    ensures
        exists|moved: Seq<Json>| #[trigger]
            upcast::upcasts(chain@, stored_events(stored_views(rows@)), moved)
                && upcast::answers(read, upcast::read_back(moved)),
{
    let ghost given = rows@;
    let mut events: Vec<Value> = Vec::new();
    for row in it: rows
        invariant
            it.seq() == given,
            events@.len() == it.index(),
            forall|i: int| 0 <= i < it.index() ==> (#[trigger] events@[i])@ == given[i].event@,
    {
        events.push(row.event);
    }
    proof {
        assert(upcast::value_views(events@) =~= stored_events(stored_views(given)));
    }
    let moved = upcast::apply_chain(chain, events);
    let ghost out = upcast::value_views(moved@);
    let read = upcast::currents(moved);
    proof {
        assert(upcast::upcasts(chain@, stored_events(stored_views(given)), out));
    }
    read
}

/// Two digits of a byte, as they are written in hexadecimal.
pub open spec fn nibble(n: nat) -> char {
    if n < 10 {
        (48 + n) as char
    } else {
        (87 + n) as char
    }
}

/// The bytes in hexadecimal: two small digits each, in order.
pub open spec fn hex_of(bytes: Seq<u8>) -> Seq<char>
    decreases bytes.len(),
{
    if bytes.len() == 0 {
        Seq::empty()
    } else {
        hex_of(bytes.drop_last()).push(nibble((bytes.last() / 16) as nat)).push(
            nibble((bytes.last() % 16) as nat),
        )
    }
}

/// Whether a character may stand in an identifier as it is.
pub open spec fn identifier_char(c: char) -> bool {
    ('a' <= c && c <= 'z') || ('A' <= c && c <= 'Z') || ('0' <= c && c <= '9') || c == '_'
}

/// Whether a key is made of identifier characters.
pub open spec fn plain_key(key: Seq<char>) -> bool {
    forall|i: int| 0 <= i < key.len() ==> identifier_char(#[trigger] key[i])
}

/// The name of the index on a `meta` key, unless another key has taken it.
pub open spec fn index_name(key: Seq<char>) -> Seq<char> {
    if plain_key(key) {
        "events_meta_"@ + key
    } else {
        "events_meta_x"@ + hex_of(vstd::utf8::encode_utf8(key))
    }
}

/// The name of the index on a `meta` key whose own name another key has taken.
pub open spec fn spare_index_name(key: Seq<char>) -> Seq<char> {
    "events_metax"@ + hex_of(vstd::utf8::encode_utf8(key))
}

/// What an index on a `meta` key is on.
pub open spec fn index_target(key: Seq<char>) -> Seq<char> {
    " ON events ("@ + sql::meta_text(key) + ", position)"@
}

/// The text SQLite keeps of the statement that made an index.
pub open spec fn kept_text(name: Seq<char>, key: Seq<char>) -> Seq<char> {
    "CREATE INDEX "@ + name + index_target(key)
}

/// Under which name a `meta` key is indexed, given what SQLite keeps of the
/// index that has its own name, if there is one.
pub open spec fn chosen_name(key: Seq<char>, kept: Option<Seq<char>>) -> Seq<char> {
    if kept is Some && kept->0 != kept_text(index_name(key), key) {
        spare_index_name(key)
    } else {
        index_name(key)
    }
}

fn nibble_char(n: u8) -> (digit: char)
    requires
        n < 16,
    ensures
        digit == nibble(n as nat),
{
    if n < 10 {
        (48 + n) as char
    } else {
        (87 + n) as char
    }
}

/// The bytes of a text in hexadecimal.
fn spelled_in_hex(text: &str) -> (digits: String)
    ensures
        digits@ == hex_of(vstd::utf8::encode_utf8(text@)),
{
    let bytes: &[u8] = text.as_bytes();
    let mut digits = String::new();
    let mut k: usize = 0;
    proof {
        assert(bytes@.take(0) =~= Seq::<u8>::empty());
    }
    while k < bytes.len()
        invariant
            k <= bytes@.len(),
            digits@ == hex_of(bytes@.take(k as int)),
        decreases bytes@.len() - k,
    {
        proof {
            assert(bytes@.take(k + 1).drop_last() =~= bytes@.take(k as int));
        }
        let byte = bytes[k];
        digits.push(nibble_char(byte / 16));
        digits.push(nibble_char(byte % 16));
        k += 1;
    }
    proof {
        assert(bytes@.take(k as int) =~= bytes@);
    }
    digits
}

/// The index name for a `meta` key. A key made of identifier characters is
/// used as it is; any other key is spelled in hexadecimal.
pub fn meta_index_name(key: &str) -> (name: String)
    ensures
        name@ == index_name(key@),
{
    let chars: Vec<char> = text::chars_of(key);
    let mut plain = true;
    let mut i: usize = 0;
    while i < chars.len() && plain
        invariant
            chars@ == key@,
            i <= chars@.len(),
            plain ==> forall|j: int| 0 <= j < i ==> identifier_char(#[trigger] chars@[j]),
            !plain ==> !plain_key(key@),
        decreases chars@.len() - i,
    {
        let c = chars[i];
        plain = ('a' <= c && c <= 'z') || ('A' <= c && c <= 'Z') || ('0' <= c && c <= '9') || c
            == '_';
        proof {
            assert(identifier_char(key@[i as int]) == plain);
        }
        i += 1;
    }
    if plain {
        return text::cat2("events_meta_", key);
    }
    text::cat2("events_meta_x", spelled_in_hex(key).as_str())
}

/// The statement that asks for the index that has the name of a `meta` key's.
///
/// SQLite compares index names without regard to case, and a key spelled in
/// hexadecimal may read as another key does, so the name may be taken.
pub fn find_index(key: &str) -> (statement: Result<Statement, Error>)
    ensures
        statement is Ok <==> sql::meta_key_refusal(key@) is None,
        statement is Ok ==> statement->Ok_0@ == (Query {
            sql: "SELECT sql FROM sqlite_master WHERE type = 'index' AND name = ?1 COLLATE NOCASE"@,
            params: seq![Bound::Text(index_name(key@))],
        }),
        statement is Err ==> statement->Err_0@ == Failure::Validation(
            sql::meta_key_refusal(key@)->0,
        ),
{
    match sql::meta_expr(key) {
        Ok(_) => {},
        Err(error) => {
            return Err(error);
        },
    }
    Ok(
        about(
            "SELECT sql FROM sqlite_master WHERE type = 'index' AND name = ?1 COLLATE NOCASE",
            meta_index_name(key).as_str(),
        ),
    )
}

/// The statement that makes reads filtering on a `meta` key cheap: an index on
/// exactly the expression the filter uses. `kept` is what [`find_index`]
/// answered: where the key's name is taken by another index, this one is made
/// under a name of its own rather than skipped.
pub fn index_meta(key: &str, kept: Option<&str>) -> (statement: Result<String, Error>)
    ensures
        statement is Ok <==> sql::meta_key_refusal(key@) is None,
        statement is Ok ==> statement->Ok_0@ == "CREATE INDEX IF NOT EXISTS "@ + chosen_name(
            key@,
            match kept {
                Some(text) => Some(text@),
                None => None,
            },
        ) + index_target(key@),
        statement is Err ==> statement->Err_0@ == Failure::Validation(
            sql::meta_key_refusal(key@)->0,
        ),
{
    let expression = match sql::meta_expr(key) {
        Ok(expression) => expression,
        Err(error) => {
            return Err(error);
        },
    };
    let target = text::cat3(" ON events (", expression.as_str(), ", position)");
    let own = meta_index_name(key);
    let name = match kept {
        Some(text) => if text::same(
            text,
            text::cat3("CREATE INDEX ", own.as_str(), target.as_str()).as_str(),
        ) {
            own
        } else {
            text::cat2("events_metax", spelled_in_hex(key).as_str())
        },
        None => own,
    };
    Ok(text::cat3("CREATE INDEX IF NOT EXISTS ", name.as_str(), target.as_str()))
}

proof fn nibbles_differ(a: nat, b: nat)
    requires
        a < 16,
        b < 16,
        nibble(a) == nibble(b),
    ensures
        a == b,
{
    assert(nibble(a) as u32 == (if a < 10 {
        48 + a
    } else {
        87 + a
    }));
    assert(nibble(b) as u32 == (if b < 10 {
        48 + b
    } else {
        87 + b
    }));
}

/// Different bytes are different hexadecimal texts.
pub proof fn hex_is_injective(a: Seq<u8>, b: Seq<u8>)
    requires
        hex_of(a) == hex_of(b),
    ensures
        a == b,
    decreases a.len(),
{
    hex_length(a);
    hex_length(b);
    if a.len() > 0 {
        let x = hex_of(a);
        let y = hex_of(b);
        let n = x.len() as int;
        assert(x[n - 1] == y[n - 1]);
        assert(x[n - 2] == y[n - 2]);
        nibbles_differ((a.last() / 16) as nat, (b.last() / 16) as nat);
        nibbles_differ((a.last() % 16) as nat, (b.last() % 16) as nat);
        assert(a.last() == b.last());
        assert(hex_of(a.drop_last()) =~= x.take(n - 2));
        assert(hex_of(b.drop_last()) =~= y.take(n - 2));
        hex_is_injective(a.drop_last(), b.drop_last());
        assert(a =~= a.drop_last().push(a.last()));
        assert(b =~= b.drop_last().push(b.last()));
    } else {
        assert(a =~= b);
    }
}

proof fn hex_length(bytes: Seq<u8>)
    ensures
        hex_of(bytes).len() == 2 * bytes.len(),
    decreases bytes.len(),
{
    if bytes.len() > 0 {
        hex_length(bytes.drop_last());
    }
}

/// A name with its ASCII capitals as small letters: names that fold to one are
/// one name to SQLite.
pub open spec fn folded(name: Seq<char>) -> Seq<char> {
    Seq::new(name.len(), |i: int| text::ascii_lower(name[i]))
}

proof fn hex_has_no_capitals(bytes: Seq<u8>)
    ensures
        folded(hex_of(bytes)) == hex_of(bytes),
    decreases bytes.len(),
{
    if bytes.len() > 0 {
        let front = hex_of(bytes.drop_last());
        hex_has_no_capitals(bytes.drop_last());
        let high = (bytes.last() / 16) as nat;
        let low = (bytes.last() % 16) as nat;
        assert(text::ascii_lower(nibble(high)) == nibble(high));
        assert(text::ascii_lower(nibble(low)) == nibble(low));
        let all = hex_of(bytes);
        assert forall|i: int| 0 <= i < all.len() implies folded(all)[i] == #[trigger] all[i] by {
            if i < front.len() {
                assert(all[i] == front[i]);
                assert(folded(front)[i] == front[i]);
            }
        }
    }
    assert(folded(hex_of(bytes)) =~= hex_of(bytes));
}

/// Spare names have no capitals.
proof fn spare_names_are_folded(key: Seq<char>)
    ensures
        folded(spare_index_name(key)) == spare_index_name(key),
{
    reveal_strlit("events_metax");
    let head = "events_metax"@;
    let digits = hex_of(vstd::utf8::encode_utf8(key));
    hex_has_no_capitals(vstd::utf8::encode_utf8(key));
    let name = spare_index_name(key);
    assert forall|i: int| 0 <= i < name.len() implies folded(name)[i] == #[trigger] name[i] by {
        if i >= head.len() {
            assert(name[i] == digits[i - head.len()]);
            assert(folded(digits)[i - head.len()] == digits[i - head.len()]);
        }
    }
    assert(folded(name) =~= name);
}

/// A spare name is one key's only, and no key's own name, compared without
/// regard to case.
pub proof fn spare_names_differ(a: Seq<char>, b: Seq<char>)
    ensures
        folded(spare_index_name(a)) == folded(spare_index_name(b)) ==> a == b,
        folded(spare_index_name(a)) != folded(index_name(b)),
{
    spare_names_are_folded(a);
    spare_names_are_folded(b);
    reveal_strlit("events_metax");
    reveal_strlit("events_meta_");
    reveal_strlit("events_meta_x");
    if spare_index_name(a) == spare_index_name(b) {
        let head = "events_metax"@;
        let x = vstd::utf8::encode_utf8(a);
        let y = vstd::utf8::encode_utf8(b);
        assert(hex_of(x) =~= (head + hex_of(x)).skip(head.len() as int));
        assert(hex_of(y) =~= (head + hex_of(y)).skip(head.len() as int));
        hex_is_injective(x, y);
        text::encoding_is_injective(a, b);
    }
    assert(spare_index_name(a)[11] == 'x');
    assert(index_name(b)[11] == '_');
    assert(folded(spare_index_name(a))[11] == 'x');
    assert(folded(index_name(b))[11] == '_');
}

/// The indexes after one more key was indexed: what SQLite keeps of each, by
/// its folded name. An index whose name is there is not made again.
pub open spec fn indexed(indexes: Map<Seq<char>, Seq<char>>, key: Seq<char>) -> Map<
    Seq<char>,
    Seq<char>,
> {
    let own = folded(index_name(key));
    let name = chosen_name(
        key,
        if indexes.contains_key(own) {
            Some(indexes[own])
        } else {
            None
        },
    );
    if indexes.contains_key(folded(name)) {
        indexes
    } else {
        indexes.insert(folded(name), kept_text(name, key))
    }
}

/// Whether a key has its index, under one of its two names.
pub open spec fn has_index(indexes: Map<Seq<char>, Seq<char>>, key: Seq<char>) -> bool {
    let own = index_name(key);
    let spare = spare_index_name(key);
    ||| indexes.contains_key(folded(own)) && indexes[folded(own)] == kept_text(own, key)
    ||| indexes.contains_key(folded(spare)) && indexes[folded(spare)] == kept_text(spare, key)
}

/// Whether spare names are used for nothing but what they are for.
pub open spec fn spares_are_kept(indexes: Map<Seq<char>, Seq<char>>) -> bool {
    forall|key: Seq<char>|
        indexes.contains_key(folded(#[trigger] spare_index_name(key)))
            ==> indexes[folded(spare_index_name(key))] == kept_text(spare_index_name(key), key)
}

/// Every key that is indexed has its index, whatever was indexed before; no
/// index is lost or changed by it; and indexing a key again does nothing.
pub proof fn every_key_gets_its_index(indexes: Map<Seq<char>, Seq<char>>, key: Seq<char>)
    requires
        spares_are_kept(indexes),
    ensures
        has_index(indexed(indexes, key), key),
        indexes.submap_of(indexed(indexes, key)),
        forall|other: Seq<char>| #[trigger]
            has_index(indexes, other) ==> has_index(indexed(indexes, key), other),
        spares_are_kept(indexed(indexes, key)),
        indexed(indexed(indexes, key), key) == indexed(indexes, key),
{
    let after = indexed(indexes, key);
    let own = index_name(key);
    let spare = spare_index_name(key);
    spare_names_differ(key, key);
    assert(indexes.contains_key(folded(spare)) ==> indexes[folded(spare)] == kept_text(
        spare_index_name(key),
        key,
    ));
    assert forall|other: Seq<char>|
        after.contains_key(folded(#[trigger] spare_index_name(other))) implies after[folded(
        spare_index_name(other),
    )] == kept_text(spare_index_name(other), other) by {
        spare_names_differ(other, key);
    }
}

/// The predicate on a `meta` key and the index on it are one expression: the
/// condition of a filter pair begins with the text the index is made on.
pub proof fn predicate_and_index_agree(key: Seq<char>, value: Bound, shape: Shape, first: nat)
    ensures
        sql::meta_text(key).is_prefix_of(
            sql::condition_text(Condition::Meta(key, value, shape), first),
        ),
{
    let whole = sql::condition_text(Condition::Meta(key, value, shape), first);
    let n = sql::meta_text(key).len() as int;
    assert(whole.take(n) =~= sql::meta_text(key));
}

/// A row of the events table, as an engine looks at it.
pub open spec fn event_row(
    position: i64,
    stream: Seq<char>,
    kind: Seq<char>,
    meta: Map<Seq<char>, Json>,
    engine: Engine,
) -> Row {
    Row {
        cells: |column: Column|
            match column {
                Column::Position => Bound::Integer(position),
                Column::Stream => Bound::Text(stream),
                Column::Kind => Bound::Text(kind),
                _ => Bound::Null,
            },
        meta,
        engine,
    }
}

/// What a read's conditions say of a row, axis by axis.
proof fn axis_by_axis(
    from: Position,
    axes: Axes,
    position: i64,
    stream: Seq<char>,
    kind: Seq<char>,
    meta: Map<Seq<char>, Json>,
    engine: Engine,
)
    requires
        sql::position_refusal(from) is None,
    ensures
        ({
            let row = event_row(position, stream, kind, meta, engine);
            sql::meets(read_conditions(from, axes), row) <==> {
                &&& position > from.0
                &&& axes.streams is Some ==> axes.streams->0.contains(stream)
                &&& axes.stream_prefix is Some ==> axes.stream_prefix->0.is_prefix_of(stream)
                &&& axes.kinds is Some ==> axes.kinds->0.contains(kind)
                &&& sql::meets(meta_conditions(axes.meta), row)
            }
        }),
{
    let row = event_row(position, stream, kind, meta, engine);
    let cursor = seq![
        Condition::Compare(Column::Position, Relation::After, Bound::Integer(from.0 as i64)),
    ];
    let streams = set_conditions(Column::Stream, axes.streams);
    let prefix = prefix_conditions(axes.stream_prefix);
    let kinds = set_conditions(Column::Kind, axes.kinds);
    let pairs = meta_conditions(axes.meta);
    meets_both(cursor, streams, row);
    meets_both(cursor + streams, prefix, row);
    meets_both(cursor + streams + prefix, kinds, row);
    meets_both(cursor + streams + prefix + kinds, pairs, row);
    assert(sql::meets(cursor, row) <==> position > from.0) by {
        assert(sql::holds(cursor[0], row) == (position > from.0));
    }
    assert(sql::meets(streams, row) <==> (axes.streams is Some ==> axes.streams->0.contains(
        stream,
    ))) by {
        if axes.streams is Some {
            assert(sql::holds(streams[0], row) == axes.streams->0.contains(stream));
        }
    }
    assert(sql::meets(kinds, row) <==> (axes.kinds is Some ==> axes.kinds->0.contains(kind))) by {
        if axes.kinds is Some {
            assert(sql::holds(kinds[0], row) == axes.kinds->0.contains(kind));
        }
    }
    prefix_selects(axes.stream_prefix, row, stream);
}

/// Whether SQL is sure to compare two values as JSON does. Only two numbers
/// can differ in that: unless they are the same one, a number outside the
/// signed 64-bit integers is compared as a double.
pub open spec fn compared_alike(stored: Json, asked: Json) -> bool {
    stored is Number && asked is Number && stored != asked ==> {
        &&& stored->Number_0.valid() && stored->Number_0.i64_value() is Some
        &&& asked->Number_0.valid() && asked->Number_0.i64_value() is Some
    }
}

/// Whether SQLite compares the keys of a row and those asked for whole.
pub open spec fn keys_are_whole(axes: Axes, meta: Map<Seq<char>, Json>) -> bool {
    &&& forall|key: Seq<char>| #[trigger] meta.contains_key(key) ==> sql::whole_key(key)
    &&& axes.meta is Some ==> forall|i: int|
        0 <= i < axes.meta->0.len() ==> sql::whole_key((#[trigger] axes.meta->0[i]).0)
}

/// What a read's statement selects is what its filter asks for: a row meets
/// the statement's conditions exactly when it is past the cursor and the
/// filter selects its event, wherever SQL compares the numbers in question as
/// JSON does and no key holds a NUL. A boolean is never taken for a number.
pub proof fn statements_select_what_filters_ask(
    from: Position,
    axes: Axes,
    position: i64,
    stream: Seq<char>,
    kind: Seq<char>,
    meta: Map<Seq<char>, Json>,
    engine: Engine,
)
    requires
        sql::position_refusal(from) is None,
        keys_are_whole(axes, meta),
        axes.refusal() is None,
        axes.meta is Some ==> forall|i: int|
            0 <= i < axes.meta->0.len() ==> meta.contains_key((#[trigger] axes.meta->0[i]).0)
                ==> compared_alike(meta[axes.meta->0[i].0], axes.meta->0[i].1),
    ensures
        sql::meets(read_conditions(from, axes), event_row(position, stream, kind, meta, engine))
            <==> (position > from.0 && axes.selects(stream, kind, meta)),
{
    let row = event_row(position, stream, kind, meta, engine);
    axis_by_axis(from, axes, position, stream, kind, meta, engine);
    if axes.meta is Some {
        let pairs = meta_conditions(axes.meta);
        let asked = axes.meta->0;
        scalars_only(asked);
        assert forall|i: int| 0 <= i < asked.len() implies (sql::holds(#[trigger] pairs[i], row)
            <==> meta.contains_key(asked[i].0) && meta[asked[i].0] == asked[i].1) by {
            let key = asked[i].0;
            assert(event::scalar(asked[i].1));
            if meta.contains_key(key) {
                assert(compared_alike(meta[key], asked[i].1));
                if meta[key] is Number && asked[i].1 is Number && meta[key] != asked[i].1
                    && sql::scalar_bound(meta[key]) == sql::scalar_bound(asked[i].1) {
                    crate::json::integers_are_told_by_value(
                        meta[key]->Number_0,
                        asked[i].1->Number_0,
                    );
                }
            }
        }
        if sql::meets(pairs, row) {
            assert forall|i: int| 0 <= i < asked.len() implies meta.contains_key(
                (#[trigger] asked[i]).0,
            ) && meta[asked[i].0] == asked[i].1 by {
                assert(sql::holds(pairs[i], row));
            }
        }
    }
}

/// Nothing a filter asks for is missed: a row past the cursor that holds the
/// very values asked for is selected, whatever its numbers are, where no key
/// holds a NUL.
pub proof fn nothing_asked_for_is_missed(
    from: Position,
    axes: Axes,
    position: i64,
    stream: Seq<char>,
    kind: Seq<char>,
    meta: Map<Seq<char>, Json>,
    engine: Engine,
)
    requires
        sql::position_refusal(from) is None,
        keys_are_whole(axes, meta),
        axes.refusal() is None,
        position > from.0,
        axes.selects(stream, kind, meta),
    ensures
        sql::meets(read_conditions(from, axes), event_row(position, stream, kind, meta, engine)),
{
    statements_select_what_filters_ask(from, axes, position, stream, kind, meta, engine);
}

/// A filter on a value of one JSON type selects no row that holds another
/// under that key, where no key holds a NUL: `true` is not 1, and `"1"` is
/// neither.
pub proof fn types_are_told_apart(
    from: Position,
    axes: Axes,
    position: i64,
    stream: Seq<char>,
    kind: Seq<char>,
    meta: Map<Seq<char>, Json>,
    engine: Engine,
    i: int,
)
    requires
        sql::position_refusal(from) is None,
        keys_are_whole(axes, meta),
        axes.meta is Some,
        0 <= i < axes.meta->0.len(),
        meta.contains_key(axes.meta->0[i].0),
        sql::shape_of(meta[axes.meta->0[i].0]) != sql::shape_of(axes.meta->0[i].1),
    ensures
        !sql::meets(read_conditions(from, axes), event_row(position, stream, kind, meta, engine)),
{
    let row = event_row(position, stream, kind, meta, engine);
    axis_by_axis(from, axes, position, stream, kind, meta, engine);
    assert(!sql::holds(meta_conditions(axes.meta)[i], row));
}

/// A row of the events table, as a read of one stream sees it.
pub open spec fn stream_event_row(stream: Seq<char>, seq: i64, kind: Seq<char>) -> Row {
    Row {
        cells: |column: Column|
            match column {
                Column::Stream => Bound::Text(stream),
                Column::Sequence => Bound::Integer(seq),
                Column::Kind => Bound::Text(kind),
                _ => Bound::Null,
            },
        meta: Map::empty(),
        engine: Engine::unasked(),
    }
}

/// What a read of one stream selects is what it was asked for: the events of
/// that stream, from that number on, of the kinds it names.
pub proof fn stream_reads_are_exact(
    asked: Seq<char>,
    kinds: Option<Seq<Seq<char>>>,
    from_seq: u64,
    stream: Seq<char>,
    seq: i64,
    kind: Seq<char>,
)
    requires
        from_seq <= i64::MAX,
    ensures
        sql::meets(
            stream_conditions(asked, kinds, from_seq),
            stream_event_row(stream, seq, kind),
        ) <==> {
            &&& stream == asked
            &&& seq >= from_seq
            &&& kinds is Some ==> kinds->0.contains(kind)
        },
{
    let row = stream_event_row(stream, seq, kind);
    let fixed = seq![
        Condition::Compare(Column::Stream, Relation::Is, Bound::Text(asked)),
        Condition::Compare(Column::Sequence, Relation::AtLeast, Bound::Integer(from_seq as i64)),
    ];
    let named = set_conditions(Column::Kind, kinds);
    meets_both(fixed, named, row);
    assert(sql::meets(fixed, row) <==> stream == asked && seq >= from_seq) by {
        assert(sql::holds(fixed[0], row) == (stream == asked));
        assert(sql::holds(fixed[1], row) == (seq >= from_seq));
    }
    if kinds is Some {
        assert(sql::holds(named[0], row) == kinds->0.contains(kind));
    }
}

/// A row meets two predicates joined when it meets each.
pub proof fn meets_both(a: Seq<Condition>, b: Seq<Condition>, row: Row)
    ensures
        sql::meets(a + b, row) <==> sql::meets(a, row) && sql::meets(b, row),
{
    let both = a + b;
    if sql::meets(both, row) {
        assert forall|i: int| 0 <= i < a.len() implies sql::holds(#[trigger] a[i], row) by {
            assert(both[i] == a[i]);
        }
        assert forall|i: int| 0 <= i < b.len() implies sql::holds(#[trigger] b[i], row) by {
            assert(both[a.len() + i] == b[i]);
        }
    }
    if sql::meets(a, row) && sql::meets(b, row) {
        assert forall|i: int| 0 <= i < both.len() implies sql::holds(#[trigger] both[i], row) by {
            if i < a.len() {
                assert(both[i] == a[i]);
            } else {
                assert(both[i] == b[i - a.len()]);
            }
        }
    }
}

/// The conditions of a prefix hold of the rows whose stream starts with it.
pub proof fn prefix_selects(prefix: Option<Seq<char>>, row: Row, stream: Seq<char>)
    requires
        (row.cells)(Column::Stream) == Bound::Text(stream),
    ensures
        sql::meets(prefix_conditions(prefix), row) <==> (prefix is Some ==> prefix->0.is_prefix_of(
            stream,
        )),
{
    if prefix is Some {
        let p = prefix->0;
        let conditions = prefix_conditions(prefix);
        if p.len() == 0 {
            assert(stream.take(0) =~= p);
        } else {
            log::prefix_range_is_exact(p, stream);
            assert(sql::holds(conditions[0], row) == !text::text_lt(stream, p));
            if log::prefix_bound(p) is Some {
                assert(sql::holds(conditions[1], row) == text::text_lt(
                    stream,
                    log::prefix_bound(p)->0,
                ));
            }
        }
    }
}

/// A filter that can be asked has scalars only.
proof fn scalars_only(pairs: Seq<(Seq<char>, Json)>)
    requires
        log::pairs_refusal(pairs) is None,
    ensures
        forall|i: int| 0 <= i < pairs.len() ==> event::scalar((#[trigger] pairs[i]).1),
    decreases pairs.len(),
{
    if pairs.len() > 0 {
        scalars_only(pairs.drop_first());
        assert forall|i: int| 0 <= i < pairs.len() implies event::scalar(
            (#[trigger] pairs[i]).1,
        ) by {
            if i > 0 {
                assert(pairs.drop_first()[i - 1] == pairs[i]);
            }
        }
    }
}

/// What a read across streams selects, row by row: an event past the cursor
/// whose stream is one of those named, begins with the prefix and whose kind is
/// one of those named, each where the filter says so; and which holds, under
/// every `meta` key asked for, the value asked for, where SQL compares the
/// numbers in question as JSON does and no key holds a NUL.
pub proof fn reads_select_row_by_row(
    from: Position,
    axes: Axes,
    position: i64,
    stream: Seq<char>,
    kind: Seq<char>,
    meta: Map<Seq<char>, Json>,
    engine: Engine,
)
    requires
        from.0 <= i64::MAX,
        axes.refusal() is None,
        keys_are_whole(axes, meta),
        axes.meta is Some ==> forall|i: int|
            0 <= i < axes.meta->0.len() ==> meta.contains_key((#[trigger] axes.meta->0[i]).0)
                ==> compared_alike(meta[axes.meta->0[i].0], axes.meta->0[i].1),
    ensures
        sql::meets(read_conditions(from, axes), event_row(position, stream, kind, meta, engine))
            <==> {
            &&& position > from.0
            &&& axes.streams is Some ==> exists|i: int|
                0 <= i < axes.streams->0.len() && #[trigger] axes.streams->0[i] == stream
            &&& axes.kinds is Some ==> exists|i: int|
                0 <= i < axes.kinds->0.len() && #[trigger] axes.kinds->0[i] == kind
            &&& axes.stream_prefix is Some ==> axes.stream_prefix->0.len() <= stream.len()
                && forall|i: int|
                    0 <= i < axes.stream_prefix->0.len() ==> #[trigger] axes.stream_prefix->0[i]
                        == stream[i]
            &&& axes.meta is Some ==> forall|i: int|
                0 <= i < axes.meta->0.len() ==> meta.contains_key((#[trigger] axes.meta->0[i]).0)
                    && meta[axes.meta->0[i].0] == axes.meta->0[i].1
        },
{
    statements_select_what_filters_ask(from, axes, position, stream, kind, meta, engine);
    log::filters_select_by_every_axis(axes, stream, kind, meta);
}

/// Integers, texts and booleans are always compared as JSON compares them.
pub proof fn most_values_are_compared_alike(stored: Json, asked: Json)
    ensures
        stored == asked ==> compared_alike(stored, asked),
        !(stored is Number) || !(asked is Number) ==> compared_alike(stored, asked),
        stored is Number && asked is Number && stored->Number_0.valid() && asked->Number_0.valid()
            && stored->Number_0.i64_value() is Some && asked->Number_0.i64_value() is Some
            ==> compared_alike(stored, asked),
{
}

/// What a read's statement is: the columns of the events that meet its
/// conditions, in the order it names, up to its limit.
pub proof fn reads_ask_for_their_page(
    conditions: Seq<Condition>,
    order: Seq<char>,
    from: Position,
    axes: Axes,
    limit: usize,
)
    ensures
        page_query(conditions, order, limit).sql == "SELECT "@
            + "position, stream, seq, epoch_ms, kind, schema_version, meta, data"@
            + " FROM events WHERE "@ + sql::predicate_text(conditions) + order + "?"@
            + text::decimal_text(sql::predicate_params(conditions).len() + 1),
        page_query(conditions, order, limit).params == sql::predicate_params(conditions).push(
            Bound::Integer(
                if limit <= i64::MAX {
                    limit as i64
                } else {
                    -1i64
                },
            ),
        ),
        read_query(from, axes, limit) == page_query(
            read_conditions(from, axes),
            " ORDER BY position LIMIT "@,
            limit,
        ),
{
    let body = "SELECT "@ + COLUMNS@ + " FROM events WHERE "@ + sql::predicate_text(conditions);
    let number = text::decimal_text(sql::predicate_params(conditions).len() + 1);
    assert(body + order + ("?"@ + number) =~= body + order + "?"@ + number);
}

proof fn keys_refused_for_one(pairs: Seq<(Seq<char>, Json)>)
    ensures
        keys_refusal(pairs) is None <==> forall|i: int|
            0 <= i < pairs.len() ==> (#[trigger] pairs[i]).0.len() > 0 && !pairs[i].0.contains(
                '"',
            ),
    decreases pairs.len(),
{
    if pairs.len() > 0 {
        let front = pairs.drop_last();
        let last = pairs.len() - 1;
        keys_refused_for_one(front);
        if keys_refusal(pairs) is None {
            assert forall|i: int| 0 <= i < pairs.len() implies (#[trigger] pairs[i]).0.len() > 0
                && !pairs[i].0.contains('"') by {
                if i < last {
                    assert(front[i] == pairs[i]);
                }
            }
        }
        if forall|i: int|
            0 <= i < pairs.len() ==> (#[trigger] pairs[i]).0.len() > 0 && !pairs[i].0.contains(
                '"',
            ) {
            assert(pairs[last].0.len() > 0);
            assert forall|i: int| 0 <= i < front.len() implies (#[trigger] front[i]).0.len() > 0
                && !front[i].0.contains('"') by {
                assert(front[i] == pairs[i]);
            }
        }
    }
}

/// When a read can be asked: its `meta` values are scalars, its cursor is one
/// that can be stored, none of its lists is longer than a statement takes, and
/// each of its `meta` keys can be written.
pub proof fn reads_are_refused_exactly(from: Position, axes: Axes)
    ensures
        read_failure(from, axes) is None <==> {
            &&& axes.meta is Some ==> forall|i: int|
                0 <= i < axes.meta->0.len() ==> (#[trigger] axes.meta->0[i]).1 is String
                    || axes.meta->0[i].1 is Number || axes.meta->0[i].1 is Bool
            &&& from.0 <= i64::MAX
            &&& axes.streams is Some ==> axes.streams->0.len() <= 32766
            &&& axes.kinds is Some ==> axes.kinds->0.len() <= 32766
            &&& axes.meta is Some ==> axes.meta->0.len() <= 32766 && forall|i: int|
                0 <= i < axes.meta->0.len() ==> (#[trigger] axes.meta->0[i]).0.len() > 0
                    && !axes.meta->0[i].0.contains('"')
        },
{
    log::filters_match_scalars_only(axes);
    if axes.meta is Some {
        keys_refused_for_one(axes.meta->0);
    }
}

/// A read keeps the coordinates of its rows: what it hands out is one record
/// for each row, in their order, at that row's position and in its stream; and
/// where no upcaster is registered each is the event the row holds.
pub proof fn reads_keep_coordinates(
    chain: Seq<Arc<dyn Upcaster>>,
    rows: Seq<Stored>,
    answer: Result<Vec<Recorded>, Error>,
    i: int,
)
    requires
        recorded_through(chain, rows, answer),
        answer is Ok,
        0 <= i < rows.len(),
    ensures
        answer->Ok_0@.len() == rows.len(),
        answer->Ok_0@[i].position.0 == rows[i].position,
        answer->Ok_0@[i].stream@ == rows[i].stream,
        chain.len() == 0 ==> Json::Object(answer->Ok_0@[i].event@) == rows[i].event,
{
    let moved = choose|moved: Seq<Json>| #[trigger]
        upcast::upcasts(chain, stored_events(rows), moved) && match upcast::read_back(moved) {
            Ok(events) => answer is Ok && record_views(answer->Ok_0@) == placed(rows, events),
            Err(failure) => answer is Err && answer->Err_0@ == failure,
        };
    upcast::reads_are_whole(moved);
    let events = upcast::read_back(moved)->Ok_0;
    let records = record_views(answer->Ok_0@);
    assert(records.len() == answer->Ok_0@.len());
    assert(records[i] == answer->Ok_0@[i]@);
    assert(placed(rows, events)[i] == records[i]);
    if chain.len() == 0 {
        assert(chain =~= Seq::<Arc<dyn Upcaster>>::empty());
        upcast::empty_chain_is_identity(stored_events(rows), moved);
        assert(Json::Object(events[i]) == moved[i]);
    }
}

/// A consumer that never reported stands at the beginning, and another where it
/// reported.
pub proof fn checkpoints_stand_where_they_were_saved(stored: Option<i64>)
    ensures
        stored is None ==> checkpoint_at(stored).0 == 0,
        stored is Some && stored->0 >= 0 ==> checkpoint_at(stored).0 == stored->0,
{
}

/// How an index is named: a key of ASCII letters, digits and underscores as it
/// is, any other by the hexadecimal digits of its bytes; and the spare name is
/// used exactly where the index of that name is not this key's own.
pub proof fn indexes_are_named_for_their_keys(key: Seq<char>, kept: Option<Seq<char>>, n: nat)
    ensures
        (forall|i: int|
            0 <= i < key.len() ==> {
                ||| 'a' <= #[trigger] key[i] && key[i] <= 'z'
                ||| 'A' <= key[i] && key[i] <= 'Z'
                ||| '0' <= key[i] && key[i] <= '9'
                ||| key[i] == '_'
            }) ==> index_name(key) == "events_meta_"@ + key,
        (exists|i: int|
            0 <= i < key.len() && !{
                ||| 'a' <= #[trigger] key[i] && key[i] <= 'z'
                ||| 'A' <= key[i] && key[i] <= 'Z'
                ||| '0' <= key[i] && key[i] <= '9'
                ||| key[i] == '_'
            }) ==> index_name(key) == "events_meta_x"@ + hex_of(vstd::utf8::encode_utf8(key)),
        kept is None ==> chosen_name(key, kept) == index_name(key),
        kept == Some(
            "CREATE INDEX "@ + index_name(key) + (" ON events ("@ + sql::meta_text(key)
                + ", position)"@),
        ) ==> chosen_name(key, kept) == index_name(key),
        kept is Some && kept->0 != "CREATE INDEX "@ + index_name(key) + (" ON events ("@
            + sql::meta_text(key) + ", position)"@) ==> chosen_name(key, kept) == "events_metax"@
            + hex_of(vstd::utf8::encode_utf8(key)),
        index_target(key) == " ON events ("@ + sql::meta_text(key) + ", position)"@,
        n < 10 ==> nibble(n) as u32 == '0' as u32 + n,
        10 <= n < 16 ==> nibble(n) as u32 == 'a' as u32 + n - 10,
{
    if exists|i: int|
        0 <= i < key.len() && !{
            ||| 'a' <= #[trigger] key[i] && key[i] <= 'z'
            ||| 'A' <= key[i] && key[i] <= 'Z'
            ||| '0' <= key[i] && key[i] <= '9'
            ||| key[i] == '_'
        } {
        let i = choose|i: int|
            0 <= i < key.len() && !{
                ||| 'a' <= #[trigger] key[i] && key[i] <= 'z'
                ||| 'A' <= key[i] && key[i] <= 'Z'
                ||| '0' <= key[i] && key[i] <= '9'
                ||| key[i] == '_'
            };
        assert(!identifier_char(key[i]));
    }
    if n < 16 {
        assert(nibble(n) as u32 == (if n < 10 {
            48 + n
        } else {
            87 + n
        }));
    }
}

/// Bytes are written in hexadecimal one after the other, each by its high digit
/// and then its low one.
pub proof fn hex_goes_byte_by_byte(bytes: Seq<u8>, byte: u8)
    ensures
        hex_of(Seq::empty()) == Seq::<char>::empty(),
        hex_of(bytes.push(byte)) == hex_of(bytes).push(nibble((byte / 16) as nat)).push(
            nibble((byte % 16) as nat),
        ),
{
    assert(bytes.push(byte).drop_last() =~= bytes);
}

/// A record holds its coordinates and its event; lists are viewed one by one;
/// and the kinds a read names are those it was given.
pub proof fn records_hold_their_fields(
    recorded: Recorded,
    rows: Seq<StoredRow>,
    stored: Seq<Stored>,
    records: Seq<Recorded>,
    kinds: Option<&Vec<String>>,
    i: int,
)
    ensures
        recorded@.position == recorded.position,
        recorded@.stream == recorded.stream@,
        recorded@.event == recorded.event@,
        stored_views(rows).len() == rows.len(),
        0 <= i < rows.len() ==> stored_views(rows)[i] == rows[i]@,
        stored_events(stored).len() == stored.len(),
        0 <= i < stored.len() ==> stored_events(stored)[i] == stored[i].event,
        record_views(records).len() == records.len(),
        0 <= i < records.len() ==> record_views(records)[i] == records[i]@,
        named(kinds) is Some <==> kinds is Some,
        kinds is Some ==> named(kinds)->0.len() == kinds->0@.len(),
        kinds is Some && 0 <= i < kinds->0@.len() ==> named(kinds)->0[i] == kinds->0@[i]@,
{
}

} // verus!
