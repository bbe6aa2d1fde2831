//! The durable write path: what one transaction writes.
//!
//! A write reads the stream's stored counter, stamps its events with the
//! numbers that follow, inserts them, and moves the counter on, all in one
//! transaction. The counter is stored rather than derived from the events, so
//! a stream that retention has emptied does not start over.

use std::sync::Arc;

use vstd::prelude::*;

use crate::error::{Error, Failure};
use crate::event::{self, FIELD_DATA, FIELD_META, FIELD_SEQ};
use crate::json::{Json, Object};
use crate::mem;
use crate::position::{Committed, Position};
use crate::read;
use crate::row::{self, StoredRow};
use crate::sql::{self, Bound, Query, SqlValue, Statement};
use crate::store::Expected;
use crate::text;
use crate::transfer::{self, Exported, ExportedEvent};
use crate::upcast::{self, Current, Upcaster};

verus! {

/// The statement that asks for a stream's counter.
pub fn counter(stream: &str) -> (statement: Statement)
    ensures
        statement@ == (Query {
            sql: "SELECT next_seq FROM stream_seq WHERE stream = ?1"@,
            params: seq![Bound::Text(stream@)],
        }),
{
    let params: Vec<SqlValue> = vec![SqlValue::Text(stream.to_owned())];
    proof {
        assert(sql::bound_views(params@) =~= seq![Bound::Text(stream@)]);
    }
    Statement::with("SELECT next_seq FROM stream_seq WHERE stream = ?1", params)
}

/// The number a stream's next event has: 1 for a stream that was never
/// written.
pub open spec fn next_of(counter: Option<i64>) -> u64 {
    match counter {
        Some(next) => next as u64,
        None => 1,
    }
}

/// The number a stream's next event has.
pub fn next_seq(counter: Option<i64>) -> (next: u64)
    ensures
        next == next_of(counter),
{
    match counter {
        Some(next) => #[verifier::truncate] (next as u64),
        None => 1,
    }
}

/// The statement that records where a stream carries on from.
pub open spec fn counter_query(stream: Seq<char>, next: u64) -> Query {
    Query {
        sql:
            "INSERT INTO stream_seq (stream, next_seq) VALUES (?1, ?2) ON CONFLICT(stream) DO UPDATE SET next_seq = excluded.next_seq"@,
        params: seq![Bound::Text(stream), Bound::Integer(next as i64)],
    }
}

/// The statement that records where a stream carries on from.
pub fn set_next_seq(stream: &str, next: u64) -> (statement: Statement)
    ensures
        statement@ == counter_query(stream@, next),
{
    let params: Vec<SqlValue> = vec![
        SqlValue::Text(stream.to_owned()),
        SqlValue::Integer(#[verifier::truncate] (next as i64)),
    ];
    proof {
        assert(sql::bound_views(params@) =~= counter_query(stream@, next).params);
    }
    Statement::with(
        "INSERT INTO stream_seq (stream, next_seq) VALUES (?1, ?2) ON CONFLICT(stream) DO UPDATE SET next_seq = excluded.next_seq",
        params,
    )
}

/// One insert of a transaction, and the coordinates its event was stamped
/// with.
#[derive(Debug)]
pub struct Insert {
    pub statement: Statement,
    pub seq: u64,
    pub epoch_ms: u64,
}

/// What a transaction writes: the inserts, then where each stream carries on
/// from.
#[derive(Debug)]
pub struct Batch {
    pub inserts: Vec<Insert>,
    pub counters: Vec<Statement>,
}

/// Whether an insert writes this event to this stream.
pub open spec fn inserts_event(
    insert: Insert,
    stream: Seq<char>,
    event: Map<Seq<char>, Json>,
) -> bool {
    &&& insert.statement@ == row::insert_query(stream, event)
    &&& row::levels_read_back(insert.statement@.params, event)
    &&& event::whole(insert.seq) == event[FIELD_SEQ@]
    &&& event::whole(insert.epoch_ms) == event[event::FIELD_EPOCH_MS@]
}

/// The views of a sequence of timed events.
pub open spec fn timed_views(events: Seq<(u64, Object)>) -> Seq<Map<Seq<char>, Json>> {
    Seq::new(events.len(), |i: int| events[i].1@)
}

/// A stored event has its columns.
proof fn stored_events_have_columns(event: Map<Seq<char>, Json>)
    requires
        event.dom().finite(),
        event::stored_refusal(event) is None,
        event.contains_key(FIELD_SEQ@),
    ensures
        row::columns_refusal(event) is None,
{
    event::fields_differ();
    event::stored_exactly(event);
    assert(event::stored_entry_refusal(FIELD_SEQ@, event[FIELD_SEQ@]) is None);
}

/// Stamping and taking in add keys to a finite event.
proof fn stamped_stays_finite(event: Map<Seq<char>, Json>, seq: u64, epoch_ms: u64)
    requires
        event.dom().finite(),
    ensures
        event::stamped(event, seq, epoch_ms).dom().finite(),
        event::restamped(event, seq).dom().finite(),
{
}

fn insert_one(stream: &str, event: &Object) -> (insert: Result<Insert, Error>)
    requires
        row::columns_refusal(event@) is None,
    ensures
        insert is Ok,
        inserts_event(insert->Ok_0, stream@, event@),
{
    let (_, seq, epoch_ms, _) = match row::envelope_columns(event) {
        Ok(columns) => columns,
        Err(error) => {
            return Err(error);
        },
    };
    match row::insert_stamped(stream, event) {
        Ok(statement) => Ok(Insert { statement, seq, epoch_ms }),
        Err(error) => Err(error),
    }
}

/// What appending `events` to a stream writes, its counter read in the same
/// transaction. Every event is validated before any is stamped, so a refused
/// batch writes nothing and consumes no number; each event keeps the time it
/// is given with.
pub fn append_many_at(stream: &str, counter: Option<i64>, events: Vec<(u64, Object)>) -> (batch: Result<
    Batch,
    Error,
>)
    requires
        next_of(counter) + events@.len() <= i64::MAX,
    ensures
        batch is Ok <==> mem::batch_refusal(timed_views(events@)) is None,
        batch is Ok ==> {
            let inserts = batch->Ok_0.inserts@;
            &&& inserts.len() == events@.len()
            &&& forall|i: int|
                0 <= i < events@.len() ==> inserts_event(
                    #[trigger] inserts[i],
                    stream@,
                    event::stamped(
                        events@[i].1@,
                        (next_of(counter) + i) as u64,
                        events@[i].0,
                    ),
                )
            &&& events@.len() == 0 ==> batch->Ok_0.counters@.len() == 0
            &&& events@.len() > 0 ==> batch->Ok_0.counters@.len() == 1
                && batch->Ok_0.counters@[0]@ == counter_query(
                stream@,
                (next_of(counter) + events@.len()) as u64,
            )
        },
        batch is Err ==> batch->Err_0@ == Failure::Validation(
            mem::batch_refusal(timed_views(events@))->0,
        ),
{
    let ghost given = events@;
    let ghost all = timed_views(given);
    let base: u64 = next_seq(counter);
    let count: usize = events.len();
    let mut i: usize = 0;
    proof {
        assert(all.take(0) =~= Seq::<Map<Seq<char>, Json>>::empty());
    }
    while i < count
        invariant
            events@ == given,
            count == given.len(),
            all == timed_views(given),
            i <= count,
            mem::batch_refusal(all.take(i as int)) is None,
            forall|j: int|
                0 <= j < i ==> event::envelope_refusal(#[trigger] all[j]) is None
                    && all[j].dom().finite(),
        decreases count - i,
    {
        proof {
            assert(all.take(i + 1).drop_last() =~= all.take(i as int));
            assert(all.take(i + 1).last() == all[i as int]);
        }
        let timed = &events[i];
        match event::validate(&timed.1) {
            Ok(()) => {},
            Err(error) => {
                proof {
                    mem::refusal_stays(all, i + 1);
                }
                return Err(error);
            },
        }
        i += 1;
    }
    proof {
        assert(all.take(all.len() as int) =~= all);
    }
    let mut inserts: Vec<Insert> = Vec::new();
    let mut seq: u64 = base;
    for timed in it: events
        invariant
            it.seq() == given,
            all == timed_views(given),
            base == next_of(counter),
            base + given.len() <= i64::MAX,
            seq == base + it.index(),
            inserts@.len() == it.index(),
            forall|j: int|
                0 <= j < given.len() ==> event::envelope_refusal(#[trigger] all[j]) is None
                    && all[j].dom().finite(),
            forall|j: int|
                0 <= j < it.index() ==> inserts_event(
                    #[trigger] inserts@[j],
                    stream@,
                    event::stamped(given[j].1@, (base + j) as u64, given[j].0),
                ),
    {
        let ghost k = it.index() as int;
        let (epoch_ms, event) = timed;
        proof {
            assert(all[k] == event@);
            event::stamped_is_stored(event@, seq, epoch_ms);
            event::stamping_keeps_the_event(event@, seq, epoch_ms, FIELD_SEQ@);
            stamped_stays_finite(event@, seq, epoch_ms);
            assert(event::stamped(event@, seq, epoch_ms).contains_key(FIELD_SEQ@));
            stored_events_have_columns(event::stamped(event@, seq, epoch_ms));
        }
        match event::stamp(event, seq, epoch_ms) {
            Ok(stamped) => match insert_one(stream, &stamped) {
                Ok(insert) => inserts.push(insert),
                Err(error) => {
                    return Err(error);
                },
            },
            Err(error) => {
                return Err(error);
            },
        }
        seq = seq + 1;
    }
    let mut counters: Vec<Statement> = Vec::new();
    if count > 0 {
        counters.push(set_next_seq(stream, seq));
    }
    Ok(Batch { inserts, counters })
}

/// What appending one event writes, at the time it is given with.
pub fn append_at(stream: &str, counter: Option<i64>, epoch_ms: u64, event: Object) -> (batch: Result<
    Batch,
    Error,
>)
    requires
        next_of(counter) < i64::MAX,
    ensures
        batch is Ok <==> event::envelope_refusal(event@) is None,
        batch is Ok ==> {
            &&& batch->Ok_0.inserts@.len() == 1
            &&& inserts_event(
                batch->Ok_0.inserts@[0],
                stream@,
                event::stamped(event@, next_of(counter), epoch_ms),
            )
            &&& batch->Ok_0.counters@.len() == 1
            &&& batch->Ok_0.counters@[0]@ == counter_query(
                stream@,
                (next_of(counter) + 1) as u64,
            )
        },
        batch is Err ==> batch->Err_0@ == Failure::Validation(event::envelope_refusal(event@)->0),
{
    let ghost given = event@;
    let events: Vec<(u64, Object)> = vec![(epoch_ms, event)];
    proof {
        let all = timed_views(events@);
        assert(all.len() == 1);
        assert(all.last() == given);
        assert(mem::batch_refusal(all.drop_last()) is None);
    }
    append_many_at(stream, counter, events)
}

/// What appending several events as one occurrence writes: one clock reading
/// for the batch.
pub fn append_many(stream: &str, counter: Option<i64>, epoch_ms: u64, events: Vec<Object>) -> (batch: Result<
    Batch,
    Error,
>)
    requires
        next_of(counter) + events@.len() <= i64::MAX,
    ensures
        batch is Ok <==> mem::batch_refusal(mem::object_views(events@)) is None,
        batch is Ok ==> {
            let inserts = batch->Ok_0.inserts@;
            &&& inserts.len() == events@.len()
            &&& forall|i: int|
                0 <= i < events@.len() ==> inserts_event(
                    #[trigger] inserts[i],
                    stream@,
                    event::stamped(events@[i]@, (next_of(counter) + i) as u64, epoch_ms),
                )
            &&& events@.len() == 0 ==> batch->Ok_0.counters@.len() == 0
            &&& events@.len() > 0 ==> batch->Ok_0.counters@.len() == 1
                && batch->Ok_0.counters@[0]@ == counter_query(
                stream@,
                (next_of(counter) + events@.len()) as u64,
            )
        },
        batch is Err ==> batch->Err_0@ == Failure::Validation(
            mem::batch_refusal(mem::object_views(events@))->0,
        ),
{
    let ghost given = events@;
    let mut timed: Vec<(u64, Object)> = Vec::new();
    for event in it: events
        invariant
            it.seq() == given,
            timed@.len() == it.index(),
            forall|i: int|
                0 <= i < it.index() ==> (#[trigger] timed@[i]).0 == epoch_ms && timed@[i].1
                    == given[i],
    {
        timed.push((epoch_ms, event));
    }
    proof {
        assert(timed_views(timed@) =~= mem::object_views(given));
    }
    let batch = append_many_at(stream, counter, timed);
    proof {
        if batch is Ok {
            assert forall|i: int| 0 <= i < given.len() implies inserts_event(
                #[trigger] batch->Ok_0.inserts@[i],
                stream@,
                event::stamped(given[i]@, (next_of(counter) + i) as u64, epoch_ms),
            ) by {
                assert(timed@[i].1 == given[i]);
            }
        }
    }
    batch
}

/// Refuses an append whose author believed the stream's head to be elsewhere.
/// The head is the stored counter's, not that of the events that survive.
pub fn check_head(expected: Expected, counter: Option<i64>) -> (checked: Result<(), Error>)
    requires
        next_of(counter) >= 1,
    ensures
        checked is Ok <==> expected == Expected::head_before(next_of(counter)),
        checked is Ok <==> match expected {
            Expected::Unwritten => next_of(counter) == 1,
            Expected::Last(n) => next_of(counter) > 1 && n == next_of(counter) - 1,
        },
        checked is Err ==> checked->Err_0@ == (Failure::HeadMismatch {
            expected,
            actual: Expected::head_before(next_of(counter)),
        }),
{
    let next: u64 = next_seq(counter);
    let actual = if next == 1 {
        Expected::Unwritten
    } else {
        Expected::Last(next - 1)
    };
    let same = match (expected, actual) {
        (Expected::Unwritten, Expected::Unwritten) => true,
        (Expected::Last(a), Expected::Last(b)) => a == b,
        _ => false,
    };
    if !same {
        return Err(Error::HeadMismatch { expected, actual });
    }
    Ok(())
}

/// Shows a decision the stream as it stands inside the write, and takes what
/// it wants written. `None` writes nothing.
pub fn append_if<F: FnOnce(&[Current]) -> Option<Object>>(
    chain: &[Arc<dyn Upcaster>],
    rows: Vec<StoredRow>,
    decision: F,
) -> (choice: Result<Option<Object>, Error>)
    requires
        forall|seen: &[Current]| #[trigger] call_requires(decision, (seen,)),
    ensures
        exists|moved: Seq<Json>| #[trigger]
            upcast::upcasts(chain@, read::stored_events(read::stored_views(rows@)), moved)
                && match upcast::read_back(moved) {
                Err(failure) => choice is Err && choice->Err_0@ == failure,
                Ok(events) => exists|seen: &[Current], wanted: Option<Object>|
                    upcast::current_views(seen@) == events && #[trigger] call_ensures(
                        decision,
                        (seen,),
                        wanted,
                    ) && match wanted {
                        None => choice is Ok && choice->Ok_0 is None,
                        Some(event) => match event::envelope_refusal(event@) {
                            None => choice is Ok && choice->Ok_0 == Some(event),
                            Some(message) => choice is Err && choice->Err_0@
                                == Failure::Validation(message),
                        },
                    },
            },
{
    let ghost stored = read::stored_events(read::stored_views(rows@));
    let read = read::upcast_rows(chain, rows);
    let ghost moved = choose|moved: Seq<Json>| #[trigger]
        upcast::upcasts(chain@, stored, moved) && upcast::answers(read, upcast::read_back(moved));
    let seen = match read {
        Ok(seen) => seen,
        Err(error) => {
            proof {
                assert(upcast::upcasts(chain@, stored, moved));
            }
            return Err(error);
        },
    };
    let shown: &[Current] = seen.as_slice();
    let wanted = decision(shown);
    let ghost chosen = wanted;
    proof {
        assert(upcast::upcasts(chain@, stored, moved));
        assert(upcast::current_views(shown@) == upcast::read_back(moved)->Ok_0);
        assert(call_ensures(decision, (shown,), chosen));
    }
    match wanted {
        None => Ok(None),
        Some(event) => match event::validate(&event) {
            Ok(()) => Ok(Some(event)),
            Err(error) => Err(error),
        },
    }
}

/// Where some inserts landed, given the row numbers they were assigned.
pub open spec fn landings(inserts: Seq<Insert>, rowids: Seq<i64>) -> Seq<Committed> {
    Seq::new(
        inserts.len(),
        |i: int|
            Committed {
                seq: inserts[i].seq,
                epoch_ms: inserts[i].epoch_ms,
                position: Some(Position(rowids[i] as u64)),
            },
    )
}

impl Batch {
    /// What the write returns, given the row number each insert was assigned.
    pub fn landed(&self, rowids: &[i64]) -> (committed: Vec<Committed>)
        requires
            rowids@.len() == self.inserts@.len(),
        ensures
            committed@ == landings(self.inserts@, rowids@),
            committed@.len() == rowids@.len(),
            forall|i: int|
                0 <= i < rowids@.len() ==> (#[trigger] committed@[i]).seq == self.inserts@[i].seq
                    && committed@[i].epoch_ms == self.inserts@[i].epoch_ms
                    && committed@[i].position == Some(Position(rowids@[i] as u64)),
    {
        let mut committed: Vec<Committed> = Vec::new();
        let mut i: usize = 0;
        while i < self.inserts.len()
            invariant
                rowids@.len() == self.inserts@.len(),
                i <= self.inserts@.len(),
                committed@.len() == i,
                forall|j: int|
                    0 <= j < i ==> #[trigger] committed@[j] == landings(
                        self.inserts@,
                        rowids@,
                    )[j],
            decreases self.inserts@.len() - i,
        {
            let insert = &self.inserts[i];
            committed.push(
                Committed {
                    seq: insert.seq,
                    epoch_ms: insert.epoch_ms,
                    position: Some(read::position_read(rowids[i])),
                },
            );
            i += 1;
        }
        proof {
            assert(committed@ =~= landings(self.inserts@, rowids@));
        }
        committed
    }
}

/// How many of some streams are this one.
pub open spec fn times(streams: Seq<Seq<char>>, stream: Seq<char>) -> nat
    decreases streams.len(),
{
    if streams.len() == 0 {
        0
    } else {
        times(streams.drop_last(), stream) + if streams.last() == stream {
            1nat
        } else {
            0
        }
    }
}

/// The streams some records go to, in their order.
pub open spec fn targets(records: Seq<Exported>) -> Seq<Seq<char>> {
    Seq::new(records.len(), |i: int| records[i].stream)
}

/// The counter of a stream among those that were read.
pub open spec fn counter_among(
    streams: Seq<Seq<char>>,
    counters: Seq<Option<i64>>,
    stream: Seq<char>,
) -> Option<i64> {
    counters[streams.index_of(stream)]
}

/// The number a record is given in its new home: its stream carries on from
/// its counter, one further for each record before it that went there.
pub open spec fn import_seq(
    records: Seq<Exported>,
    streams: Seq<Seq<char>>,
    counters: Seq<Option<i64>>,
    i: int,
) -> u64 {
    (next_of(counter_among(streams, counters, records[i].stream)) + times(
        targets(records).take(i),
        records[i].stream,
    )) as u64
}

/// Why the first of these records that is refused is, if one is.
pub open spec fn import_refusal(records: Seq<Exported>) -> Option<Seq<char>>
    decreases records.len(),
{
    if records.len() == 0 {
        None
    } else {
        match import_refusal(records.drop_last()) {
            Some(message) => Some(message),
            None => event::stored_refusal(records.last().event),
        }
    }
}

proof fn import_refusal_stays(records: Seq<Exported>, n: int)
    requires
        0 <= n <= records.len(),
        import_refusal(records.take(n)) is Some,
    ensures
        import_refusal(records) == import_refusal(records.take(n)),
    decreases records.len() - n,
{
    if n == records.len() {
        assert(records.take(n) =~= records);
    } else {
        assert(records.take(n + 1).drop_last() =~= records.take(n));
        import_refusal_stays(records, n + 1);
    }
}

/// The streams of a list, each once, in the order they first appear.
pub open spec fn first_seen(streams: Seq<Seq<char>>) -> Seq<Seq<char>>
    decreases streams.len(),
{
    if streams.len() == 0 {
        streams
    } else {
        let before = first_seen(streams.drop_last());
        if before.contains(streams.last()) {
            before
        } else {
            before.push(streams.last())
        }
    }
}

/// Each stream of a list is in it once.
proof fn seen_once(streams: Seq<Seq<char>>)
    ensures
        first_seen(streams).no_duplicates(),
        forall|stream: Seq<char>| #[trigger]
            first_seen(streams).contains(stream) <==> streams.contains(stream),
    decreases streams.len(),
{
    if streams.len() > 0 {
        let front = streams.drop_last();
        let last = streams.last();
        let before = first_seen(front);
        let all = first_seen(streams);
        seen_once(front);
        assert(streams =~= front.push(last));
        assert forall|stream: Seq<char>| #[trigger] all.contains(stream) <==> streams.contains(
            stream,
        ) by {
            pushed_contains(front, last, stream);
            pushed_contains(before, last, stream);
            assert(before.contains(stream) <==> front.contains(stream));
        }
        assert forall|a: int, b: int|
            0 <= a < all.len() && 0 <= b < all.len() && a != b implies all[a] != all[b] by {
            if a < before.len() && b < before.len() {
                assert(before[a] != before[b]);
            } else if a < before.len() {
                assert(before.contains(before[a]));
            } else {
                assert(before.contains(before[b]));
            }
        }
    }
}

/// The streams some records go to, each once, in the order they first appear:
/// the counters an import reads.
pub fn import_streams(records: &[ExportedEvent]) -> (streams: Vec<String>)
    ensures
        text::views(streams@) == first_seen(targets(transfer::record_views(records@))),
        text::views(streams@).no_duplicates(),
        forall|i: int|
            0 <= i < records@.len() ==> text::views(streams@).contains(
                (#[trigger] records@[i]).stream@,
            ),
{
    let ghost all = targets(transfer::record_views(records@));
    let mut streams: Vec<String> = Vec::new();
    let mut i: usize = 0;
    proof {
        assert(all.take(0) =~= Seq::<Seq<char>>::empty());
        assert(text::views(streams@) =~= Seq::<Seq<char>>::empty());
    }
    while i < records.len()
        invariant
            all == targets(transfer::record_views(records@)),
            i <= records@.len(),
            text::views(streams@) == first_seen(all.take(i as int)),
        decreases records@.len() - i,
    {
        let stream = &records[i].stream;
        let ghost had = text::views(streams@);
        proof {
            assert(all.take(i + 1).drop_last() =~= all.take(i as int));
            assert(all.take(i + 1).last() == stream@);
        }
        if find(&streams, stream.as_str()).is_none() {
            streams.push(stream.clone());
            proof {
                assert(text::views(streams@) =~= had.push(stream@));
            }
        }
        i += 1;
    }
    proof {
        assert(all.take(all.len() as int) =~= all);
        seen_once(all);
        assert forall|k: int| 0 <= k < records@.len() implies text::views(streams@).contains(
            (#[trigger] records@[k]).stream@,
        ) by {
            assert(all[k] == records@[k].stream@);
            assert(all.contains(all[k]));
        }
    }
    streams
}

/// What a sequence with one more element holds.
proof fn pushed_contains(s: Seq<Seq<char>>, last: Seq<char>, sought: Seq<char>)
    ensures
        s.push(last).contains(sought) <==> s.contains(sought) || sought == last,
{
    let all = s.push(last);
    if s.contains(sought) {
        let i = choose|i: int| 0 <= i < s.len() && s[i] == sought;
        assert(all[i] == sought);
    }
    if sought == last {
        assert(all[s.len() as int] == sought);
    }
    if all.contains(sought) && sought != last {
        let i = choose|i: int| 0 <= i < all.len() && all[i] == sought;
        assert(s[i] == sought);
    }
}

/// Where a text stands in a list.
fn find(list: &Vec<String>, name: &str) -> (at: Option<usize>)
    ensures
        at is Some ==> at->0 < list@.len() && list@[at->0 as int]@ == name@,
        at is Some <==> text::views(list@).contains(name@),
{
    let mut i: usize = 0;
    while i < list.len()
        invariant
            i <= list@.len(),
            forall|j: int| 0 <= j < i ==> (#[trigger] list@[j])@ != name@,
        decreases list@.len() - i,
    {
        if text::same(list[i].as_str(), name) {
            proof {
                assert(text::views(list@)[i as int] == name@);
            }
            return Some(i);
        }
        i += 1;
    }
    proof {
        assert forall|j: int| 0 <= j < text::views(list@).len() implies text::views(list@)[j]
            != name@ by {
            assert(list@[j]@ != name@);
        }
    }
    None
}

/// What taking records into the log writes, the counters of their streams
/// read in the same transaction. Everything a record carries survives but its
/// coordinates: `seq` carries on from its stream's counter, and each counter is
/// written once.
pub fn import_many(
    records: &[ExportedEvent],
    streams: &Vec<String>,
    counters: &Vec<Option<i64>>,
) -> (batch: Result<Batch, Error>)
    requires
        counters@.len() == streams@.len(),
        text::views(streams@).no_duplicates(),
        forall|i: int|
            0 <= i < records@.len() ==> text::views(streams@).contains(
                (#[trigger] records@[i]).stream@,
            ),
        forall|k: int|
            0 <= k < counters@.len() ==> next_of(#[trigger] counters@[k]) + records@.len()
                <= i64::MAX,
    ensures
        ({
            let views = transfer::record_views(records@);
            let names = text::views(streams@);
            &&& batch is Ok <==> import_refusal(views) is None
            &&& batch is Ok ==> {
                let inserts = batch->Ok_0.inserts@;
                &&& inserts.len() == records@.len()
                &&& forall|i: int|
                    0 <= i < records@.len() ==> inserts_event(
                        #[trigger] inserts[i],
                        views[i].stream,
                        event::restamped(
                            views[i].event,
                            import_seq(views, names, counters@, i),
                        ),
                    )
                &&& batch->Ok_0.counters@.len() == streams@.len()
                &&& forall|k: int|
                    0 <= k < streams@.len() ==> (#[trigger] batch->Ok_0.counters@[k])@
                        == counter_query(
                        names[k],
                        (next_of(counters@[k]) + times(targets(views), names[k])) as u64,
                    )
            }
            &&& batch is Err ==> batch->Err_0@ == Failure::Validation(import_refusal(views)->0)
        }),
{
    let ghost views = transfer::record_views(records@);
    let ghost names = text::views(streams@);
    let ghost all = targets(views);
    let total: usize = records.len();
    let mut nexts: Vec<u64> = Vec::new();
    let mut k: usize = 0;
    while k < counters.len()
        invariant
            k <= counters@.len(),
            nexts@.len() == k,
            forall|j: int| 0 <= j < k ==> #[trigger] nexts@[j] == next_of(counters@[j]),
        decreases counters@.len() - k,
    {
        nexts.push(next_seq(counters[k]));
        k += 1;
    }
    let mut inserts: Vec<Insert> = Vec::new();
    let mut i: usize = 0;
    proof {
        assert(all.take(0) =~= Seq::<Seq<char>>::empty());
        assert(views.take(0) =~= Seq::<Exported>::empty());
    }
    while i < total
        invariant
            total == records@.len(),
            views == transfer::record_views(records@),
            names == text::views(streams@),
            all == targets(views),
            counters@.len() == streams@.len(),
            nexts@.len() == streams@.len(),
            names.no_duplicates(),
            forall|j: int|
                0 <= j < records@.len() ==> names.contains((#[trigger] records@[j]).stream@),
            forall|j: int|
                0 <= j < counters@.len() ==> next_of(#[trigger] counters@[j]) + records@.len()
                    <= i64::MAX,
            i <= total,
            import_refusal(views.take(i as int)) is None,
            forall|j: int|
                0 <= j < nexts@.len() ==> #[trigger] nexts@[j] == next_of(counters@[j]) + times(
                    all.take(i as int),
                    names[j],
                ),
            inserts@.len() == i,
            forall|j: int|
                0 <= j < i ==> inserts_event(
                    #[trigger] inserts@[j],
                    views[j].stream,
                    event::restamped(views[j].event, import_seq(views, names, counters@, j)),
                ),
        decreases total - i,
    {
        let record = &records[i];
        proof {
            assert(views[i as int] == record@);
            assert(all[i as int] == record.stream@);
            assert(views.take(i + 1).drop_last() =~= views.take(i as int));
            assert(views.take(i + 1).last() == record@);
            assert(all.take(i + 1).drop_last() =~= all.take(i as int));
            assert(all.take(i + 1).last() == record.stream@);
            assert(names.contains(record.stream@));
        }
        let at = match find(streams, record.stream.as_str()) {
            Some(at) => at,
            None => {
                proof {
                    assert(false);
                }
                0
            },
        };
        proof {
            assert(names[at as int] == record.stream@);
            let found = names.index_of(record.stream@);
            assert(names[found] == record.stream@);
            assert(found == at);
            times_at_most(all.take(i as int), record.stream@);
            assert(nexts@[at as int] == next_of(counters@[at as int]) + times(
                all.take(i as int),
                names[at as int],
            ));
        }
        let seq: u64 = nexts[at];
        proof {
            assert(seq == import_seq(views, names, counters@, i as int));
        }
        let copy = record.event.clone();
        let ghost carried = copy@;
        match event::restamp(copy, seq) {
            Ok(restamped) => {
                proof {
                    event::restamped_is_stored(carried, seq);
                    stamped_stays_finite(carried, seq, 0);
                    event::restamping_keeps_all_but_seq(carried, seq, FIELD_SEQ@);
                    assert(restamped@.contains_key(FIELD_SEQ@));
                    stored_events_have_columns(restamped@);
                }
                match insert_one(record.stream.as_str(), &restamped) {
                    Ok(insert) => inserts.push(insert),
                    Err(error) => {
                        return Err(error);
                    },
                }
            },
            Err(error) => {
                proof {
                    import_refusal_stays(views, i + 1);
                }
                return Err(error);
            },
        }
        let ghost before = nexts@;
        nexts.set(at, seq + 1);
        proof {
            assert forall|j: int| 0 <= j < nexts@.len() implies #[trigger] nexts@[j] == next_of(
                counters@[j],
            ) + times(all.take(i + 1), names[j]) by {
                assert(before[j] == next_of(counters@[j]) + times(
                    all.take(i as int),
                    names[j],
                ));
                if j != at {
                    assert(names[j] != names[at as int]);
                }
            }
        }
        i += 1;
    }
    proof {
        assert(all.take(i as int) =~= all);
        assert(views.take(i as int) =~= views);
    }
    let mut writes: Vec<Statement> = Vec::new();
    let mut n: usize = 0;
    while n < streams.len()
        invariant
            n <= streams@.len(),
            names == text::views(streams@),
            counters@.len() == streams@.len(),
            nexts@.len() == streams@.len(),
            forall|j: int|
                0 <= j < nexts@.len() ==> #[trigger] nexts@[j] == next_of(counters@[j]) + times(
                    all,
                    names[j],
                ),
            writes@.len() == n,
            forall|j: int|
                0 <= j < n ==> (#[trigger] writes@[j])@ == counter_query(
                    names[j],
                    (next_of(counters@[j]) + times(all, names[j])) as u64,
                ),
        decreases streams@.len() - n,
    {
        proof {
            assert(nexts@[n as int] == next_of(counters@[n as int]) + times(
                all,
                names[n as int],
            ));
        }
        writes.push(set_next_seq(streams[n].as_str(), nexts[n]));
        n += 1;
    }
    Ok(Batch { inserts, counters: writes })
}

proof fn times_at_most(streams: Seq<Seq<char>>, stream: Seq<char>)
    ensures
        times(streams, stream) <= streams.len(),
    decreases streams.len(),
{
    if streams.len() > 0 {
        times_at_most(streams.drop_last(), stream);
    }
}

/// Getting the same log back: records whose events were numbered 1, 2, 3 in
/// each stream as they come, taken in order into a log that has none of their
/// streams, keep their numbers, so that each event is stored again as it was.
pub proof fn imports_reproduce_a_log(
    records: Seq<Exported>,
    streams: Seq<Seq<char>>,
    counters: Seq<Option<i64>>,
    i: int,
)
    requires
        0 <= i < records.len(),
        records.len() < u64::MAX,
        counters.len() == streams.len(),
        streams.contains(records[i].stream),
        forall|k: int| 0 <= k < counters.len() ==> (#[trigger] counters[k]) is None,
        records[i].event.contains_key(FIELD_SEQ@),
        records[i].event.contains_key(FIELD_META@),
        records[i].event.contains_key(FIELD_DATA@),
        records[i].event[FIELD_SEQ@] == event::whole(
            (1 + times(targets(records).take(i), records[i].stream)) as u64,
        ),
    ensures
        event::restamped(records[i].event, import_seq(records, streams, counters, i))
            == records[i].event,
{
    let at = streams.index_of(records[i].stream);
    assert(streams[at] == records[i].stream);
    assert(counters[at] is None);
    assert(event::restamped(records[i].event, import_seq(records, streams, counters, i))
        =~= records[i].event);
}

/// A stream's numbers are consecutive across its records: of two records of
/// one stream with none of it between them, the later has the next number.
pub proof fn imports_number_consecutively(
    records: Seq<Exported>,
    streams: Seq<Seq<char>>,
    counters: Seq<Option<i64>>,
    i: int,
    j: int,
)
    requires
        0 <= i < j < records.len(),
        records[i].stream == records[j].stream,
        forall|k: int| i < k < j ==> (#[trigger] records[k]).stream != records[i].stream,
        next_of(counter_among(streams, counters, records[i].stream)) + records.len() <= i64::MAX,
    ensures
        import_seq(records, streams, counters, j) == import_seq(records, streams, counters, i) + 1,
{
    let all = targets(records);
    let stream = records[i].stream;
    times_at_most(all.take(i), stream);
    times_at_most(all.take(j), stream);
    assert(all.take(i + 1).drop_last() =~= all.take(i));
    assert(all.take(i + 1).last() == stream);
    gap_adds_nothing(records, stream, i + 1, j);
}

proof fn gap_adds_nothing(records: Seq<Exported>, stream: Seq<char>, from: int, to: int)
    requires
        0 <= from <= to <= records.len(),
        forall|k: int| from <= k < to ==> (#[trigger] records[k]).stream != stream,
    ensures
        times(targets(records).take(to), stream) == times(targets(records).take(from), stream),
    decreases to - from,
{
    let all = targets(records);
    if from < to {
        gap_adds_nothing(records, stream, from, to - 1);
        assert(all.take(to).drop_last() =~= all.take(to - 1));
        assert(all.take(to).last() == records[to - 1].stream);
    }
}

/// A stream that was never written begins at 1; one that was carries on from
/// its counter. A stale author is told apart: the head an append expects is
/// the one before the next number, and a stream without one is unwritten.
pub proof fn streams_begin_at_one(counter: Option<i64>, expected: Expected)
    requires
        counter is Some ==> counter->0 >= 1,
    ensures
        counter is None ==> next_of(counter) == 1,
        counter is Some ==> next_of(counter) == counter->0,
        expected == Expected::head_before(next_of(counter)) <==> match expected {
            Expected::Unwritten => counter is None || counter->0 == 1,
            Expected::Last(n) => counter is Some && counter->0 > 1 && n == counter->0 - 1,
        },
{
}

/// Two authors who saw the same head cannot both append: once one of them has,
/// the head the other expects is not the stream's.
pub proof fn a_stale_author_is_refused(counter: Option<i64>, expected: Expected, written: nat)
    requires
        counter is Some ==> counter->0 >= 1,
        written > 0,
        next_of(counter) + written <= i64::MAX,
        expected == Expected::head_before(next_of(counter)),
    ensures
        expected != Expected::head_before(
            next_of(Some((next_of(counter) + written) as i64)),
        ),
{
}

/// What an insert writes of an event: its stream, its number, its time, its
/// kind and its version, each as it is, and the text of its two levels.
pub proof fn inserts_write_the_event(insert: Insert, stream: Seq<char>, event: Map<Seq<char>, Json>)
    requires
        inserts_event(insert, stream, event),
    ensures
        insert.statement@.sql
            == "INSERT INTO events (stream, seq, epoch_ms, kind, schema_version, meta, data) VALUES (?1, ?2, ?3, ?4, ?5, ?6, ?7)"@,
        insert.statement@.params.len() == 7,
        insert.statement@.params[0] == Bound::Text(stream),
        event["seq"@] is Number && event["seq"@]->Number_0 is PosInt
            ==> insert.statement@.params[1] == Bound::Integer(
            event["seq"@]->Number_0->PosInt_0 as i64,
        ) && insert.seq == event["seq"@]->Number_0->PosInt_0,
        event["epoch_ms"@] is Number && event["epoch_ms"@]->Number_0 is PosInt
            ==> insert.statement@.params[2] == Bound::Integer(
            event["epoch_ms"@]->Number_0->PosInt_0 as i64,
        ) && insert.epoch_ms == event["epoch_ms"@]->Number_0->PosInt_0,
        event["kind"@] is String ==> insert.statement@.params[3] == Bound::Text(
            event["kind"@]->String_0,
        ),
        event["_schema_version"@] is Number && event["_schema_version"@]->Number_0 is PosInt
            ==> insert.statement@.params[4] == Bound::Integer(
            event["_schema_version"@]->Number_0->PosInt_0 as i64,
        ),
        event.contains_key("meta"@) ==> insert.statement@.params[5] == Bound::Text(
            crate::json::wire::rendered(event["meta"@]),
        ),
        event.contains_key("data"@) ==> insert.statement@.params[6] == Bound::Text(
            crate::json::wire::rendered(event["data"@]),
        ),
{
}

/// A counter is written for the stream it is of, as the number the next event
/// will have.
pub proof fn counters_are_written_as_they_are(stream: Seq<char>, next: u64)
    ensures
        counter_query(stream, next).sql
            == "INSERT INTO stream_seq (stream, next_seq) VALUES (?1, ?2) ON CONFLICT(stream) DO UPDATE SET next_seq = excluded.next_seq"@,
        counter_query(stream, next).params == seq![
            Bound::Text(stream),
            Bound::Integer(next as i64),
        ],
{
}

/// An import carries each stream on from its own counter, and leaves it past
/// its last record: the first record of a stream has the number its counter
/// gives, and the counter it is left at is one past its last; a stream without
/// a record keeps its counter.
pub proof fn imports_carry_each_stream_on(
    records: Seq<Exported>,
    streams: Seq<Seq<char>>,
    counters: Seq<Option<i64>>,
    k: int,
    i: int,
)
    requires
        counters.len() == streams.len(),
        streams.no_duplicates(),
        0 <= k < streams.len(),
        next_of(counters[k]) + records.len() <= i64::MAX,
        0 <= i < records.len(),
        records[i].stream == streams[k],
    ensures
        (forall|j: int| 0 <= j < i ==> (#[trigger] records[j]).stream != streams[k])
            ==> import_seq(records, streams, counters, i) == next_of(counters[k]),
        (forall|j: int| i < j < records.len() ==> (#[trigger] records[j]).stream != streams[k])
            ==> next_of(counters[k]) + times(targets(records), streams[k]) == import_seq(
            records,
            streams,
            counters,
            i,
        ) + 1,
        import_seq(records, streams, counters, i) >= next_of(counters[k]),
{
    let all = targets(records);
    let stream = streams[k];
    let found = streams.index_of(stream);
    assert(streams.contains(stream));
    assert(streams[found] == stream);
    assert(found == k);
    times_at_most(all.take(i), stream);
    if forall|j: int| 0 <= j < i ==> (#[trigger] records[j]).stream != stream {
        gap_adds_nothing(records, stream, 0, i);
        assert(all.take(0) =~= Seq::<Seq<char>>::empty());
    }
    if forall|j: int| i < j < records.len() ==> (#[trigger] records[j]).stream != stream {
        assert(all.take(i + 1).drop_last() =~= all.take(i));
        assert(all.take(i + 1).last() == stream);
        gap_adds_nothing(records, stream, i + 1, records.len() as int);
        assert(all.take(records.len() as int) =~= all);
    }
}

/// A stream that no record goes to keeps its counter.
pub proof fn imports_leave_other_streams(
    records: Seq<Exported>,
    counter: Option<i64>,
    stream: Seq<char>,
)
    requires
        forall|i: int| 0 <= i < records.len() ==> (#[trigger] records[i]).stream != stream,
    ensures
        next_of(counter) + times(targets(records), stream) == next_of(counter),
{
    gap_adds_nothing(records, stream, 0, records.len() as int);
    assert(targets(records).take(0) =~= Seq::<Seq<char>>::empty());
    assert(targets(records).take(records.len() as int) =~= targets(records));
}

/// An import is refused exactly when one of its records is, and for the reason
/// of the first that is.
pub proof fn imports_are_refused_for_the_first(records: Seq<Exported>)
    ensures
        import_refusal(records) is None <==> forall|i: int|
            0 <= i < records.len() ==> event::stored_refusal((#[trigger] records[i]).event) is None,
        import_refusal(records) is Some ==> exists|i: int|
            0 <= i < records.len() && import_refusal(records) == event::stored_refusal(
                (#[trigger] records[i]).event,
            ) && forall|j: int|
                0 <= j < i ==> event::stored_refusal((#[trigger] records[j]).event) is None,
    decreases records.len(),
{
    if records.len() > 0 {
        let front = records.drop_last();
        let last = records.len() - 1;
        imports_are_refused_for_the_first(front);
        if import_refusal(front) is None {
            assert forall|i: int| 0 <= i < last implies event::stored_refusal(
                (#[trigger] records[i]).event,
            ) is None by {
                assert(front[i] == records[i]);
            }
            if import_refusal(records) is Some {
                assert(import_refusal(records) == event::stored_refusal(records[last].event));
            } else {
                assert(event::stored_refusal(records[last].event) is None);
            }
        } else {
            let i = choose|i: int|
                0 <= i < front.len() && import_refusal(front) == event::stored_refusal(
                    (#[trigger] front[i]).event,
                ) && forall|j: int|
                    0 <= j < i ==> event::stored_refusal((#[trigger] front[j]).event) is None;
            assert(records[i] == front[i]);
            assert forall|j: int| 0 <= j < i implies event::stored_refusal(
                (#[trigger] records[j]).event,
            ) is None by {
                assert(front[j] == records[j]);
            }
        }
    }
}

/// The streams of an import are those of its records, each once, in the order
/// they first appear: one stands before another exactly when a record of it
/// comes before every record of the other.
pub proof fn streams_are_listed_as_they_appear(streams: Seq<Seq<char>>, a: int, b: int)
    requires
        0 <= a < b < first_seen(streams).len(),
    ensures
        first_seen(streams).no_duplicates(),
        forall|stream: Seq<char>| #[trigger]
            first_seen(streams).contains(stream) <==> streams.contains(stream),
        exists|i: int|
            0 <= i < streams.len() && #[trigger] streams[i] == first_seen(streams)[a] && forall|
                j: int,
            |
                0 <= j <= i ==> #[trigger] streams[j] != first_seen(streams)[b],
    decreases streams.len(),
{
    seen_once(streams);
    let front = streams.drop_last();
    let before = first_seen(front);
    let all = first_seen(streams);
    seen_once(front);
    if b < before.len() {
        streams_are_listed_as_they_appear(front, a, b);
        let i = choose|i: int|
            0 <= i < front.len() && #[trigger] front[i] == before[a] && forall|j: int|
                0 <= j <= i ==> #[trigger] front[j] != before[b];
        assert(streams[i] == all[a]);
        assert forall|j: int| 0 <= j <= i implies #[trigger] streams[j] != all[b] by {
            assert(front[j] == streams[j]);
        }
    } else {
        assert(all[b] == streams.last());
        assert(before.contains(before[a]));
        assert(front.contains(before[a]));
        let i = choose|i: int| 0 <= i < front.len() && front[i] == before[a];
        assert(streams[i] == all[a]);
        assert forall|j: int| 0 <= j <= i implies #[trigger] streams[j] != all[b] by {
            assert(front[j] == streams[j]);
            assert(front.contains(front[j]));
            assert(before.contains(front[j]));
        }
    }
}

/// Where a write leaves its counter is where the next one starts: no number is
/// given twice, whatever is removed in between.
pub proof fn counters_carry_on(counter: Option<i64>, written: nat)
    requires
        next_of(counter) + written <= i64::MAX,
    ensures
        next_of(Some((next_of(counter) + written) as i64)) == next_of(counter) + written,
{
}

/// The position to wake subscribers with once a write is committed: the
/// highest it assigned.
pub fn to_publish(committed: &[Committed]) -> (position: Option<Position>)
    ensures
        position is Some ==> exists|i: int|
            0 <= i < committed@.len() && (#[trigger] committed@[i]).position == position,
        forall|i: int|
            0 <= i < committed@.len() && (#[trigger] committed@[i]).position is Some
                ==> position is Some && (committed@[i].position->0).0 <= (position->0).0,
{
    let mut highest: Option<Position> = None;
    let mut i: usize = 0;
    while i < committed.len()
        invariant
            i <= committed@.len(),
            highest is Some ==> exists|j: int|
                0 <= j < i && (#[trigger] committed@[j]).position == highest,
            forall|j: int|
                0 <= j < i && (#[trigger] committed@[j]).position is Some ==> highest is Some && (
                committed@[j].position->0).0 <= (highest->0).0,
        decreases committed@.len() - i,
    {
        if let Some(position) = committed[i].position {
            let higher = match highest {
                Some(highest) => position.get() > highest.get(),
                None => true,
            };
            if higher {
                highest = Some(position);
                proof {
                    assert(committed@[i as int].position == highest);
                }
            }
        }
        i += 1;
    }
    highest
}

/// Timed events and the streams of records are viewed one by one, and what a
/// write returns is, for each insert, its number, its time and its row.
pub proof fn landings_are_the_inserts(
    timed: Seq<(u64, Object)>,
    records: Seq<Exported>,
    inserts: Seq<Insert>,
    rowids: Seq<i64>,
    i: int,
)
    ensures
        timed_views(timed).len() == timed.len(),
        0 <= i < timed.len() ==> timed_views(timed)[i] == timed[i].1@,
        targets(records).len() == records.len(),
        0 <= i < records.len() ==> targets(records)[i] == records[i].stream,
        landings(inserts, rowids).len() == inserts.len(),
        0 <= i < inserts.len() ==> landings(inserts, rowids)[i] == (Committed {
            seq: inserts[i].seq,
            epoch_ms: inserts[i].epoch_ms,
            position: Some(Position(rowids[i] as u64)),
        }),
{
}

} // verus!
