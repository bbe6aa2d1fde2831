//! The in-memory backend.
//!
//! One stream, owned by one handle, which is what makes its writes serialized
//! without a lock. It has no database, so it answers no SQL and assigns no
//! global position.

use std::sync::Arc;

use vstd::prelude::*;

use crate::error::{Error, Failure};
use crate::event::{self, FIELD_KIND, FIELD_SEQ};
use crate::json::{Json, Object, Value};
use crate::position::Committed;
use crate::text;
use crate::upcast::{self, Current, UpcastChain, Upcaster};

verus! {

/// A stream held in memory.
pub struct MemEventStore {
    stream_id: String,
    events: Vec<Object>,
    chain: UpcastChain,
}

/// The views of a sequence of objects.
pub open spec fn object_views(objects: Seq<Object>) -> Seq<Map<Seq<char>, Json>> {
    Seq::new(objects.len(), |i: int| objects[i]@)
}

/// Objects as JSON values.
pub open spec fn as_values(objects: Seq<Map<Seq<char>, Json>>) -> Seq<Json> {
    Seq::new(objects.len(), |i: int| Json::Object(objects[i]))
}

/// The stored sequence number of an event.
pub open spec fn seq_of(event: Map<Seq<char>, Json>) -> u64 {
    event[FIELD_SEQ@].as_u64()->0
}

/// Whether a stored stream is one this backend wrote: numbered from 1 without
/// a gap, each event readable as it stands.
pub open spec fn numbered(events: Seq<Map<Seq<char>, Json>>) -> bool {
    forall|i: int|
        0 <= i < events.len() ==> {
            &&& event::has_u64(#[trigger] events[i], FIELD_SEQ@)
            &&& seq_of(events[i]) == i + 1
            &&& upcast::current_refusal(Json::Object(events[i])) is None
        }
}

/// The kinds a read names, as texts.
pub open spec fn kind_views(kinds: Option<&[&str]>) -> Option<Seq<Seq<char>>> {
    match kinds {
        Some(kinds) => Some(text::slice_views(kinds@)),
        None => None,
    }
}

/// Whether a read of `kinds` from `from_seq` takes an event, by its stored
/// shape.
pub open spec fn taken(
    event: Map<Seq<char>, Json>,
    kinds: Option<Seq<Seq<char>>>,
    from_seq: u64,
) -> bool {
    &&& seq_of(event) >= from_seq
    &&& match kinds {
        None => true,
        Some(kinds) => event[FIELD_KIND@] is String && kinds.contains(
            event[FIELD_KIND@]->String_0,
        ),
    }
}

/// The first `limit` events that a read of `kinds` from `from_seq` takes, in
/// stream order.
pub open spec fn selected(
    events: Seq<Map<Seq<char>, Json>>,
    kinds: Option<Seq<Seq<char>>>,
    from_seq: u64,
    limit: nat,
) -> Seq<Map<Seq<char>, Json>>
    decreases events.len(),
{
    if events.len() == 0 {
        Seq::empty()
    } else {
        let before = selected(events.drop_last(), kinds, from_seq, limit);
        if before.len() < limit && taken(events.last(), kinds, from_seq) {
            before.push(events.last())
        } else {
            before
        }
    }
}

/// The last `n` events of a stream.
pub open spec fn tail(events: Seq<Map<Seq<char>, Json>>, n: nat) -> Seq<Map<Seq<char>, Json>> {
    if n >= events.len() {
        events
    } else {
        events.skip(events.len() - n)
    }
}

/// Whether a read of `picked` through `chain` may answer `answer`: the events
/// are handed to the chain, and what it gives back is read.
pub open spec fn read_through(
    chain: Seq<Arc<dyn Upcaster>>,
    picked: Seq<Map<Seq<char>, Json>>,
    answer: Result<Vec<Current>, Error>,
) -> bool {
    exists|moved: Seq<Json>| #[trigger]
        upcast::upcasts(chain, as_values(picked), moved) && upcast::answers(
            answer,
            upcast::read_back(moved),
        )
}

/// The events stamped in order, from the sequence number after `start`, each
/// with the time the write reported for it.
pub open spec fn stamped_run(
    events: Seq<Map<Seq<char>, Json>>,
    start: nat,
    committed: Seq<Committed>,
) -> Seq<Map<Seq<char>, Json>> {
    Seq::new(
        events.len(),
        |i: int| event::stamped(events[i], (start + i + 1) as u64, committed[i].epoch_ms),
    )
}

/// Why the first of these events that is refused is, if one is.
pub open spec fn batch_refusal(events: Seq<Map<Seq<char>, Json>>) -> Option<Seq<char>>
    decreases events.len(),
{
    if events.len() == 0 {
        None
    } else {
        match batch_refusal(events.drop_last()) {
            Some(message) => Some(message),
            None => event::envelope_refusal(events.last()),
        }
    }
}

/// What a stamped event shows a reader: its number, and nothing to refuse.
proof fn stamped_is_current(event: Map<Seq<char>, Json>, seq: u64, epoch_ms: u64)
    requires
        event.dom().finite(),
        event::envelope_refusal(event) is None,
    ensures
        event::has_u64(event::stamped(event, seq, epoch_ms), FIELD_SEQ@),
        seq_of(event::stamped(event, seq, epoch_ms)) == seq,
        upcast::current_refusal(Json::Object(event::stamped(event, seq, epoch_ms))) is None,
{
    let after = event::stamped(event, seq, epoch_ms);
    event::accepted_exactly(event);
    event::stamped_is_stored(event, seq, epoch_ms);
    event::stamping_keeps_the_event(event, seq, epoch_ms, FIELD_KIND@);
    event::stamping_keeps_the_event(event, seq, epoch_ms, FIELD_SEQ@);
    event::stored_exactly(after);
    assert(after.contains_key(FIELD_SEQ@));
}

/// Events that can be read as they stand are read back unchanged.
proof fn readable_reads_back(events: Seq<Map<Seq<char>, Json>>)
    requires
        forall|i: int|
            0 <= i < events.len() ==> upcast::current_refusal(
                Json::Object(#[trigger] events[i]),
            ) is None,
    ensures
        upcast::read_back(as_values(events)) == Ok::<_, Failure>(events),
    decreases events.len(),
{
    if events.len() == 0 {
        assert(as_values(events) =~= Seq::<Json>::empty());
        assert(events =~= Seq::<Map<Seq<char>, Json>>::empty());
    } else {
        readable_reads_back(events.drop_last());
        assert(as_values(events).drop_last() =~= as_values(events.drop_last()));
        assert(upcast::current_refusal(Json::Object(events[events.len() - 1])) is None);
        assert(events.drop_last().push(events.last()) =~= events);
    }
}

/// Every event a read takes is one of the stream's.
proof fn selected_are_of_the_stream(
    events: Seq<Map<Seq<char>, Json>>,
    kinds: Option<Seq<Seq<char>>>,
    from_seq: u64,
    limit: nat,
)
    ensures
        forall|i: int|
            0 <= i < selected(events, kinds, from_seq, limit).len() ==> events.contains(
                #[trigger] selected(events, kinds, from_seq, limit)[i],
            ),
        selected(events, kinds, from_seq, limit).len() <= limit,
    decreases events.len(),
{
    if events.len() > 0 {
        let front = events.drop_last();
        selected_are_of_the_stream(front, kinds, from_seq, limit);
        let before = selected(front, kinds, from_seq, limit);
        let all = selected(events, kinds, from_seq, limit);
        assert forall|i: int| 0 <= i < all.len() implies events.contains(#[trigger] all[i]) by {
            if i < before.len() {
                assert(front.contains(before[i]));
                let j = choose|j: int| 0 <= j < front.len() && front[j] == before[i];
                assert(events[j] == all[i]);
            } else {
                assert(events[events.len() - 1] == all[i]);
            }
        }
    }
}

impl MemEventStore {
    #[verifier::type_invariant]
    spec fn well_formed(self) -> bool {
        numbered(object_views(self.events@))
    }

    /// Which stream this is.
    pub closed spec fn stream(&self) -> Seq<char> {
        self.stream_id@
    }

    /// The events as they are stored, in order.
    pub closed spec fn stored(&self) -> Seq<Map<Seq<char>, Json>> {
        object_views(self.events@)
    }

    /// The chain every read runs through.
    pub closed spec fn steps(&self) -> Seq<Arc<dyn Upcaster>> {
        self.chain@
    }

    /// An empty stream.
    pub fn new(stream_id: &str) -> (store: Self)
        ensures
            store.stream() == stream_id@,
            store.stored() == Seq::<Map<Seq<char>, Json>>::empty(),
            store.steps() == Seq::<Arc<dyn Upcaster>>::empty(),
    {
        let events: Vec<Object> = Vec::new();
        proof {
            assert(object_views(events@) =~= Seq::<Map<Seq<char>, Json>>::empty());
        }
        MemEventStore { stream_id: stream_id.to_owned(), events, chain: Vec::new() }
    }

    /// Registers the upcaster chain applied to every read.
    pub fn with_upcasters(self, chain: UpcastChain) -> (store: Self)
        ensures
            store.stream() == self.stream(),
            store.stored() == self.stored(),
            store.steps() == chain@,
    {
        proof {
            use_type_invariant(&self);
        }
        MemEventStore { stream_id: self.stream_id, events: self.events, chain }
    }

    /// Which stream this handle is.
    pub fn stream_id(&self) -> (id: &str)
        ensures
            id@ == self.stream(),
    {
        self.stream_id.as_str()
    }

    /// Runs stored events through the chain and reads what comes out.
    fn read_out(&self, picked: Vec<Value>) -> (read: Result<Vec<Current>, Error>)
        requires
            exists|events: Seq<Map<Seq<char>, Json>>|
                upcast::value_views(picked@) == #[trigger] as_values(events),
        ensures
            forall|events: Seq<Map<Seq<char>, Json>>|
                upcast::value_views(picked@) == #[trigger] as_values(events) ==> read_through(
                    self.steps(),
                    events,
                    read,
                ),
    {
        let ghost given = upcast::value_views(picked@);
        let moved = upcast::apply_chain(self.chain.as_slice(), picked);
        let ghost out = upcast::value_views(moved@);
        let read = upcast::currents(moved);
        proof {
            assert forall|events: Seq<Map<Seq<char>, Json>>| given == #[trigger] as_values(
                events,
            ) implies read_through(self.steps(), events, read) by {
                assert(upcast::upcasts(self.steps(), as_values(events), out));
            }
        }
        read
    }

    /// Reads back through the chain, in `seq` order, filtered by the stored
    /// kind and sequence number.
    fn project(&self, kinds: Option<&[&str]>, from_seq: u64, limit: usize) -> (read: Result<
        Vec<Current>,
        Error,
    >)
        ensures
            read_through(
                self.steps(),
                selected(self.stored(), kind_views(kinds), from_seq, limit as nat),
                read,
            ),
    {
        proof {
            use_type_invariant(self);
        }
        let ghost all = self.stored();
        let ghost wanted = kind_views(kinds);
        let mut picked: Vec<Value> = Vec::new();
        let mut i: usize = 0;
        proof {
            assert(all.take(0) =~= Seq::<Map<Seq<char>, Json>>::empty());
            assert(upcast::value_views(picked@) =~= as_values(
                selected(all.take(0), wanted, from_seq, limit as nat),
            ));
        }
        while i < self.events.len()
            invariant
                all == self.stored(),
                all == object_views(self.events@),
                wanted == kind_views(kinds),
                numbered(all),
                i <= self.events@.len(),
                upcast::value_views(picked@) == as_values(
                    selected(all.take(i as int), wanted, from_seq, limit as nat),
                ),
            decreases self.events@.len() - i,
        {
            proof {
                assert(all.take(i + 1).drop_last() =~= all.take(i as int));
                assert(all.take(i + 1).last() == all[i as int]);
                assert(event::has_u64(all[i as int], FIELD_SEQ@));
                assert(upcast::current_refusal(Json::Object(all[i as int])) is None);
            }
            let ghost before = selected(all.take(i as int), wanted, from_seq, limit as nat);
            proof {
                assert(as_values(before).len() == before.len());
                assert(upcast::value_views(picked@).len() == picked@.len());
            }
            let event = &self.events[i];
            let in_kinds = match kinds {
                None => true,
                Some(kinds) => match stored_kind(event) {
                    Some(kind) => text::listed(kind, kinds),
                    None => false,
                },
            };
            if picked.len() < limit && stored_seq(event) >= from_seq && in_kinds {
                let ghost had = upcast::value_views(picked@);
                let copy = event.clone();
                picked.push(Value::Object(copy));
                proof {
                    assert(upcast::value_views(picked@) =~= had.push(
                        Json::Object(all[i as int]),
                    ));
                    assert(as_values(before.push(all[i as int])) =~= as_values(before).push(
                        Json::Object(all[i as int]),
                    ));
                }
            }
            i += 1;
        }
        proof {
            assert(all.take(i as int) =~= all);
        }
        self.read_out(picked)
    }

    /// Stamps an event with `epoch_ms` and records it.
    fn record(&mut self, event: Object, epoch_ms: u64) -> (result: Result<Committed, Error>)
        requires
            old(self).stored().len() < u64::MAX,
        ensures
            final(self).stream() == old(self).stream(),
            final(self).steps() == old(self).steps(),
            result is Ok <==> event::envelope_refusal(event@) is None,
            result is Ok ==> {
                &&& result->Ok_0 == (Committed {
                    seq: (old(self).stored().len() + 1) as u64,
                    epoch_ms,
                    position: None,
                })
                &&& final(self).stored() == old(self).stored().push(
                    event::stamped(event@, (old(self).stored().len() + 1) as u64, epoch_ms),
                )
            },
            result is Err ==> {
                &&& result->Err_0@ == Failure::Validation(event::envelope_refusal(event@)->0)
                &&& final(self).stored() == old(self).stored()
            },
    {
        proof {
            use_type_invariant(&*self);
        }
        let ghost was = object_views(self.events@);
        let ghost given = event@;
        let seq: u64 = self.events.len() as u64 + 1;
        let stamped = match event::stamp(event, seq, epoch_ms) {
            Ok(stamped) => stamped,
            Err(error) => {
                return Err(error);
            },
        };
        let mut events: Vec<Object> = Vec::new();
        std::mem::swap(&mut self.events, &mut events);
        events.push(stamped);
        proof {
            let now = object_views(events@);
            let fresh = event::stamped(given, seq, epoch_ms);
            assert(now =~= was.push(fresh));
            stamped_is_current(given, seq, epoch_ms);
            assert forall|i: int| 0 <= i < now.len() implies {
                &&& event::has_u64(#[trigger] now[i], FIELD_SEQ@)
                &&& seq_of(now[i]) == i + 1
                &&& upcast::current_refusal(Json::Object(now[i])) is None
            } by {
                if i < was.len() {
                    assert(now[i] == was[i]);
                    assert(event::has_u64(was[i], FIELD_SEQ@));
                } else {
                    assert(now[i] == fresh);
                }
            }
        }
        self.events = events;
        Ok(Committed { seq, epoch_ms, position: None })
    }
}

impl Default for MemEventStore {
    fn default() -> (store: Self)
        ensures
            store.stream() == Seq::<char>::empty(),
            store.stored() == Seq::<Map<Seq<char>, Json>>::empty(),
            store.steps() == Seq::<Arc<dyn Upcaster>>::empty(),
    {
        proof {
            reveal_strlit("");
            assert(""@ =~= Seq::<char>::empty());
        }
        MemEventStore::new("")
    }
}

/// Whether a write of one event left the stream as it should be: the event
/// stamped at the end of it and its coordinates handed back, or the stream as
/// it was and the refusal.
pub open spec fn wrote_one(
    before: Seq<Map<Seq<char>, Json>>,
    after: Seq<Map<Seq<char>, Json>>,
    event: Map<Seq<char>, Json>,
    result: Result<Committed, Error>,
) -> bool {
    match event::envelope_refusal(event) {
        None => {
            &&& result is Ok
            &&& result->Ok_0.seq == before.len() + 1
            &&& result->Ok_0.position is None
            &&& event::read_off_the_clock(result->Ok_0.epoch_ms)
            &&& after == before.push(
                event::stamped(event, result->Ok_0.seq, result->Ok_0.epoch_ms),
            )
        },
        Some(message) => {
            &&& result is Err
            &&& result->Err_0@ == Failure::Validation(message)
            &&& after == before
        },
    }
}

/// Whether a write on a decision left the stream as it should be, given what
/// the decision answered.
pub open spec fn wrote_decided(
    before: Seq<Map<Seq<char>, Json>>,
    after: Seq<Map<Seq<char>, Json>>,
    choice: Option<Object>,
    result: Result<Option<Committed>, Error>,
) -> bool {
    match choice {
        None => result is Ok && result->Ok_0 is None && after == before,
        Some(event) => match event::envelope_refusal(event@) {
            None => {
                &&& result is Ok
                &&& result->Ok_0 is Some
                &&& result->Ok_0->0.seq == before.len() + 1
                &&& result->Ok_0->0.position is None
                &&& event::read_off_the_clock(result->Ok_0->0.epoch_ms)
                &&& after == before.push(
                    event::stamped(
                        event@,
                        result->Ok_0->0.seq,
                        result->Ok_0->0.epoch_ms,
                    ),
                )
            },
            Some(message) => {
                &&& result is Err
                &&& result->Err_0@ == Failure::Validation(message)
                &&& after == before
            },
        },
    }
}

/// Whether a write on a decision went as it should: the events of `kinds` are
/// read through the chain and shown to the decision, and what it answers is
/// written. A read that fails is the failure of the write.
pub open spec fn decided<F: FnOnce(&[Current]) -> Option<Object>>(
    chain: Seq<Arc<dyn Upcaster>>,
    before: Seq<Map<Seq<char>, Json>>,
    after: Seq<Map<Seq<char>, Json>>,
    kinds: Option<Seq<Seq<char>>>,
    decide: F,
    result: Result<Option<Committed>, Error>,
) -> bool {
    exists|read: Result<Vec<Current>, Error>|
        #[trigger] read_through(chain, selected(before, kinds, 0, usize::MAX as nat), read)
            && match read {
            Err(error) => result is Err && result->Err_0@ == error@ && after == before,
            Ok(events) => exists|seen: &[Current], choice: Option<Object>|
                seen@ == events@ && #[trigger] call_ensures(decide, (seen,), choice)
                    && wrote_decided(before, after, choice, result),
        }
}

impl MemEventStore {
    /// Validates, stamps and appends an event, returning its coordinates.
    ///
    /// A refused event leaves no trace and consumes no sequence number.
    pub fn append(&mut self, event: Object) -> (result: Result<Committed, Error>)
        requires
            old(self).stored().len() < u64::MAX,
        ensures
            final(self).stream() == old(self).stream(),
            final(self).steps() == old(self).steps(),
            wrote_one(old(self).stored(), final(self).stored(), event@, result),
            result is Ok ==> exists|elapsed: Option<u128>| #[trigger]
                event::clock_gave(elapsed) && result->Ok_0.epoch_ms == event::coordinate(elapsed),
    {
        let epoch_ms = event::now_ms();
        self.record(event, epoch_ms)
    }

    /// Appends `events` in the order given, as one write: every event is
    /// validated before any is recorded, so a refused batch leaves no trace.
    pub fn append_many(&mut self, events: Vec<Object>) -> (result: Result<Vec<Committed>, Error>)
        requires
            old(self).stored().len() + events@.len() <= u64::MAX,
        ensures
            final(self).stream() == old(self).stream(),
            final(self).steps() == old(self).steps(),
            result is Ok <==> batch_refusal(object_views(events@)) is None,
            result is Ok ==> {
                &&& result->Ok_0@.len() == events@.len()
                &&& final(self).stored() == old(self).stored() + stamped_run(
                    object_views(events@),
                    old(self).stored().len(),
                    result->Ok_0@,
                )
                &&& forall|i: int|
                    0 <= i < events@.len() ==> (#[trigger] result->Ok_0@[i]).seq == old(
                        self,
                    ).stored().len() + i + 1 && result->Ok_0@[i].position is None
                        && event::read_off_the_clock(result->Ok_0@[i].epoch_ms)
            },
            result is Err ==> {
                &&& result->Err_0@ == Failure::Validation(
                    batch_refusal(object_views(events@))->0,
                )
                &&& final(self).stored() == old(self).stored()
            },
    {
        let ghost given = events@;
        let ghost all = object_views(given);
        let ghost was = self.stored();
        let ghost name = self.stream();
        let ghost steps = self.steps();
        let mut i: usize = 0;
        proof {
            assert(all.take(0) =~= Seq::<Map<Seq<char>, Json>>::empty());
        }
        while i < events.len()
            invariant
                events@ == given,
                all == object_views(given),
                i <= events@.len(),
                self.stored() == was,
                self.stream() == name,
                self.steps() == steps,
                was == old(self).stored(),
                name == old(self).stream(),
                steps == old(self).steps(),
                batch_refusal(all.take(i as int)) is None,
                forall|j: int|
                    0 <= j < i ==> event::envelope_refusal(#[trigger] all[j]) is None,
            decreases events@.len() - i,
        {
            proof {
                assert(all.take(i + 1).drop_last() =~= all.take(i as int));
                assert(all.take(i + 1).last() == all[i as int]);
            }
            match event::validate(&events[i]) {
                Ok(()) => {},
                Err(error) => {
                    proof {
                        refusal_stays(all, i + 1);
                    }
                    return Err(error);
                },
            }
            i += 1;
        }
        proof {
            assert(all.take(all.len() as int) =~= all);
        }
        let mut committed: Vec<Committed> = Vec::new();
        proof {
            assert(was + stamped_run(all.take(0), was.len(), committed@) =~= was);
        }
        for event in it: events
            invariant
                it.seq() == given,
                all == object_views(given),
                was.len() + given.len() <= u64::MAX,
                self.stream() == name,
                self.steps() == steps,
                committed@.len() == it.index(),
                self.stored() == was + stamped_run(
                    all.take(it.index() as int),
                    was.len(),
                    committed@,
                ),
                forall|j: int|
                    0 <= j < given.len() ==> event::envelope_refusal(#[trigger] all[j]) is None,
                forall|j: int|
                    0 <= j < it.index() ==> (#[trigger] committed@[j]).seq == was.len() + j + 1
                        && committed@[j].position is None && event::read_off_the_clock(
                        committed@[j].epoch_ms,
                    ),
        {
            let ghost k = it.index() as int;
            let ghost done = committed@;
            proof {
                assert(all[k] == event@);
            }
            match self.append(event) {
                Ok(one) => {
                    committed.push(one);
                    proof {
                        let run = stamped_run(all.take(k), was.len(), done);
                        let next = stamped_run(all.take(k + 1), was.len(), committed@);
                        assert forall|j: int| 0 <= j < next.len() implies next[j] == run.push(
                            event::stamped(all[k], one.seq, one.epoch_ms),
                        )[j] by {
                            if j < k {
                                assert(committed@[j] == done[j]);
                            }
                        }
                        assert(next =~= run.push(
                            event::stamped(all[k], one.seq, one.epoch_ms),
                        ));
                        assert(was + next =~= (was + run).push(
                            event::stamped(all[k], one.seq, one.epoch_ms),
                        ));
                    }
                },
                Err(error) => {
                    return Err(error);
                },
            }
        }
        Ok(committed)
    }

    /// Reads the stream, asks `decide` what to write, and appends its answer.
    ///
    /// `kinds` filters what the decision is shown; what it writes is
    /// unfiltered. `None` records nothing and leaves the stream untouched.
    pub fn append_if<F: FnOnce(&[Current]) -> Option<Object>>(
        &mut self,
        kinds: Option<&[&str]>,
        decide: F,
    ) -> (result: Result<Option<Committed>, Error>)
        requires
            old(self).stored().len() < u64::MAX,
            forall|seen: &[Current]| #[trigger] call_requires(decide, (seen,)),
        ensures
            final(self).stream() == old(self).stream(),
            final(self).steps() == old(self).steps(),
            decided(
                old(self).steps(),
                old(self).stored(),
                final(self).stored(),
                kind_views(kinds),
                decide,
                result,
            ),
            result matches Ok(Some(committed)) ==> event::read_off_the_clock(committed.epoch_ms),
    {
        let ghost was = self.stored();
        let read = self.project(kinds, 0, usize::MAX);
        let ghost answer = read;
        let seen = match read {
            Ok(seen) => seen,
            Err(error) => {
                proof {
                    assert(read_through(
                        self.steps(),
                        selected(was, kind_views(kinds), 0, usize::MAX as nat),
                        answer,
                    ));
                }
                return Err(error);
            },
        };
        let shown: &[Current] = seen.as_slice();
        let choice = decide(shown);
        let ghost chosen = choice;
        match choice {
            None => {
                proof {
                    assert(shown@ == answer->Ok_0@);
                    assert(call_ensures(decide, (shown,), chosen));
                }
                Ok(None)
            },
            Some(event) => {
                let result = match self.append(event) {
                    Ok(committed) => Ok(Some(committed)),
                    Err(error) => Err(error),
                };
                proof {
                    assert(shown@ == answer->Ok_0@);
                    assert(call_ensures(decide, (shown,), chosen));
                    assert(wrote_decided(was, self.stored(), chosen, result));
                }
                result
            },
        }
    }

    /// Events of `kinds` with `seq >= from_seq`, at most `limit`, in `seq`
    /// order and already upcasted.
    ///
    /// `None` reads every kind and an empty list selects nothing. The kind
    /// selected on is the stored one. With no upcaster registered the read
    /// succeeds and gives back what is stored.
    pub fn read_kinds(&self, kinds: Option<&[&str]>, from_seq: u64, limit: usize) -> (read: Result<
        Vec<Current>,
        Error,
    >)
        ensures
            read_through(
                self.steps(),
                selected(self.stored(), kind_views(kinds), from_seq, limit as nat),
                read,
            ),
            self.steps().len() == 0 ==> read is Ok && upcast::current_views(read->Ok_0@)
                == selected(self.stored(), kind_views(kinds), from_seq, limit as nat),
    {
        proof {
            use_type_invariant(self);
        }
        let read = self.project(kinds, from_seq, limit);
        proof {
            if self.steps().len() == 0 {
                selected_are_of_the_stream(
                    self.stored(),
                    kind_views(kinds),
                    from_seq,
                    limit as nat,
                );
                plain_read(
                    self.steps(),
                    self.stored(),
                    selected(self.stored(), kind_views(kinds), from_seq, limit as nat),
                    read,
                );
            }
        }
        read
    }

    /// Every event with `seq >= from_seq`, at most `limit`.
    pub fn read(&self, from_seq: u64, limit: usize) -> (read: Result<Vec<Current>, Error>)
        ensures
            read_through(
                self.steps(),
                selected(self.stored(), None, from_seq, limit as nat),
                read,
            ),
            self.steps().len() == 0 ==> read is Ok && upcast::current_views(read->Ok_0@)
                == selected(self.stored(), None, from_seq, limit as nat),
    {
        self.read_kinds(None, from_seq, limit)
    }

    /// The last `n` events, in `seq` order.
    pub fn read_last(&self, n: usize) -> (read: Result<Vec<Current>, Error>)
        ensures
            read_through(self.steps(), tail(self.stored(), n as nat), read),
            self.steps().len() == 0 ==> read is Ok && upcast::current_views(read->Ok_0@) == tail(
                self.stored(),
                n as nat,
            ),
    {
        proof {
            use_type_invariant(self);
        }
        let count: usize = self.events.len();
        let from: usize = if n >= count {
            0
        } else {
            count - n
        };
        let ghost all = self.stored();
        let ghost last = tail(all, n as nat);
        let mut picked: Vec<Value> = Vec::new();
        let mut i: usize = from;
        while i < count
            invariant
                count == self.events@.len(),
                all == object_views(self.events@),
                from <= i <= count,
                last == all.skip(from as int),
                picked@.len() == i - from,
                forall|j: int|
                    0 <= j < picked@.len() ==> (#[trigger] picked@[j])@ == Json::Object(last[j]),
            decreases count - i,
        {
            let copy = self.events[i].clone();
            picked.push(Value::Object(copy));
            i += 1;
        }
        proof {
            assert(last =~= all.skip(from as int));
            assert(upcast::value_views(picked@) =~= as_values(last));
        }
        let read = self.read_out(picked);
        proof {
            if self.steps().len() == 0 {
                assert forall|j: int| 0 <= j < last.len() implies all.contains(
                    #[trigger] last[j],
                ) by {
                    assert(all[from + j] == last[j]);
                }
                plain_read(self.steps(), all, last, read);
            }
        }
        read
    }

    /// The highest `seq`, or `None` for an empty stream.
    pub fn head(&self) -> (head: Option<u64>)
        ensures
            self.stored().len() == 0 ==> head is None,
            self.stored().len() > 0 ==> head is Some && head->0 == self.stored().len(),
    {
        proof {
            use_type_invariant(self);
        }
        let count: usize = self.events.len();
        if count == 0 {
            None
        } else {
            proof {
                assert(object_views(self.events@)[count - 1] == self.events@[count - 1]@);
                assert(event::has_u64(object_views(self.events@)[count - 1], FIELD_SEQ@));
            }
            Some(stored_seq(&self.events[count - 1]))
        }
    }

    /// Number of recorded events.
    pub fn len(&self) -> (count: usize)
        ensures
            count == self.stored().len(),
            numbered(self.stored()),
    {
        proof {
            use_type_invariant(self);
        }
        self.events.len()
    }

    /// Whether nothing has been recorded yet.
    pub fn is_empty(&self) -> (empty: bool)
        ensures
            empty == (self.stored().len() == 0),
    {
        self.head().is_none()
    }
}

/// The first refusal among some events is the refusal of the batch.
pub proof fn refusal_stays(events: Seq<Map<Seq<char>, Json>>, n: int)
    requires
        0 <= n <= events.len(),
        batch_refusal(events.take(n)) is Some,
    ensures
        batch_refusal(events) == batch_refusal(events.take(n)),
    decreases events.len() - n,
{
    if n == events.len() {
        assert(events.take(n) =~= events);
    } else {
        assert(events.take(n + 1).drop_last() =~= events.take(n));
        refusal_stays(events, n + 1);
    }
}

/// With no upcaster registered, a read gives back the events as they are
/// stored.
proof fn plain_read(
    chain: Seq<Arc<dyn Upcaster>>,
    stored: Seq<Map<Seq<char>, Json>>,
    picked: Seq<Map<Seq<char>, Json>>,
    read: Result<Vec<Current>, Error>,
)
    requires
        chain.len() == 0,
        numbered(stored),
        forall|i: int| 0 <= i < picked.len() ==> stored.contains(#[trigger] picked[i]),
        read_through(chain, picked, read),
    ensures
        read is Ok,
        upcast::current_views(read->Ok_0@) == picked,
{
    let moved = choose|moved: Seq<Json>| #[trigger]
        upcast::upcasts(chain, as_values(picked), moved) && upcast::answers(
            read,
            upcast::read_back(moved),
        );
    assert(chain =~= Seq::<Arc<dyn Upcaster>>::empty());
    upcast::empty_chain_is_identity(as_values(picked), moved);
    assert forall|i: int| 0 <= i < picked.len() implies upcast::current_refusal(
        Json::Object(#[trigger] picked[i]),
    ) is None by {
        assert(stored.contains(picked[i]));
        let j = choose|j: int| 0 <= j < stored.len() && stored[j] == picked[i];
        assert(event::has_u64(stored[j], FIELD_SEQ@));
    }
    readable_reads_back(picked);
}

/// A stream is numbered from 1 without a gap, and a write carries the
/// numbering on: the event it recorded is the next one, and a refused write
/// consumes no number.
pub proof fn writes_carry_on_the_numbering(
    before: Seq<Map<Seq<char>, Json>>,
    after: Seq<Map<Seq<char>, Json>>,
    event: Map<Seq<char>, Json>,
    result: Result<Committed, Error>,
)
    requires
        numbered(before),
        event.dom().finite(),
        wrote_one(before, after, event, result),
    ensures
        numbered(after),
        result is Ok ==> after.len() == before.len() + 1 && seq_of(after.last()) == result->Ok_0.seq
            && result->Ok_0.seq == before.len() + 1,
        result is Err ==> after == before,
        before.is_prefix_of(after),
{
    assert(before =~= after.take(before.len() as int));
    if result is Ok {
        let fresh = after.last();
        stamped_is_current(event, result->Ok_0.seq, result->Ok_0.epoch_ms);
        assert forall|i: int| 0 <= i < after.len() implies {
            &&& event::has_u64(#[trigger] after[i], FIELD_SEQ@)
            &&& seq_of(after[i]) == i + 1
            &&& upcast::current_refusal(Json::Object(after[i])) is None
        } by {
            if i < before.len() {
                assert(after[i] == before[i]);
                assert(event::has_u64(before[i], FIELD_SEQ@));
            } else {
                assert(after[i] == fresh);
            }
        }
    }
}

/// A read of every kind from a sequence number takes the stream from there,
/// up to the limit.
pub proof fn reading_from(events: Seq<Map<Seq<char>, Json>>, from_seq: u64, limit: nat)
    requires
        numbered(events),
    ensures
        ({
            let skipped = if from_seq <= 1 {
                0
            } else if from_seq - 1 >= events.len() {
                events.len() as int
            } else {
                from_seq - 1
            };
            let rest = events.skip(skipped);
            selected(events, None, from_seq, limit) == (if rest.len() <= limit {
                rest
            } else {
                rest.take(limit as int)
            })
        }),
    decreases events.len(),
{
    if events.len() == 0 {
        assert(events.skip(0) =~= Seq::<Map<Seq<char>, Json>>::empty());
    } else {
        let front = events.drop_last();
        assert(numbered(front)) by {
            assert forall|i: int| 0 <= i < front.len() implies {
                &&& event::has_u64(#[trigger] front[i], FIELD_SEQ@)
                &&& seq_of(front[i]) == i + 1
                &&& upcast::current_refusal(Json::Object(front[i])) is None
            } by {
                assert(front[i] == events[i]);
                assert(event::has_u64(events[i], FIELD_SEQ@));
            }
        }
        reading_from(front, from_seq, limit);
        assert(event::has_u64(events[events.len() - 1], FIELD_SEQ@));
        assert(seq_of(events.last()) == events.len());
        let skipped = if from_seq <= 1 {
            0
        } else if from_seq - 1 >= events.len() {
            events.len() as int
        } else {
            from_seq - 1
        };
        let rest = events.skip(skipped);
        let want = if rest.len() <= limit {
            rest
        } else {
            rest.take(limit as int)
        };
        assert(selected(events, None, from_seq, limit) =~= want);
    }
}

/// What was written is what is read back: with the whole stream asked for, a
/// read takes every event, in order; and asked for from the number a write
/// reported, it takes the event that was written.
pub proof fn what_was_written_is_read_back(
    before: Seq<Map<Seq<char>, Json>>,
    after: Seq<Map<Seq<char>, Json>>,
    event: Map<Seq<char>, Json>,
    result: Result<Committed, Error>,
    limit: nat,
)
    requires
        numbered(before),
        event.dom().finite(),
        wrote_one(before, after, event, result),
        result is Ok,
        limit >= after.len(),
    ensures
        selected(after, None, 0, limit) == after,
        selected(after, None, result->Ok_0.seq, limit) == seq![
            event::stamped(event, result->Ok_0.seq, result->Ok_0.epoch_ms),
        ],
{
    writes_carry_on_the_numbering(before, after, event, result);
    reading_from(after, 0, limit);
    assert(after.skip(0) =~= after);
    reading_from(after, result->Ok_0.seq, limit);
    assert(after.skip(before.len() as int) =~= seq![after.last()]);
}

/// Two reads of the same events answer the same, where every step of the
/// chain has one answer for one event.
pub proof fn settled_reads_agree(
    chain: Seq<Arc<dyn Upcaster>>,
    picked: Seq<Map<Seq<char>, Json>>,
    one: Result<Vec<Current>, Error>,
    other: Result<Vec<Current>, Error>,
)
    requires
        upcast::settled(chain),
        read_through(chain, picked, one),
        read_through(chain, picked, other),
    ensures
        one is Ok <==> other is Ok,
        one is Ok ==> upcast::current_views(one->Ok_0@) == upcast::current_views(other->Ok_0@),
        one is Err ==> one->Err_0@ == other->Err_0@,
{
    let a = choose|moved: Seq<Json>| #[trigger]
        upcast::upcasts(chain, as_values(picked), moved) && upcast::answers(
            one,
            upcast::read_back(moved),
        );
    let b = choose|moved: Seq<Json>| #[trigger]
        upcast::upcasts(chain, as_values(picked), moved) && upcast::answers(
            other,
            upcast::read_back(moved),
        );
    assert forall|i: int| 0 <= i < a.len() implies a[i] == b[i] by {
        upcast::settled_chains_have_one_answer(chain, as_values(picked)[i], a[i], b[i]);
    }
    assert(a =~= b);
}

/// The last events are the tail of all of them: where every step of the chain
/// has one answer for one event, and the whole stream reads, the last `n` are
/// read and are the last `n` of the whole read, in the same order.
pub proof fn the_last_are_the_tail_of_all(
    chain: Seq<Arc<dyn Upcaster>>,
    events: Seq<Map<Seq<char>, Json>>,
    n: nat,
    whole: Result<Vec<Current>, Error>,
    last: Result<Vec<Current>, Error>,
)
    requires
        upcast::settled(chain),
        numbered(events),
        events.len() <= usize::MAX,
        read_through(chain, selected(events, None, 0, usize::MAX as nat), whole),
        read_through(chain, tail(events, n), last),
        whole is Ok,
    ensures
        last is Ok,
        upcast::current_views(last->Ok_0@) == tail(upcast::current_views(whole->Ok_0@), n),
        ({
            let all = upcast::current_views(whole->Ok_0@);
            let from = if n >= all.len() {
                0
            } else {
                all.len() - n
            };
            upcast::current_views(last->Ok_0@) == all.subrange(from, all.len() as int)
        }),
{
    reading_from(events, 0, usize::MAX as nat);
    assert(events.skip(0) =~= events);
    let a = choose|moved: Seq<Json>| #[trigger]
        upcast::upcasts(chain, as_values(events), moved) && upcast::answers(
            whole,
            upcast::read_back(moved),
        );
    let b = choose|moved: Seq<Json>| #[trigger]
        upcast::upcasts(chain, as_values(tail(events, n)), moved) && upcast::answers(
            last,
            upcast::read_back(moved),
        );
    let from = if n >= events.len() {
        0
    } else {
        events.len() - n
    };
    assert forall|i: int| 0 <= i < b.len() implies b[i] == #[trigger] a[from + i] by {
        assert(as_values(tail(events, n))[i] == as_values(events)[from + i]);
        upcast::settled_chains_have_one_answer(
            chain,
            as_values(events)[from + i],
            a[from + i],
            b[i],
        );
    }
    upcast::reads_are_whole(a);
    upcast::reads_are_whole(b);
    assert forall|i: int| 0 <= i < b.len() implies upcast::current_refusal(
        #[trigger] b[i],
    ) is None by {
        assert(upcast::current_refusal(a[from + i]) is None);
    }
    let all = upcast::current_views(whole->Ok_0@);
    let few = upcast::current_views(last->Ok_0@);
    assert forall|i: int| 0 <= i < few.len() implies few[i] == #[trigger] tail(all, n)[i] by {
        assert(Json::Object(upcast::read_back(b)->Ok_0[i]) == b[i]);
        assert(Json::Object(upcast::read_back(a)->Ok_0[from + i]) == a[from + i]);
    }
    assert(few =~= tail(all, n));
    assert(few =~= all.subrange(from, all.len() as int));
}

/// Deciding is reading and then appending: where every step of the chain has
/// one answer for one event, the decision is shown what a read of the same
/// kinds gives. Without an answer nothing is written; an answer is written as
/// an append of it would be, with the same outcome.
pub proof fn deciding_is_reading_and_appending<F: FnOnce(&[Current]) -> Option<Object>>(
    chain: Seq<Arc<dyn Upcaster>>,
    before: Seq<Map<Seq<char>, Json>>,
    after: Seq<Map<Seq<char>, Json>>,
    kinds: Option<Seq<Seq<char>>>,
    decide: F,
    result: Result<Option<Committed>, Error>,
    read: Result<Vec<Current>, Error>,
)
    requires
        upcast::settled(chain),
        decided(chain, before, after, kinds, decide, result),
        read_through(chain, selected(before, kinds, 0, usize::MAX as nat), read),
        read is Ok,
    ensures
        exists|seen: &[Current], choice: Option<Object>|
            #[trigger] call_ensures(decide, (seen,), choice) && upcast::current_views(seen@)
                == upcast::current_views(read->Ok_0@) && match choice {
                None => result is Ok && result->Ok_0 is None && after == before,
                Some(event) => exists|one: Result<Committed, Error>|
                    #[trigger] wrote_one(before, after, event@, one) && match one {
                        Ok(committed) => result is Ok && result->Ok_0 == Some(committed),
                        Err(error) => result is Err && result->Err_0@ == error@,
                    },
            },
{
    let shown = choose|shown: Result<Vec<Current>, Error>|
        #[trigger] read_through(chain, selected(before, kinds, 0, usize::MAX as nat), shown)
            && match shown {
            Err(error) => result is Err && result->Err_0@ == error@ && after == before,
            Ok(events) => exists|seen: &[Current], choice: Option<Object>|
                seen@ == events@ && #[trigger] call_ensures(decide, (seen,), choice)
                    && wrote_decided(before, after, choice, result),
        };
    settled_reads_agree(chain, selected(before, kinds, 0, usize::MAX as nat), shown, read);
    let (seen, choice) = choose|seen: &[Current], choice: Option<Object>|
        seen@ == shown->Ok_0@ && #[trigger] call_ensures(decide, (seen,), choice)
            && wrote_decided(before, after, choice, result);
    if choice is Some {
        let one: Result<Committed, Error> = match result {
            Ok(committed) => Ok(committed->0),
            Err(error) => Err(error),
        };
        assert(wrote_one(before, after, choice->0@, one));
    }
    assert(call_ensures(decide, (seen,), choice));
}

/// Whether a read of these kinds from this number asks for an event.
spec fn asked_for(
    event: Map<Seq<char>, Json>,
    kinds: Option<Seq<Seq<char>>>,
    from_seq: u64,
    seq: int,
) -> bool {
    &&& seq >= from_seq
    &&& kinds is Some ==> exists|k: int|
        0 <= k < kinds->0.len() && event["kind"@] == Json::String(#[trigger] kinds->0[k])
}

proof fn takes_what_is_asked_for(
    events: Seq<Map<Seq<char>, Json>>,
    kinds: Option<Seq<Seq<char>>>,
    from_seq: u64,
    i: int,
)
    requires
        numbered(events),
        0 <= i < events.len(),
    ensures
        taken(events[i], kinds, from_seq) <==> asked_for(events[i], kinds, from_seq, i + 1),
        events[i]["seq"@] == Json::Number(crate::json::Number::PosInt((i + 1) as u64)),
{
    assert(event::has_u64(events[i], FIELD_SEQ@));
    if kinds is Some && taken(events[i], kinds, from_seq) {
        let k = choose|k: int|
            0 <= k < kinds->0.len() && kinds->0[k] == events[i][FIELD_KIND@]->String_0;
        assert(events[i]["kind"@] == Json::String(kinds->0[k]));
    }
    if kinds is Some && asked_for(events[i], kinds, from_seq, i + 1) {
        let k = choose|k: int|
            0 <= k < kinds->0.len() && events[i]["kind"@] == Json::String(#[trigger] kinds->0[k]);
        assert(kinds->0.contains(kinds->0[k]));
    }
}

/// What a read takes, without a limit that binds, is the events it asks for,
/// each once and in stream order: an event of the stream is in the answer
/// exactly when its number is `from_seq` or later and its stored kind is one of
/// the kinds named, wherever in the list that kind stands.
pub proof fn reads_take_every_event_asked_for(
    events: Seq<Map<Seq<char>, Json>>,
    kinds: Option<Seq<Seq<char>>>,
    from_seq: u64,
    limit: nat,
)
    requires
        numbered(events),
        limit >= events.len(),
    ensures
        ({
            let answer = selected(events, kinds, from_seq, limit);
            &&& forall|i: int|
                #![trigger events[i]]
                0 <= i < events.len() ==> (answer.contains(events[i]) <==> {
                    &&& i + 1 >= from_seq
                    &&& kinds is Some ==> exists|k: int|
                        0 <= k < kinds->0.len() && events[i]["kind"@] == Json::String(
                            #[trigger] kinds->0[k],
                        )
                })
            &&& forall|j: int|
                0 <= j < answer.len() ==> events.contains(#[trigger] answer[j])
            &&& forall|j: int, k: int|
                0 <= j < k < answer.len() ==> (#[trigger] answer[j])["seq"@]->Number_0->PosInt_0 < (
                #[trigger] answer[k])["seq"@]->Number_0->PosInt_0
        }),
    decreases events.len(),
{
    let answer = selected(events, kinds, from_seq, limit);
    if events.len() > 0 {
        let front = events.drop_last();
        let last = events.len() - 1;
        assert(numbered(front)) by {
            assert forall|i: int| 0 <= i < front.len() implies {
                &&& event::has_u64(#[trigger] front[i], FIELD_SEQ@)
                &&& seq_of(front[i]) == i + 1
                &&& upcast::current_refusal(Json::Object(front[i])) is None
            } by {
                assert(front[i] == events[i]);
                assert(event::has_u64(events[i], FIELD_SEQ@));
            }
        }
        reads_take_every_event_asked_for(front, kinds, from_seq, limit);
        selected_are_of_the_stream(front, kinds, from_seq, limit);
        let before = selected(front, kinds, from_seq, limit);
        at_most_all(front, kinds, from_seq, limit);
        takes_what_is_asked_for(events, kinds, from_seq, last);
        assert forall|j: int| 0 <= j < before.len() implies (#[trigger] before[j])[
            "seq"@
        ]->Number_0->PosInt_0 <= last && before[j]["seq"@] is Number && before[j][
            "seq"@
        ]->Number_0 is PosInt by {
            assert(front.contains(before[j]));
            let k = choose|k: int| 0 <= k < front.len() && front[k] == before[j];
            takes_what_is_asked_for(events, kinds, from_seq, k);
        }
        assert forall|i: int| #![trigger events[i]] 0 <= i < events.len() implies (answer.contains(
            events[i],
        ) <==> {
            &&& i + 1 >= from_seq
            &&& kinds is Some ==> exists|k: int|
                0 <= k < kinds->0.len() && events[i]["kind"@] == Json::String(
                    #[trigger] kinds->0[k],
                )
        }) by {
            takes_what_is_asked_for(events, kinds, from_seq, i);
            if i < last {
                assert(front[i] == events[i]);
                if before.contains(events[i]) {
                    let j = choose|j: int| 0 <= j < before.len() && before[j] == events[i];
                    assert(answer[j] == events[i]);
                }
                if answer.contains(events[i]) {
                    let j = choose|j: int| 0 <= j < answer.len() && answer[j] == events[i];
                    if j < before.len() {
                        assert(before[j] == events[i]);
                    }
                }
            } else {
                if answer.contains(events[i]) {
                    let j = choose|j: int| 0 <= j < answer.len() && answer[j] == events[i];
                    if j < before.len() {
                        assert(before[j] == events[i]);
                    }
                }
                if taken(events[i], kinds, from_seq) {
                    assert(answer[before.len() as int] == events[i]);
                }
            }
        }
        assert forall|j: int| 0 <= j < answer.len() implies events.contains(
            #[trigger] answer[j],
        ) by {
            if j < before.len() {
                assert(front.contains(before[j]));
                let k = choose|k: int| 0 <= k < front.len() && front[k] == before[j];
                assert(events[k] == answer[j]);
            } else {
                assert(events[last] == answer[j]);
            }
        }
        assert forall|j: int, k: int| 0 <= j < k < answer.len() implies (#[trigger] answer[j])[
            "seq"@
        ]->Number_0->PosInt_0 < (#[trigger] answer[k])["seq"@]->Number_0->PosInt_0 by {
            assert(answer[j] == before[j]);
            if k < before.len() {
                assert(answer[k] == before[k]);
            }
        }
    }
}

proof fn at_most_all(
    events: Seq<Map<Seq<char>, Json>>,
    kinds: Option<Seq<Seq<char>>>,
    from_seq: u64,
    limit: nat,
)
    ensures
        selected(events, kinds, from_seq, limit).len() <= events.len(),
    decreases events.len(),
{
    if events.len() > 0 {
        at_most_all(events.drop_last(), kinds, from_seq, limit);
    }
}

/// Naming more kinds never loses an event, and the order they are named in
/// does not matter: where each kind of one list is in the other, what a read
/// of the first takes a read of the second takes.
pub proof fn more_kinds_take_more(
    events: Seq<Map<Seq<char>, Json>>,
    fewer: Seq<Seq<char>>,
    more: Seq<Seq<char>>,
    from_seq: u64,
    limit: nat,
    i: int,
)
    requires
        numbered(events),
        limit >= events.len(),
        forall|k: int| 0 <= k < fewer.len() ==> more.contains(#[trigger] fewer[k]),
        0 <= i < events.len(),
        selected(events, Some(fewer), from_seq, limit).contains(events[i]),
    ensures
        selected(events, Some(more), from_seq, limit).contains(events[i]),
        selected(events, None, from_seq, limit).contains(events[i]),
{
    reads_take_every_event_asked_for(events, Some(fewer), from_seq, limit);
    reads_take_every_event_asked_for(events, Some(more), from_seq, limit);
    reads_take_every_event_asked_for(events, None, from_seq, limit);
    let k = choose|k: int|
        0 <= k < fewer.len() && events[i]["kind"@] == Json::String(#[trigger] fewer[k]);
    assert(more.contains(fewer[k]));
    let l = choose|l: int| 0 <= l < more.len() && more[l] == fewer[k];
    assert(events[i]["kind"@] == Json::String(more[l]));
}

/// The last `n` of a stream are its last `n`: all of it where there are no
/// more, and otherwise what stands in its last `n` places.
pub proof fn the_tail_is_the_end(events: Seq<Map<Seq<char>, Json>>, n: nat, i: int)
    ensures
        n >= events.len() ==> tail(events, n) == events,
        n < events.len() ==> tail(events, n).len() == n,
        n < events.len() && 0 <= i < n ==> tail(events, n)[i] == events[events.len() - n + i],
{
}

/// A batch is refused exactly when one of its events is, and for the reason of
/// the first that is.
pub proof fn batches_are_refused_for_the_first(events: Seq<Map<Seq<char>, Json>>)
    ensures
        batch_refusal(events) is None <==> forall|i: int|
            0 <= i < events.len() ==> event::envelope_refusal(#[trigger] events[i]) is None,
        batch_refusal(events) is Some ==> exists|i: int|
            0 <= i < events.len() && batch_refusal(events) == event::envelope_refusal(
                #[trigger] events[i],
            ) && forall|j: int|
                0 <= j < i ==> event::envelope_refusal(#[trigger] events[j]) is None,
    decreases events.len(),
{
    if events.len() > 0 {
        let front = events.drop_last();
        let last = events.len() - 1;
        batches_are_refused_for_the_first(front);
        if batch_refusal(front) is None {
            assert forall|i: int| 0 <= i < last implies event::envelope_refusal(
                #[trigger] events[i],
            ) is None by {
                assert(front[i] == events[i]);
            }
            if batch_refusal(events) is Some {
                assert(batch_refusal(events) == event::envelope_refusal(events[last]));
            } else {
                assert(event::envelope_refusal(events[last]) is None);
            }
        } else {
            let i = choose|i: int|
                0 <= i < front.len() && batch_refusal(front) == event::envelope_refusal(
                    #[trigger] front[i],
                ) && forall|j: int|
                    0 <= j < i ==> event::envelope_refusal(#[trigger] front[j]) is None;
            assert(events[i] == front[i]);
            assert forall|j: int| 0 <= j < i implies event::envelope_refusal(
                #[trigger] events[j],
            ) is None by {
                assert(front[j] == events[j]);
            }
        }
    }
}

/// An append adds its event, and nothing else: an acceptable event is the
/// stream's next one, with everything its author wrote, the number after the
/// last, and a time that was read off the clock, the same that is reported; and
/// an event that is refused changes nothing.
pub proof fn appends_add_the_event(
    before: Seq<Map<Seq<char>, Json>>,
    after: Seq<Map<Seq<char>, Json>>,
    event: Map<Seq<char>, Json>,
    result: Result<Committed, Error>,
    key: Seq<char>,
)
    requires
        before.len() < u64::MAX,
        event.dom().finite(),
        wrote_one(before, after, event, result),
    ensures
        result is Ok <==> event::envelope_refusal(event) is None,
        result is Err ==> after == before,
        result is Ok ==> {
            let fresh = after[before.len() as int];
            &&& after.len() == before.len() + 1
            &&& forall|i: int| 0 <= i < before.len() ==> #[trigger] after[i] == before[i]
            &&& event.contains_key(key) ==> fresh.contains_key(key) && fresh[key] == event[key]
            &&& result->Ok_0.seq == before.len() + 1
            &&& fresh["seq"@] == Json::Number(
                crate::json::Number::PosInt((before.len() + 1) as u64),
            )
            &&& fresh["epoch_ms"@] == Json::Number(
                crate::json::Number::PosInt(result->Ok_0.epoch_ms),
            )
            &&& result->Ok_0.position is None
            &&& exists|elapsed: Option<u128>| #[trigger]
                event::clock_gave(elapsed) && (elapsed is Some && elapsed->0 <= u64::MAX
                    ==> result->Ok_0.epoch_ms == elapsed->0) && (elapsed is None
                    ==> result->Ok_0.epoch_ms == 0)
        },
{
    if result is Ok {
        event::stamping_keeps_the_event(event, result->Ok_0.seq, result->Ok_0.epoch_ms, key);
        event::stamped_events_are_whole(event, result->Ok_0.seq, result->Ok_0.epoch_ms);
        let elapsed = choose|elapsed: Option<u128>| #[trigger]
            event::clock_gave(elapsed) && result->Ok_0.epoch_ms == event::coordinate(elapsed);
        event::coordinates_are_the_milliseconds(elapsed);
        assert(event::clock_gave(elapsed));
    }
}

/// What a batch adds is its events in the order given, numbered on from the
/// stream's last, each with the time the write reported for it and all its
/// author wrote.
pub proof fn batches_add_their_events(
    events: Seq<Map<Seq<char>, Json>>,
    start: nat,
    committed: Seq<Committed>,
    i: int,
    key: Seq<char>,
)
    requires
        start + events.len() <= u64::MAX,
        0 <= i < events.len(),
        events[i].dom().finite(),
        batch_refusal(events) is None,
    ensures
        stamped_run(events, start, committed).len() == events.len(),
        ({
            let fresh = stamped_run(events, start, committed)[i];
            &&& events[i].contains_key(key) ==> fresh.contains_key(key) && fresh[key]
                == events[i][key]
            &&& fresh["seq"@] == Json::Number(
                crate::json::Number::PosInt((start + i + 1) as u64),
            )
            &&& fresh["epoch_ms"@] == Json::Number(
                crate::json::Number::PosInt(committed[i].epoch_ms),
            )
        }),
{
    batches_are_refused_for_the_first(events);
    assert(event::envelope_refusal(events[i]) is None);
    event::stamping_keeps_the_event(
        events[i],
        (start + i + 1) as u64,
        committed[i].epoch_ms,
        key,
    );
    event::stamped_events_are_whole(events[i], (start + i + 1) as u64, committed[i].epoch_ms);
}

/// A decision that names no event writes nothing; one that names an event
/// writes it as an append of it does.
pub proof fn decisions_write_as_appends_do(
    before: Seq<Map<Seq<char>, Json>>,
    after: Seq<Map<Seq<char>, Json>>,
    choice: Option<Object>,
    result: Result<Option<Committed>, Error>,
)
    requires
        wrote_decided(before, after, choice, result),
    ensures
        choice is None ==> result is Ok && result->Ok_0 is None && after == before,
        choice is Some ==> (result is Ok <==> event::envelope_refusal(choice->0@) is None),
        choice is Some && result is Ok ==> result->Ok_0 is Some && wrote_one(
            before,
            after,
            choice->0@,
            Ok::<Committed, Error>(result->Ok_0->0),
        ),
        choice is Some && result is Err ==> after == before && wrote_one(
            before,
            after,
            choice->0@,
            Err::<Committed, Error>(result->Err_0),
        ),
{
}

/// The limit counts what comes back: a bounded read is the front of the
/// unbounded one.
pub proof fn limit_counts_what_came_back(
    events: Seq<Map<Seq<char>, Json>>,
    kinds: Option<Seq<Seq<char>>>,
    from_seq: u64,
    limit: nat,
)
    ensures
        selected(events, kinds, from_seq, limit) == (if selected(
            events,
            kinds,
            from_seq,
            events.len(),
        ).len() <= limit {
            selected(events, kinds, from_seq, events.len())
        } else {
            selected(events, kinds, from_seq, events.len()).take(limit as int)
        }),
{
    limit_takes_the_front(events, kinds, from_seq, limit, events.len());
}

proof fn limit_takes_the_front(
    events: Seq<Map<Seq<char>, Json>>,
    kinds: Option<Seq<Seq<char>>>,
    from_seq: u64,
    limit: nat,
    wide: nat,
)
    requires
        events.len() <= wide,
    ensures
        selected(events, kinds, from_seq, wide).len() <= events.len(),
        selected(events, kinds, from_seq, limit) == (if selected(
            events,
            kinds,
            from_seq,
            wide,
        ).len() <= limit {
            selected(events, kinds, from_seq, wide)
        } else {
            selected(events, kinds, from_seq, wide).take(limit as int)
        }),
    decreases events.len(),
{
    if events.len() > 0 {
        limit_takes_the_front(events.drop_last(), kinds, from_seq, limit, wide);
        let all = selected(events, kinds, from_seq, wide);
        let want = if all.len() <= limit {
            all
        } else {
            all.take(limit as int)
        };
        assert(selected(events, kinds, from_seq, limit) =~= want);
    } else {
        assert(selected(events, kinds, from_seq, limit) =~= Seq::<Map<Seq<char>, Json>>::empty());
        assert(selected(events, kinds, from_seq, wide) =~= Seq::<Map<Seq<char>, Json>>::empty());
    }
}

/// A read that names no kind selects nothing.
pub proof fn no_kinds_select_nothing(
    events: Seq<Map<Seq<char>, Json>>,
    from_seq: u64,
    limit: nat,
)
    ensures
        selected(events, Some(Seq::empty()), from_seq, limit) == Seq::<
            Map<Seq<char>, Json>,
        >::empty(),
    decreases events.len(),
{
    if events.len() > 0 {
        no_kinds_select_nothing(events.drop_last(), from_seq, limit);
    }
}

/// The sequence number of a stored event.
fn stored_seq(event: &Object) -> (seq: u64)
    requires
        event::has_u64(event@, FIELD_SEQ@),
    ensures
        seq == seq_of(event@),
{
    match event.get(FIELD_SEQ) {
        Some(value) => value.as_u64().unwrap(),
        None => 0,
    }
}

/// The kind of a stored event.
fn stored_kind(event: &Object) -> (kind: Option<&str>)
    ensures
        kind is Some <==> event@.contains_key(FIELD_KIND@) && event@[FIELD_KIND@] is String,
        kind is Some ==> event@[FIELD_KIND@] == Json::String(kind->0@),
{
    match event.get(FIELD_KIND) {
        Some(value) => value.as_str(),
        None => None,
    }
}

/// A read hands its events to the chain as they are stored, each in its place,
/// and answers what comes out; and the kinds it names are those it was given.
pub proof fn reads_go_through_the_chain(
    chain: Seq<Arc<dyn Upcaster>>,
    picked: Seq<Map<Seq<char>, Json>>,
    answer: Result<Vec<Current>, Error>,
    objects: Seq<Object>,
    kinds: Option<&[&str]>,
    i: int,
)
    ensures
        as_values(picked).len() == picked.len(),
        0 <= i < picked.len() ==> as_values(picked)[i] == Json::Object(picked[i]),
        object_views(objects).len() == objects.len(),
        0 <= i < objects.len() ==> object_views(objects)[i] == objects[i]@,
        kind_views(kinds) is Some <==> kinds is Some,
        kinds is Some ==> kind_views(kinds)->0.len() == kinds->0@.len(),
        kinds is Some && 0 <= i < kinds->0@.len() ==> kind_views(kinds)->0[i] == kinds->0@[i]@,
        read_through(chain, picked, answer) ==> exists|moved: Seq<Json>|
            #[trigger] upcast::upcasts(chain, as_values(picked), moved) && upcast::answers(
                answer,
                upcast::read_back(moved),
            ),
        read_through(chain, picked, answer) && answer is Ok ==> answer->Ok_0@.len()
            == picked.len(),
{
    if read_through(chain, picked, answer) && answer is Ok {
        let moved = choose|moved: Seq<Json>| #[trigger]
            upcast::upcasts(chain, as_values(picked), moved) && upcast::answers(
                answer,
                upcast::read_back(moved),
            );
        upcast::reads_are_whole(moved);
        assert(upcast::current_views(answer->Ok_0@).len() == answer->Ok_0@.len());
    }
}

} // verus!
