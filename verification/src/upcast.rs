//! Schema evolution: stored bytes are never rewritten, readers are moved
//! forward instead.
//!
//! Every read runs the stored events through a chain of [`Upcaster`] steps,
//! in registration order, and hands out [`Current`] events: objects in which
//! what a reader relies on is known to be there.

use std::sync::Arc;

use vstd::prelude::*;

use crate::error::{Error, Failure};
use crate::event::{self, FIELD_KIND, FIELD_SCHEMA_VERSION, FIELD_SEQ};
use crate::json::{Json, Object, Value};

verus! {

/// One `n -> n+1` step.
///
/// Applied to every event read, whatever version it carries: a step
/// recognises the shapes it applies to, by kind and version together, and
/// leaves everything else alone.
pub trait Upcaster: Send + Sync {
    /// What the step may answer for an event. An implementation that says
    /// nothing here promises nothing: it may answer anything, and two calls
    /// may differ.
    open spec fn gives(&self, event: Json, moved: Json) -> bool {
        true
    }

    fn upcast(&self, event: Value) -> (moved: Value)
        ensures
            self.gives(event@, moved@),
    ;
}

/// A registered chain.
pub type UpcastChain = Vec<Arc<dyn Upcaster>>;

/// Whether running `event` through `chain` may come out as `moved`: each step
/// is given what the step before it answered.
pub open spec fn chain_gives(chain: Seq<Arc<dyn Upcaster>>, event: Json, moved: Json) -> bool
    decreases chain.len(),
{
    if chain.len() == 0 {
        moved == event
    } else {
        exists|between: Json|
            chain_gives(chain.drop_last(), event, between) && #[trigger] chain.last().gives(
                between,
                moved,
            )
    }
}

/// Whether running each of `events` through `chain` may come out as `moved`.
pub open spec fn upcasts(
    chain: Seq<Arc<dyn Upcaster>>,
    events: Seq<Json>,
    moved: Seq<Json>,
) -> bool {
    &&& moved.len() == events.len()
    &&& forall|i: int| 0 <= i < events.len() ==> chain_gives(chain, events[i], #[trigger] moved[i])
}

/// The views of a sequence of values.
pub open spec fn value_views(values: Seq<Value>) -> Seq<Json> {
    Seq::new(values.len(), |i: int| values[i]@)
}

/// Runs `event` through `chain`, in registration order.
fn run_chain(chain: &[Arc<dyn Upcaster>], event: Value) -> (moved: Value)
    ensures
        chain_gives(chain@, event@, moved@),
{
    let ghost first = event@;
    let mut moved = event;
    let mut i: usize = 0;
    while i < chain.len()
        invariant
            i <= chain@.len(),
            chain_gives(chain@.take(i as int), first, moved@),
        decreases chain@.len() - i,
    {
        let ghost between = moved@;
        moved = chain[i].upcast(moved);
        proof {
            assert(chain@.take(i + 1).drop_last() == chain@.take(i as int));
            assert(chain@.take(i + 1).last() == chain@[i as int]);
            assert(chain@.take(i + 1).last().gives(between, moved@));
        }
        i += 1;
    }
    proof {
        assert(chain@.take(i as int) == chain@);
    }
    moved
}

/// Runs `events` through `chain`, in registration order, one event at a time.
pub fn apply_chain(chain: &[Arc<dyn Upcaster>], events: Vec<Value>) -> (moved: Vec<Value>)
    ensures
        upcasts(chain@, value_views(events@), value_views(moved@)),
{
    let ghost given = events@;
    let mut moved: Vec<Value> = Vec::new();
    for event in it: events
        invariant
            it.seq() == given,
            moved@.len() == it.index(),
            forall|i: int|
                0 <= i < it.index() ==> chain_gives(chain@, given[i]@, (#[trigger] moved@[i])@),
    {
        moved.push(run_chain(chain, event));
    }
    moved
}

/// An event as it reads now: after the chain, with the envelope fields a
/// reader depends on known to be present.
#[derive(Debug, PartialEq, Eq)]
pub struct Current(Object);

/// Why an upcasted event cannot be read, if it cannot.
pub open spec fn current_refusal(event: Json) -> Option<Seq<char>> {
    match event {
        Json::Object(object) => if !(object.contains_key(FIELD_KIND@)
            && object[FIELD_KIND@] is String) {
            Some("stored event has no string `kind` after upcasting"@)
        } else if !event::has_u64(object, FIELD_SEQ@) {
            Some("stored event has no `seq` after upcasting"@)
        } else if !event::has_u64(object, FIELD_SCHEMA_VERSION@) {
            Some(
                "stored event has no `_schema_version` after upcasting; a step removed it, and the next step has nothing to select on"@,
            )
        } else {
            None
        },
        _ => Some("stored event is not a JSON object"@),
    }
}

impl Current {
    pub closed spec fn view(&self) -> Map<Seq<char>, Json> {
        self.0@
    }

    /// Takes an upcasted event, checking what a reader relies on.
    ///
    /// An event that cannot be understood is a failure and is never dropped: a
    /// fold over a silently shortened log produces a wrong state.
    pub fn from_upcasted(event: Value) -> (current: Result<Self, Error>)
        ensures
            current is Ok <==> current_refusal(event@) is None,
            current is Ok ==> event@ == Json::Object(current->Ok_0@),
            current is Err ==> current->Err_0@ == Failure::Corruption(current_refusal(event@)->0),
    {
        let object = match event {
            Value::Object(object) => object,
            _ => {
                return Err(Error::corruption("stored event is not a JSON object".to_owned()));
            },
        };
        let named = match object.get(FIELD_KIND) {
            Some(value) => value.as_str().is_some(),
            None => false,
        };
        if !named {
            return Err(
                Error::corruption("stored event has no string `kind` after upcasting".to_owned()),
            );
        }
        let numbered = match object.get(FIELD_SEQ) {
            Some(value) => value.is_u64(),
            None => false,
        };
        if !numbered {
            return Err(Error::corruption("stored event has no `seq` after upcasting".to_owned()));
        }
        let versioned = match object.get(FIELD_SCHEMA_VERSION) {
            Some(value) => value.is_u64(),
            None => false,
        };
        if !versioned {
            return Err(
                Error::corruption(
                    "stored event has no `_schema_version` after upcasting; a step removed it, and the next step has nothing to select on".to_owned(),
                ),
            );
        }
        Ok(Current(object))
    }

    /// For a value this process just stamped, which is current by construction.
    pub fn assume_current(event: Object) -> (current: Self)
        ensures
            current@ == event@,
    {
        Current(event)
    }

    /// The event's `kind`.
    pub fn kind(&self) -> (kind: &str)
        requires
            self@.contains_key(FIELD_KIND@),
            self@[FIELD_KIND@] is String,
        ensures
            self@[FIELD_KIND@] == Json::String(kind@),
    {
        match self.0.get(FIELD_KIND) {
            Some(Value::String(kind)) => kind.as_str(),
            _ => "",
        }
    }

    /// The per-stream sequence.
    pub fn seq(&self) -> (seq: u64)
        requires
            event::has_u64(self@, FIELD_SEQ@),
        ensures
            self@[FIELD_SEQ@] == event::whole(seq),
    {
        match self.0.get(FIELD_SEQ) {
            Some(value) => value.as_u64().unwrap(),
            None => 0,
        }
    }

    /// The object behind the event.
    pub fn as_object(&self) -> (object: &Object)
        ensures
            object@ == self@,
    {
        &self.0
    }

    pub fn into_inner(self) -> (object: Object)
        ensures
            object@ == self@,
    {
        self.0
    }
}

impl Clone for Current {
    fn clone(&self) -> (copy: Self)
        ensures
            copy@ == self@,
    {
        Current(self.0.clone())
    }
}

/// The views of a sequence of current events.
pub open spec fn current_views(events: Seq<Current>) -> Seq<Map<Seq<char>, Json>> {
    Seq::new(events.len(), |i: int| events[i]@)
}

/// What reading these upcasted events answers: the events, or the failure of
/// the first that cannot be read.
pub open spec fn read_back(upcasted: Seq<Json>) -> Result<Seq<Map<Seq<char>, Json>>, Failure>
    decreases upcasted.len(),
{
    if upcasted.len() == 0 {
        Ok(Seq::empty())
    } else {
        match read_back(upcasted.drop_last()) {
            Err(failure) => Err(failure),
            Ok(events) => match current_refusal(upcasted.last()) {
                Some(message) => Err(Failure::Corruption(message)),
                None => Ok(events.push(upcasted.last()->Object_0)),
            },
        }
    }
}

/// Whether a call answered what `expected` says.
pub open spec fn answers(
    answer: Result<Vec<Current>, Error>,
    expected: Result<Seq<Map<Seq<char>, Json>>, Failure>,
) -> bool {
    match expected {
        Ok(events) => answer is Ok && current_views(answer->Ok_0@) == events,
        Err(failure) => answer is Err && answer->Err_0@ == failure,
    }
}

/// A failure among the first events is the failure of the whole read.
proof fn failure_stays(upcasted: Seq<Json>, n: int)
    requires
        0 <= n <= upcasted.len(),
        read_back(upcasted.take(n)) is Err,
    ensures
        read_back(upcasted) == read_back(upcasted.take(n)),
    decreases upcasted.len() - n,
{
    if n == upcasted.len() {
        assert(upcasted.take(n) == upcasted);
    } else {
        assert(upcasted.take(n + 1).drop_last() == upcasted.take(n));
        failure_stays(upcasted, n + 1);
    }
}

/// Reads upcasted events, checking each.
pub fn currents(upcasted: Vec<Value>) -> (read: Result<Vec<Current>, Error>)
    ensures
        answers(read, read_back(value_views(upcasted@))),
{
    let ghost given = upcasted@;
    let ghost all = value_views(given);
    let mut read: Vec<Current> = Vec::new();
    proof {
        assert(all.take(0) == Seq::<Json>::empty());
        assert(current_views(read@) == Seq::<Map<Seq<char>, Json>>::empty());
    }
    for value in it: upcasted
        invariant
            it.seq() == given,
            all == value_views(given),
            read_back(all.take(it.index() as int)) == Ok::<_, Failure>(current_views(read@)),
    {
        let ghost i = it.index();
        proof {
            assert(all.take(i + 1).drop_last() == all.take(i as int));
            assert(all.take(i + 1).last() == value@);
        }
        let ghost before = current_views(read@);
        match Current::from_upcasted(value) {
            Ok(current) => {
                read.push(current);
                proof {
                    assert(current_views(read@) == before.push(current@));
                }
            },
            Err(error) => {
                proof {
                    failure_stays(all, i + 1);
                }
                return Err(error);
            },
        }
    }
    proof {
        assert(all.take(given.len() as int) == all);
    }
    Ok(read)
}

/// With no step registered, a chain leaves every event as it is.
pub proof fn empty_chain_is_identity(events: Seq<Json>, moved: Seq<Json>)
    requires
        upcasts(Seq::empty(), events, moved),
    ensures
        moved == events,
{
    assert forall|i: int| 0 <= i < events.len() implies moved[i] == events[i] by {
        assert(chain_gives(Seq::<Arc<dyn Upcaster>>::empty(), events[i], moved[i]));
    }
}

/// A chain of one step is that step.
pub proof fn one_step_is_run(chain: Seq<Arc<dyn Upcaster>>, event: Json, moved: Json)
    requires
        chain.len() == 1,
    ensures
        chain_gives(chain, event, moved) <==> chain[0].gives(event, moved),
{
    reveal_with_fuel(chain_gives, 2);
    assert(chain.last() == chain[0]);
    if chain[0].gives(event, moved) {
        assert(chain_gives(chain.drop_last(), event, event) && chain.last().gives(event, moved));
    }
}

/// Each event goes through the whole chain on its own, and stays in its place.
pub proof fn events_are_moved_one_by_one(
    chain: Seq<Arc<dyn Upcaster>>,
    events: Seq<Json>,
    moved: Seq<Json>,
)
    ensures
        upcasts(chain, events, moved) <==> moved.len() == events.len() && forall|i: int|
            0 <= i < moved.len() ==> chain_gives(chain, events[i], #[trigger] moved[i]),
{
}

/// What a reader relies on, in one statement: an event can be read exactly when
/// it is an object with a string `kind`, and with `seq` and `_schema_version`
/// whole numbers not below zero.
pub proof fn readable_events_carry_their_envelope(event: Json)
    ensures
        current_refusal(event) is None <==> {
            &&& event is Object
            &&& event->Object_0.contains_key("kind"@) && event->Object_0["kind"@] is String
            &&& event->Object_0.contains_key("seq"@) && event->Object_0["seq"@] is Number
                && event->Object_0["seq"@]->Number_0 is PosInt
            &&& event->Object_0.contains_key("_schema_version"@)
                && event->Object_0["_schema_version"@] is Number
                && event->Object_0["_schema_version"@]->Number_0 is PosInt
        },
{
}

/// A read fails for the first event that cannot be read.
pub proof fn reads_fail_for_the_first(upcasted: Seq<Json>)
    requires
        read_back(upcasted) is Err,
    ensures
        exists|i: int|
            0 <= i < upcasted.len() && current_refusal(#[trigger] upcasted[i]) is Some
                && read_back(upcasted)->Err_0 == Failure::Corruption(
                current_refusal(upcasted[i])->0,
            ) && forall|j: int| 0 <= j < i ==> current_refusal(#[trigger] upcasted[j]) is None,
    decreases upcasted.len(),
{
    let front = upcasted.drop_last();
    if read_back(front) is Err {
        reads_fail_for_the_first(front);
        let i = choose|i: int|
            0 <= i < front.len() && current_refusal(#[trigger] front[i]) is Some
                && read_back(front)->Err_0 == Failure::Corruption(current_refusal(front[i])->0)
                && forall|j: int| 0 <= j < i ==> current_refusal(#[trigger] front[j]) is None;
        assert(upcasted[i] == front[i]);
        assert forall|j: int| 0 <= j < i implies current_refusal(#[trigger] upcasted[j]) is None by {
            assert(upcasted[j] == front[j]);
        }
    } else {
        reads_are_whole(front);
        let i = upcasted.len() - 1;
        assert(current_refusal(upcasted[i]) is Some);
        assert forall|j: int| 0 <= j < i implies current_refusal(#[trigger] upcasted[j]) is None by {
            assert(upcasted[j] == front[j]);
        }
    }
}

/// A chain runs its first steps and hands what they answer to the rest.
pub proof fn chains_compose(
    front: Seq<Arc<dyn Upcaster>>,
    back: Seq<Arc<dyn Upcaster>>,
    event: Json,
    moved: Json,
)
    ensures
        chain_gives(front + back, event, moved) <==> exists|between: Json| #[trigger]
            chain_gives(front, event, between) && chain_gives(back, between, moved),
    decreases back.len(),
{
    let whole = front + back;
    if back.len() == 0 {
        assert(whole == front);
        if chain_gives(whole, event, moved) {
            assert(chain_gives(front, event, moved) && chain_gives(back, moved, moved));
        }
    } else {
        assert(whole.drop_last() == front + back.drop_last());
        assert(whole.last() == back.last());
        if chain_gives(whole, event, moved) {
            let late = choose|late: Json|
                chain_gives(whole.drop_last(), event, late) && #[trigger] whole.last().gives(
                    late,
                    moved,
                );
            chains_compose(front, back.drop_last(), event, late);
            let between = choose|between: Json|
                #[trigger] chain_gives(front, event, between) && chain_gives(
                    back.drop_last(),
                    between,
                    late,
                );
            assert(back.last().gives(late, moved));
            assert(chain_gives(front, event, between) && chain_gives(back, between, moved));
        }
        if exists|between: Json| #[trigger]
            chain_gives(front, event, between) && chain_gives(back, between, moved) {
            let between = choose|between: Json| #[trigger]
                chain_gives(front, event, between) && chain_gives(back, between, moved);
            let late = choose|late: Json|
                chain_gives(back.drop_last(), between, late) && #[trigger] back.last().gives(
                    late,
                    moved,
                );
            chains_compose(front, back.drop_last(), event, late);
            assert(whole.last().gives(late, moved));
        }
    }
}

/// Whether every step of a chain has one answer for one event.
pub open spec fn settled(chain: Seq<Arc<dyn Upcaster>>) -> bool {
    forall|i: int, event: Json, a: Json, b: Json|
        0 <= i < chain.len() && #[trigger] chain[i].gives(event, a) && #[trigger] chain[i].gives(
            event,
            b,
        ) ==> a == b
}

/// A chain whose steps have one answer each has one answer.
pub proof fn settled_chains_have_one_answer(
    chain: Seq<Arc<dyn Upcaster>>,
    event: Json,
    a: Json,
    b: Json,
)
    requires
        settled(chain),
        chain_gives(chain, event, a),
        chain_gives(chain, event, b),
    ensures
        a == b,
    decreases chain.len(),
{
    if chain.len() > 0 {
        let front = chain.drop_last();
        let x = choose|x: Json|
            chain_gives(front, event, x) && #[trigger] chain.last().gives(x, a);
        let y = choose|y: Json|
            chain_gives(front, event, y) && #[trigger] chain.last().gives(y, b);
        assert(settled(front)) by {
            assert forall|i: int, e: Json, c: Json, d: Json|
                0 <= i < front.len() && #[trigger] front[i].gives(e, c)
                    && #[trigger] front[i].gives(e, d) implies c == d by {
                assert(chain[i].gives(e, c) && chain[i].gives(e, d));
            }
        }
        settled_chains_have_one_answer(front, event, x, y);
        assert(chain[chain.len() - 1].gives(x, a) && chain[chain.len() - 1].gives(x, b));
    }
}

/// A read succeeds exactly when every upcasted event can be read, and then
/// gives each of them back, in order.
pub proof fn reads_are_whole(upcasted: Seq<Json>)
    ensures
        read_back(upcasted) is Ok <==> forall|i: int|
            0 <= i < upcasted.len() ==> current_refusal(#[trigger] upcasted[i]) is None,
        read_back(upcasted) is Ok ==> {
            &&& read_back(upcasted)->Ok_0.len() == upcasted.len()
            &&& forall|i: int|
                0 <= i < upcasted.len() ==> Json::Object(
                    #[trigger] read_back(upcasted)->Ok_0[i],
                ) == upcasted[i]
        },
    decreases upcasted.len(),
{
    if upcasted.len() > 0 {
        let front = upcasted.drop_last();
        reads_are_whole(front);
        if read_back(upcasted) is Ok {
            assert forall|i: int| 0 <= i < upcasted.len() implies current_refusal(
                #[trigger] upcasted[i],
            ) is None && Json::Object(read_back(upcasted)->Ok_0[i]) == upcasted[i] by {
                if i < front.len() {
                    assert(front[i] == upcasted[i]);
                    assert(read_back(upcasted)->Ok_0[i] == read_back(front)->Ok_0[i]);
                }
            }
        }
        if forall|i: int|
            0 <= i < upcasted.len() ==> current_refusal(#[trigger] upcasted[i]) is None {
            assert forall|i: int| 0 <= i < front.len() implies current_refusal(
                #[trigger] front[i],
            ) is None by {
                assert(front[i] == upcasted[i]);
            }
            assert(current_refusal(upcasted[upcasted.len() - 1]) is None);
        }
    }
}

/// A list of values is viewed value by value, and a list of events event by
/// event; and an answer is what was expected: just those events, or just that
/// failure.
pub proof fn answers_are_what_was_expected(
    values: Seq<Value>,
    events: Seq<Current>,
    answer: Result<Vec<Current>, Error>,
    expected: Result<Seq<Map<Seq<char>, Json>>, Failure>,
    i: int,
)
    ensures
        value_views(values).len() == values.len(),
        0 <= i < values.len() ==> value_views(values)[i] == values[i]@,
        current_views(events).len() == events.len(),
        0 <= i < events.len() ==> current_views(events)[i] == events[i]@,
        answers(answer, expected) && expected is Ok ==> answer is Ok && answer->Ok_0@.len()
            == expected->Ok_0.len(),
        answers(answer, expected) && expected is Ok && 0 <= i < answer->Ok_0@.len()
            ==> answer->Ok_0@[i]@ == expected->Ok_0[i],
        answers(answer, expected) && expected is Err ==> answer is Err && answer->Err_0@
            == expected->Err_0,
{
    if answers(answer, expected) && expected is Ok {
        assert(current_views(answer->Ok_0@).len() == answer->Ok_0@.len());
        if 0 <= i < answer->Ok_0@.len() {
            assert(current_views(answer->Ok_0@)[i] == answer->Ok_0@[i]@);
        }
    }
}

} // verus!
