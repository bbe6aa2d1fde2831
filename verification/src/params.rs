//! What a caller binds into its own SQL.

use vstd::prelude::*;

use crate::json::{self, Json, Object, Value};
use crate::log;
use crate::upcast;

verus! {

/// Values for a statement's placeholders, by position or by name.
///
/// A name is the placeholder as written in the SQL, sigil included. Every name
/// the statement declares must be supplied, and every name supplied declared.
#[derive(Debug, PartialEq, Eq)]
pub enum Params {
    /// Bound to `?`, `?1`, `?2` and so on, in the order given.
    Positional(Vec<Value>),
    /// Bound to `:name`, `@name` or `$name`, sigil included in the key.
    Named(Vec<(String, Value)>),
}

/// What [`Params`] binds.
pub ghost enum Bindings {
    Positional(Seq<Json>),
    Named(Seq<(Seq<char>, Json)>),
}

impl Params {
    pub open spec fn view(&self) -> Bindings {
        match *self {
            Params::Positional(values) => Bindings::Positional(upcast::value_views(values@)),
            Params::Named(pairs) => Bindings::Named(log::pair_views(pairs@)),
        }
    }
}

/// A copy of a list of values.
fn copied_values(values: &Vec<Value>) -> (copies: Vec<Value>)
    ensures
        upcast::value_views(copies@) == upcast::value_views(values@),
{
    let mut copies: Vec<Value> = Vec::new();
    let mut i: usize = 0;
    while i < values.len()
        invariant
            i <= values@.len(),
            copies@.len() == i,
            forall|j: int| 0 <= j < i ==> (#[trigger] copies@[j])@ == values@[j]@,
        decreases values@.len() - i,
    {
        copies.push(values[i].clone());
        i += 1;
    }
    proof {
        assert(upcast::value_views(copies@) =~= upcast::value_views(values@));
    }
    copies
}

impl Clone for Params {
    fn clone(&self) -> (copy: Self)
        ensures
            copy@ == self@,
    {
        match self {
            Params::Positional(values) => Params::Positional(copied_values(values)),
            Params::Named(pairs) => Params::Named(log::copied_pairs(pairs)),
        }
    }
}

impl From<Vec<Value>> for Params {
    fn from(values: Vec<Value>) -> (params: Self) {
        Params::Positional(values)
    }
}

impl vstd::std_specs::convert::FromSpecImpl<Vec<Value>> for Params {
    open spec fn obeys_from_spec() -> bool {
        true
    }

    open spec fn from_spec(values: Vec<Value>) -> Self {
        Params::Positional(values)
    }
}

impl From<Vec<(String, Value)>> for Params {
    fn from(pairs: Vec<(String, Value)>) -> (params: Self) {
        Params::Named(pairs)
    }
}

impl vstd::std_specs::convert::FromSpecImpl<Vec<(String, Value)>> for Params {
    open spec fn obeys_from_spec() -> bool {
        true
    }

    open spec fn from_spec(pairs: Vec<(String, Value)>) -> Self {
        Params::Named(pairs)
    }
}

/// The entries of an object, in text order of their keys.
pub open spec fn entries(object: Map<Seq<char>, Json>) -> Seq<(Seq<char>, Json)> {
    let keys = json::ordered_keys(object);
    Seq::new(keys.len(), |i: int| (keys[i], object[keys[i]]))
}

impl Params {
    /// A JSON object as named parameters, one entry per placeholder.
    pub fn from_object(object: &Object) -> (params: Self)
        ensures
            params@ == Bindings::Named(entries(object@)),
    {
        let count: usize = object.len();
        let mut pairs: Vec<(String, Value)> = Vec::new();
        let mut i: usize = 0;
        while i < count
            invariant
                count == json::ordered_keys(object@).len(),
                i <= count,
                pairs@.len() == i,
                forall|j: int|
                    0 <= j < i ==> (#[trigger] pairs@[j]).0@ == entries(object@)[j].0
                        && pairs@[j].1@ == entries(object@)[j].1,
            decreases count - i,
        {
            let value = object.value_at(i).clone();
            pairs.push((object.key_at(i).to_owned(), value));
            i += 1;
        }
        proof {
            assert(log::pair_views(pairs@) =~= entries(object@));
        }
        Params::Named(pairs)
    }
}

/// An object's entries are all of its keys, each once with what it holds, in
/// text order.
pub proof fn entries_are_the_objects(object: Map<Seq<char>, Json>, key: Seq<char>)
    requires
        object.dom().finite(),
    ensures
        object.contains_key(key) <==> exists|i: int|
            0 <= i < entries(object).len() && (#[trigger] entries(object)[i]).0 == key,
        forall|i: int|
            0 <= i < entries(object).len() ==> object.contains_key((#[trigger] entries(object)[i]).0)
                && entries(object)[i].1 == object[entries(object)[i].0],
        forall|i: int, j: int|
            0 <= i < j < entries(object).len() ==> crate::text::text_lt(
                (#[trigger] entries(object)[i]).0,
                (#[trigger] entries(object)[j]).0,
            ),
{
    json::keys_can_be_listed(object);
    let keys = json::ordered_keys(object);
    if object.contains_key(key) {
        assert(keys.contains(key));
        let i = choose|i: int| 0 <= i < keys.len() && keys[i] == key;
        assert(entries(object)[i].0 == key);
    }
    assert forall|i: int| 0 <= i < entries(object).len() implies object.contains_key(
        (#[trigger] entries(object)[i]).0,
    ) && entries(object)[i].1 == object[entries(object)[i].0] by {
        assert(keys.contains(keys[i]));
    }
    assert forall|i: int, j: int| 0 <= i < j < entries(object).len() implies crate::text::text_lt(
        (#[trigger] entries(object)[i]).0,
        (#[trigger] entries(object)[j]).0,
    ) by {
        assert(crate::text::text_lt(keys[i], keys[j]));
    }
}

/// Parameters are what the caller gave: by position each value in its place, by
/// name each under its name.
pub proof fn parameters_are_what_was_given(params: Params, i: int)
    ensures
        params matches Params::Positional(values) ==> params@ is Positional
            && params@->Positional_0.len() == values@.len() && (0 <= i < values@.len()
            ==> params@->Positional_0[i] == values@[i]@),
        params matches Params::Named(pairs) ==> params@ is Named && params@->Named_0.len()
            == pairs@.len() && (0 <= i < pairs@.len() ==> params@->Named_0[i] == (
            pairs@[i].0@,
            pairs@[i].1@,
        )),
{
}

} // verus!
