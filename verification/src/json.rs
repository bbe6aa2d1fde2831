//! The JSON values an event is made of.
//!
//! An [`Object`] keeps its keys distinct and in text order, so two objects
//! with the same entries are read in the same order. Its model is the map
//! from key to value; [`Json`] is the model of a value of any shape.

use vstd::prelude::*;

use crate::text;

use serde_json::Number as JsonNumber;

pub mod wire;

verus! {

/// `serde_json::Number`, as it carries a number that is not an integer.
#[verifier::external_type_specification]
#[verifier::external_body]
pub struct ExNumber(JsonNumber);

/// `Clone` of `serde_json::Number`: the copy is the number it was made from.
pub assume_specification[ <JsonNumber as Clone>::clone ](n: &JsonNumber) -> (copy: JsonNumber)
    ensures
        copy == *n,
;

/// An integer below zero.
#[derive(Debug, Clone, Copy, PartialEq, Eq, Structural)]
pub struct Negative {
    value: i64,
}

impl Negative {
    #[verifier::type_invariant]
    spec fn below_zero(self) -> bool {
        self.value < 0
    }

    /// The integer.
    pub closed spec fn amount(self) -> i64 {
        self.value
    }

    /// The integer, if it is below zero.
    pub fn new(value: i64) -> (negative: Option<Self>)
        ensures
            negative is Some <==> value < 0,
            negative is Some ==> negative->0.amount() == value,
    {
        if value < 0 {
            Some(Negative { value })
        } else {
            None
        }
    }

    pub fn get(self) -> (value: i64)
        ensures
            value == self.amount(),
            value < 0,
    {
        proof {
            use_type_invariant(&self);
        }
        self.value
    }
}

/// A number that is not an integer. The store carries it and never computes
/// with it.
#[derive(Debug, PartialEq, Eq)]
pub struct Real {
    number: JsonNumber,
}

impl Real {
    /// The number it carries.
    pub closed spec fn carried(&self) -> JsonNumber {
        self.number
    }

    /// The number, for a caller that binds it or prints it.
    pub fn as_number(&self) -> (number: &JsonNumber)
        ensures
            *number == self.carried(),
    {
        &self.number
    }
}

impl Clone for Real {
    fn clone(&self) -> (copy: Self)
        ensures
            copy == *self,
    {
        Real { number: self.number.clone() }
    }
}

/// A JSON number.
#[derive(Debug, PartialEq, Eq)]
pub enum Number {
    /// An integer that is not below zero.
    PosInt(u64),
    /// An integer below zero.
    NegInt(Negative),
    /// Any other number.
    Real(Real),
}

impl Clone for Number {
    fn clone(&self) -> (copy: Self)
        ensures
            copy == *self,
    {
        match self {
            Number::PosInt(n) => Number::PosInt(*n),
            Number::NegInt(n) => Number::NegInt(*n),
            Number::Real(n) => Number::Real(n.clone()),
        }
    }
}

/// A JSON value.
#[derive(Debug, PartialEq, Eq)]
pub enum Value {
    Null,
    Bool(bool),
    Number(Number),
    String(String),
    Array(Vec<Value>),
    Object(Object),
}

/// One key of an object and what it holds.
#[derive(Debug, PartialEq, Eq)]
struct Entry {
    key: String,
    value: Value,
}

/// A JSON object: distinct keys, in text order.
#[derive(Debug, PartialEq, Eq)]
pub struct Object {
    entries: Vec<Entry>,
}

/// What a JSON value is.
pub ghost enum Json {
    Null,
    Bool(bool),
    Number(Number),
    String(Seq<char>),
    Array(Seq<Json>),
    Object(Map<Seq<char>, Json>),
}

impl Value {
    pub open spec fn view(&self) -> Json
        decreases self,
    {
        match *self {
            Value::Null => Json::Null,
            Value::Bool(b) => Json::Bool(b),
            Value::Number(n) => Json::Number(n),
            Value::String(s) => Json::String(s@),
            Value::Array(items) => Json::Array(
                Seq::new(
                    items@.len(),
                    |i: int|
                        if 0 <= i < items@.len() {
                            items@[i].view()
                        } else {
                            Json::Null
                        },
                ),
            ),
            Value::Object(object) => Json::Object(object.view()),
        }
    }
}

/// Whether the entry at `i` is the one under `key`.
spec fn keyed(entries: Seq<Entry>, key: Seq<char>, i: int) -> bool {
    0 <= i < entries.len() && entries[i].key@ == key
}

/// The keys in text order, which also makes them distinct.
spec fn sorted(entries: Seq<Entry>) -> bool {
    forall|i: int, j: int|
        0 <= i < j < entries.len() ==> text::text_lt(
            #[trigger] entries[i].key@,
            #[trigger] entries[j].key@,
        )
}

impl Object {
    #[verifier::type_invariant]
    spec fn well_formed(self) -> bool {
        sorted(self.entries@)
    }

    /// What the object holds, by key.
    pub closed spec fn view(&self) -> Map<Seq<char>, Json>
        decreases self,
    {
        Map::new(
            |key: Seq<char>| exists|i: int| #[trigger] keyed(self.entries@, key, i),
            |key: Seq<char>|
                {
                    let i = choose|i: int| #[trigger] keyed(self.entries@, key, i);
                    if 0 <= i < self.entries@.len() {
                        self.entries@[i].value.view()
                    } else {
                        Json::Null
                    }
                },
        )
    }
}

/// In a sorted list a key has one entry.
proof fn one_entry(entries: Seq<Entry>, key: Seq<char>, i: int, j: int)
    requires
        sorted(entries),
        keyed(entries, key, i),
        keyed(entries, key, j),
    ensures
        i == j,
{
    text::text_order(key, key);
    if i < j {
        assert(text::text_lt(entries[i].key@, entries[j].key@));
    }
    if j < i {
        assert(text::text_lt(entries[j].key@, entries[i].key@));
    }
}

/// What an object says of one of its entries.
proof fn entry_in_view(object: &Object, i: int)
    requires
        sorted(object.entries@),
        0 <= i < object.entries@.len(),
    ensures
        object@.contains_key(object.entries@[i].key@),
        object@[object.entries@[i].key@] == object.entries@[i].value@,
{
    let key = object.entries@[i].key@;
    assert(keyed(object.entries@, key, i));
    let j = choose|j: int| #[trigger] keyed(object.entries@, key, j);
    one_entry(object.entries@, key, i, j);
}

/// A key without an entry is not in the object.
proof fn absent_from_view(object: &Object, key: Seq<char>)
    requires
        forall|i: int| 0 <= i < object.entries@.len() ==> (#[trigger] object.entries@[i]).key@ != key,
    ensures
        !object@.contains_key(key),
{
}

impl Clone for Value {
    fn clone(&self) -> (copy: Self)
        ensures
            copy@ == self@,
        decreases self,
    {
        match self {
            Value::Null => Value::Null,
            Value::Bool(b) => Value::Bool(*b),
            Value::Number(n) => Value::Number(n.clone()),
            Value::String(s) => Value::String(s.clone()),
            Value::Array(items) => {
                let mut copies: Vec<Value> = Vec::new();
                let mut i: usize = 0;
                #[verifier::loop_isolation(false)]
                while i < items.len()
                    invariant
                        *self == Value::Array(*items),
                        i <= items@.len(),
                        copies@.len() == i,
                        forall|j: int| 0 <= j < i ==> (#[trigger] copies@[j])@ == items@[j]@,
                    decreases items@.len() - i,
                {
                    let item = &items[i];
                    copies.push(item.clone());
                    i += 1;
                }
                let copy = Value::Array(copies);
                proof {
                    assert(copy@->Array_0 == self@->Array_0);
                }
                copy
            },
            Value::Object(object) => Value::Object(object.clone()),
        }
    }
}

impl Clone for Object {
    fn clone(&self) -> (copy: Self)
        ensures
            copy@ == self@,
        decreases self,
    {
        proof {
            use_type_invariant(self);
        }
        let mut entries: Vec<Entry> = Vec::new();
        let mut i: usize = 0;
        while i < self.entries.len()
            invariant
                sorted(self.entries@),
                i <= self.entries@.len(),
                entries@.len() == i,
                forall|j: int|
                    0 <= j < i ==> (#[trigger] entries@[j]).key@ == self.entries@[j].key@
                        && entries@[j].value@ == self.entries@[j].value@,
            decreases self.entries@.len() - i,
        {
            let entry = &self.entries[i];
            entries.push(Entry { key: entry.key.clone(), value: entry.value.clone() });
            i += 1;
        }
        let copy = Object { entries };
        proof {
            same_view(self, &copy);
        }
        copy
    }
}

/// Objects whose entries agree have the same view.
proof fn same_view(a: &Object, b: &Object)
    requires
        sorted(a.entries@),
        sorted(b.entries@),
        a.entries@.len() == b.entries@.len(),
        forall|i: int|
            0 <= i < a.entries@.len() ==> (#[trigger] a.entries@[i]).key@ == b.entries@[i].key@
                && a.entries@[i].value@ == b.entries@[i].value@,
    ensures
        a@ == b@,
{
    assert forall|key: Seq<char>| #[trigger] a@.dom().contains(key) implies b@.dom().contains(key)
        && a@[key] == b@[key] by {
        let i = choose|i: int| #[trigger] keyed(a.entries@, key, i);
        assert(keyed(b.entries@, key, i));
        entry_in_view(a, i);
        entry_in_view(b, i);
    }
    assert forall|key: Seq<char>| #[trigger] b@.dom().contains(key) implies a@.dom().contains(
        key,
    ) by {
        let i = choose|i: int| #[trigger] keyed(b.entries@, key, i);
        assert(keyed(a.entries@, key, i));
    }
    assert(a@.dom() =~= b@.dom());
    assert(a@ =~= b@);
}

/// Keys in text order, which also makes them distinct.
pub open spec fn in_order(keys: Seq<Seq<char>>) -> bool {
    forall|i: int, j: int|
        0 <= i < j < keys.len() ==> text::text_lt(#[trigger] keys[i], #[trigger] keys[j])
}

/// Whether `keys` lists the keys of `map`, in text order.
pub open spec fn lists_keys(map: Map<Seq<char>, Json>, keys: Seq<Seq<char>>) -> bool {
    &&& in_order(keys)
    &&& forall|key: Seq<char>| #[trigger] map.contains_key(key) <==> keys.contains(key)
}

/// The keys of an object, in text order.
pub open spec fn ordered_keys(map: Map<Seq<char>, Json>) -> Seq<Seq<char>> {
    choose|keys: Seq<Seq<char>>| lists_keys(map, keys)
}

/// Two ordered lists of the same keys are one list.
proof fn same_list(a: Seq<Seq<char>>, b: Seq<Seq<char>>)
    requires
        in_order(a),
        in_order(b),
        forall|key: Seq<char>| #[trigger] a.contains(key) <==> b.contains(key),
    ensures
        a == b,
    decreases a.len(),
{
    if a.len() == 0 {
        if b.len() > 0 {
            assert(b.contains(b[0]));
            assert(a.contains(b[0]));
        }
        assert(a == b);
    } else {
        assert(a.contains(a.last()));
        assert(b.contains(a.last()));
        let i = choose|i: int| 0 <= i < b.len() && b[i] == a.last();
        assert(b.contains(b.last()));
        assert(a.contains(b.last()));
        let j = choose|j: int| 0 <= j < a.len() && a[j] == b.last();
        if i < b.len() - 1 {
            assert(text::text_lt(b[i], b[b.len() - 1]));
            text::text_order(a.last(), b.last());
            if j < a.len() - 1 {
                assert(text::text_lt(a[j], a[a.len() - 1]));
            }
        }
        assert(a.last() == b.last());
        let c = a.drop_last();
        let d = b.drop_last();
        assert forall|key: Seq<char>| #[trigger] c.contains(key) <==> d.contains(key) by {
            if c.contains(key) {
                let k = choose|k: int| 0 <= k < c.len() && c[k] == key;
                assert(a[k] == key);
                assert(a.contains(key));
                assert(b.contains(key));
                assert(text::text_lt(a[k], a[a.len() - 1]));
                text::text_order(key, a.last());
                let l = choose|l: int| 0 <= l < b.len() && b[l] == key;
                assert(d[l] == key);
            }
            if d.contains(key) {
                let k = choose|k: int| 0 <= k < d.len() && d[k] == key;
                assert(b[k] == key);
                assert(b.contains(key));
                assert(a.contains(key));
                assert(text::text_lt(b[k], b[b.len() - 1]));
                text::text_order(key, b.last());
                let l = choose|l: int| 0 <= l < a.len() && a[l] == key;
                assert(c[l] == key);
            }
        }
        same_list(c, d);
        assert(a == c.push(a.last()));
        assert(b == d.push(b.last()));
    }
}

/// A list of a map's keys in text order is the only one.
pub proof fn keys_are_listed_once(map: Map<Seq<char>, Json>, keys: Seq<Seq<char>>)
    requires
        lists_keys(map, keys),
    ensures
        ordered_keys(map) == keys,
{
    let other = ordered_keys(map);
    assert(lists_keys(map, other));
    assert forall|key: Seq<char>| #[trigger] keys.contains(key) <==> other.contains(key) by {
        assert(map.contains_key(key) <==> keys.contains(key));
        assert(map.contains_key(key) <==> other.contains(key));
    }
    same_list(keys, other);
}

/// The keys of an object are those of its entries, in their order.
proof fn keys_of_entries(object: &Object)
    requires
        sorted(object.entries@),
    ensures
        ordered_keys(object@) == Seq::new(
            object.entries@.len(),
            |i: int| object.entries@[i].key@,
        ),
        lists_keys(object@, ordered_keys(object@)),
{
    let keys = Seq::new(object.entries@.len(), |i: int| object.entries@[i].key@);
    assert forall|i: int, j: int| 0 <= i < j < keys.len() implies text::text_lt(
        #[trigger] keys[i],
        #[trigger] keys[j],
    ) by {
        assert(text::text_lt(object.entries@[i].key@, object.entries@[j].key@));
    }
    assert forall|key: Seq<char>| #[trigger] object@.contains_key(key) <==> keys.contains(key) by {
        if object@.contains_key(key) {
            assert(object@.dom().contains(key));
            let i = choose|i: int| #[trigger] keyed(object.entries@, key, i);
            assert(keys[i] == key);
        }
        if keys.contains(key) {
            let i = choose|i: int| 0 <= i < keys.len() && keys[i] == key;
            entry_in_view(object, i);
        }
    }
    keys_are_listed_once(object@, keys);
}

impl Object {
    /// An object with no keys.
    pub fn new() -> (object: Self)
        ensures
            object@ == Map::<Seq<char>, Json>::empty(),
    {
        let object = Object { entries: Vec::new() };
        proof {
            assert(object@.dom() =~= Set::<Seq<char>>::empty());
            assert(object@ =~= Map::<Seq<char>, Json>::empty());
        }
        object
    }

    /// How many keys there are.
    pub fn len(&self) -> (count: usize)
        ensures
            count == ordered_keys(self@).len(),
            lists_keys(self@, ordered_keys(self@)),
            self@.dom().finite(),
    {
        proof {
            use_type_invariant(self);
            keys_of_entries(self);
            let keys = ordered_keys(self@);
            vstd::seq_lib::seq_to_set_is_finite(keys);
            assert forall|key: Seq<char>| #[trigger]
                self@.dom().contains(key) <==> keys.to_set().contains(key) by {
                assert(self@.contains_key(key) <==> keys.contains(key));
            }
            assert(self@.dom() =~= keys.to_set());
        }
        self.entries.len()
    }

    /// Whether there are no keys.
    pub fn is_empty(&self) -> (empty: bool)
        ensures
            empty == (self@ == Map::<Seq<char>, Json>::empty()),
    {
        proof {
            use_type_invariant(self);
            keys_of_entries(self);
            let none = Map::<Seq<char>, Json>::empty();
            if self.entries@.len() == 0 {
                assert forall|key: Seq<char>| !#[trigger] self@.dom().contains(key) by {
                    assert(self@.contains_key(key) <==> ordered_keys(self@).contains(key));
                }
                assert(self@.dom() =~= none.dom());
                assert(self@ =~= none);
            } else {
                entry_in_view(self, 0);
                assert(self@.dom().contains(self.entries@[0].key@));
                assert(!none.dom().contains(self.entries@[0].key@));
            }
        }
        self.entries.len() == 0
    }

    /// The key at `i`, in text order.
    pub fn key_at(&self, i: usize) -> (key: &str)
        requires
            i < ordered_keys(self@).len(),
        ensures
            key@ == ordered_keys(self@)[i as int],
            self@.contains_key(key@),
    {
        proof {
            use_type_invariant(self);
            keys_of_entries(self);
            entry_in_view(self, i as int);
        }
        self.entries[i].key.as_str()
    }

    /// The value under the key at `i`.
    pub fn value_at(&self, i: usize) -> (value: &Value)
        requires
            i < ordered_keys(self@).len(),
        ensures
            self@.contains_key(ordered_keys(self@)[i as int]),
            value@ == self@[ordered_keys(self@)[i as int]],
    {
        proof {
            use_type_invariant(self);
            keys_of_entries(self);
            entry_in_view(self, i as int);
        }
        &self.entries[i].value
    }

    /// Where the first key that does not sort below `key` stands.
    fn seek(&self, key: &str) -> (at: usize)
        ensures
            at <= self.entries@.len(),
            forall|i: int| 0 <= i < at ==> text::text_lt((#[trigger] self.entries@[i]).key@, key@),
            at < self.entries@.len() ==> !text::text_lt(self.entries@[at as int].key@, key@),
    {
        let mut at: usize = 0;
        while at < self.entries.len() && text::precedes(self.entries[at].key.as_str(), key)
            invariant
                at <= self.entries@.len(),
                forall|i: int|
                    0 <= i < at ==> text::text_lt((#[trigger] self.entries@[i]).key@, key@),
            decreases self.entries@.len() - at,
        {
            at += 1;
        }
        at
    }

    /// What `key` holds.
    pub fn get(&self, key: &str) -> (value: Option<&Value>)
        ensures
            value is Some <==> self@.contains_key(key@),
            value is Some ==> value->0@ == self@[key@],
    {
        proof {
            use_type_invariant(self);
        }
        let at: usize = self.seek(key);
        if at < self.entries.len() && text::same(self.entries[at].key.as_str(), key) {
            proof {
                entry_in_view(self, at as int);
            }
            Some(&self.entries[at].value)
        } else {
            proof {
                absent_past(self, key@, at as int);
            }
            None
        }
    }

    /// Whether `key` is there.
    pub fn contains_key(&self, key: &str) -> (found: bool)
        ensures
            found == self@.contains_key(key@),
    {
        self.get(key).is_some()
    }

    /// Puts `value` under `key`, and hands back what was there.
    pub fn insert(&mut self, key: String, value: Value) -> (before: Option<Value>)
        ensures
            final(self)@ == old(self)@.insert(key@, value@),
            before is Some <==> old(self)@.contains_key(key@),
            before is Some ==> before->0@ == old(self)@[key@],
    {
        proof {
            use_type_invariant(&*self);
        }
        let ghost was = *self;
        let ghost name = key@;
        let ghost held = value@;
        let at: usize = self.seek(key.as_str());
        let mut entries: Vec<Entry> = Vec::new();
        std::mem::swap(&mut self.entries, &mut entries);
        if at < entries.len() && text::same(entries[at].key.as_str(), key.as_str()) {
            let old_entry = entries.remove(at);
            entries.insert(at, Entry { key, value });
            proof {
                assert(entries@ == was.entries@.update(at as int, entries@[at as int]));
                entry_in_view(&was, at as int);
            }
            self.entries = entries;
            proof {
                replaced_view(&was, self, name, at as int);
            }
            Some(old_entry.value)
        } else {
            proof {
                absent_past(&was, name, at as int);
            }
            entries.insert(at, Entry { key, value });
            proof {
                assert(entries@ == was.entries@.insert(at as int, entries@[at as int]));
                inserted_sorted(was.entries@, entries@[at as int], at as int);
            }
            self.entries = entries;
            proof {
                inserted_view(&was, self, name, at as int);
            }
            None
        }
    }

    /// Takes `key` out, and hands back what it held.
    pub fn remove(&mut self, key: &str) -> (before: Option<Value>)
        ensures
            final(self)@ == old(self)@.remove(key@),
            before is Some <==> old(self)@.contains_key(key@),
            before is Some ==> before->0@ == old(self)@[key@],
    {
        proof {
            use_type_invariant(&*self);
        }
        let ghost was = *self;
        let at: usize = self.seek(key);
        if at < self.entries.len() && text::same(self.entries[at].key.as_str(), key) {
            let mut entries: Vec<Entry> = Vec::new();
            std::mem::swap(&mut self.entries, &mut entries);
            let old_entry = entries.remove(at);
            proof {
                assert(entries@ == was.entries@.remove(at as int));
                entry_in_view(&was, at as int);
                assert(sorted(entries@));
            }
            self.entries = entries;
            proof {
                removed_view(&was, self, key@, at as int);
            }
            Some(old_entry.value)
        } else {
            proof {
                absent_past(self, key@, at as int);
                assert(was@.remove(key@).dom() =~= was@.dom());
                assert(was@.remove(key@) =~= was@);
            }
            None
        }
    }
}

/// A key that is not where it would stand is nowhere.
proof fn absent_past(object: &Object, key: Seq<char>, at: int)
    requires
        sorted(object.entries@),
        0 <= at <= object.entries@.len(),
        forall|i: int| 0 <= i < at ==> text::text_lt((#[trigger] object.entries@[i]).key@, key),
        at < object.entries@.len() ==> !text::text_lt(object.entries@[at].key@, key)
            && object.entries@[at].key@ != key,
    ensures
        !object@.contains_key(key),
        forall|i: int|
            at <= i < object.entries@.len() ==> text::text_lt(
                key,
                (#[trigger] object.entries@[i]).key@,
            ),
{
    assert forall|i: int| at <= i < object.entries@.len() implies text::text_lt(
        key,
        (#[trigger] object.entries@[i]).key@,
    ) by {
        text::text_order(object.entries@[at].key@, key);
        if i > at {
            assert(text::text_lt(object.entries@[at].key@, object.entries@[i].key@));
            text::text_transitive(key, object.entries@[at].key@, object.entries@[i].key@);
        }
    }
    assert forall|i: int| 0 <= i < object.entries@.len() implies (#[trigger] object.entries@[i]).key@
        != key by {
        text::text_order(object.entries@[i].key@, key);
    }
    absent_from_view(object, key);
}

/// Entering a key where it stands keeps the keys in order.
proof fn inserted_sorted(entries: Seq<Entry>, entry: Entry, at: int)
    requires
        sorted(entries),
        0 <= at <= entries.len(),
        forall|i: int| 0 <= i < at ==> text::text_lt((#[trigger] entries[i]).key@, entry.key@),
        forall|i: int|
            at <= i < entries.len() ==> text::text_lt(entry.key@, (#[trigger] entries[i]).key@),
    ensures
        sorted(entries.insert(at, entry)),
{
    let after = entries.insert(at, entry);
    assert forall|i: int, j: int| 0 <= i < j < after.len() implies text::text_lt(
        #[trigger] after[i].key@,
        #[trigger] after[j].key@,
    ) by {
        let k = if i < at {
            i
        } else {
            i - 1
        };
        let l = if j < at {
            j
        } else {
            j - 1
        };
        if i != at && j != at {
            assert(text::text_lt(entries[k].key@, entries[l].key@));
        }
    }
}

proof fn inserted_view(was: &Object, now: &Object, key: Seq<char>, at: int)
    requires
        sorted(was.entries@),
        sorted(now.entries@),
        0 <= at < now.entries@.len(),
        now.entries@ == was.entries@.insert(at, now.entries@[at]),
        now.entries@.len() == was.entries@.len() + 1,
        now.entries@[at].key@ == key,
        !was@.contains_key(key),
    ensures
        now@ == was@.insert(key, now.entries@[at].value@),
{
    let want = was@.insert(key, now.entries@[at].value@);
    assert forall|k: Seq<char>| #[trigger] now@.dom().contains(k) implies want.dom().contains(k)
        && now@[k] == want[k] by {
        let i = choose|i: int| #[trigger] keyed(now.entries@, k, i);
        entry_in_view(now, i);
        if i < at {
            assert(now.entries@[i] == was.entries@[i]);
            entry_in_view(was, i);
            assert(was@.contains_key(k));
        } else if i > at {
            assert(now.entries@[i] == was.entries@[i - 1]);
            entry_in_view(was, i - 1);
            assert(was@.contains_key(k));
        }
    }
    assert forall|k: Seq<char>| #[trigger] want.dom().contains(k) implies now@.dom().contains(k) by {
        if k == key {
            entry_in_view(now, at);
        } else {
            assert(was@.dom().contains(k));
            let i = choose|i: int| #[trigger] keyed(was.entries@, k, i);
            if i < at {
                assert(now.entries@[i] == was.entries@[i]);
                entry_in_view(now, i);
            } else {
                assert(now.entries@[i + 1] == was.entries@[i]);
                entry_in_view(now, i + 1);
            }
        }
    }
    assert(now@.dom() =~= want.dom());
    assert(now@ =~= want);
}

proof fn replaced_view(was: &Object, now: &Object, key: Seq<char>, at: int)
    requires
        sorted(was.entries@),
        sorted(now.entries@),
        0 <= at < was.entries@.len(),
        now.entries@ == was.entries@.update(at, now.entries@[at]),
        was.entries@[at].key@ == key,
        now.entries@[at].key@ == key,
    ensures
        now@ == was@.insert(key, now.entries@[at].value@),
{
    let want = was@.insert(key, now.entries@[at].value@);
    assert forall|k: Seq<char>| #[trigger] now@.dom().contains(k) implies want.dom().contains(k)
        && now@[k] == want[k] by {
        let i = choose|i: int| #[trigger] keyed(now.entries@, k, i);
        entry_in_view(now, i);
        if i != at {
            assert(now.entries@[i] == was.entries@[i]);
            entry_in_view(was, i);
            assert(was@.contains_key(k));
            if k == key {
                one_entry(now.entries@, k, i, at);
            }
        }
    }
    assert forall|k: Seq<char>| #[trigger] want.dom().contains(k) implies now@.dom().contains(k) by {
        if k == key {
            entry_in_view(now, at);
        } else {
            assert(was@.dom().contains(k));
            let i = choose|i: int| #[trigger] keyed(was.entries@, k, i);
            assert(now.entries@[i] == was.entries@[i]);
            entry_in_view(now, i);
        }
    }
    assert(now@.dom() =~= want.dom());
    assert(now@ =~= want);
}

proof fn removed_view(was: &Object, now: &Object, key: Seq<char>, at: int)
    requires
        sorted(was.entries@),
        sorted(now.entries@),
        0 <= at < was.entries@.len(),
        now.entries@ == was.entries@.remove(at),
        was.entries@[at].key@ == key,
    ensures
        now@ == was@.remove(key),
{
    let want = was@.remove(key);
    assert forall|k: Seq<char>| #[trigger] now@.dom().contains(k) implies want.dom().contains(k)
        && now@[k] == want[k] by {
        let i = choose|i: int| #[trigger] keyed(now.entries@, k, i);
        entry_in_view(now, i);
        let j = if i < at {
            i
        } else {
            i + 1
        };
        assert(now.entries@[i] == was.entries@[j]);
        entry_in_view(was, j);
        assert(was@.contains_key(k));
        if k == key {
            assert(keyed(was.entries@, key, j));
            assert(keyed(was.entries@, key, at));
            one_entry(was.entries@, key, j, at);
        }
    }
    assert forall|k: Seq<char>| #[trigger] want.dom().contains(k) implies now@.dom().contains(k) by {
        assert(was@.dom().contains(k));
        let i = choose|i: int| #[trigger] keyed(was.entries@, k, i);
        assert(i != at);
        let j = if i < at {
            i
        } else {
            i - 1
        };
        assert(now.entries@[j] == was.entries@[i]);
        entry_in_view(now, j);
    }
    assert(now@.dom() =~= want.dom());
    assert(now@ =~= want);
}

impl Json {
    /// The value as a whole number that is not below zero.
    pub open spec fn as_u64(self) -> Option<u64> {
        match self {
            Json::Number(Number::PosInt(n)) => Some(n),
            _ => None,
        }
    }

    /// The value as text.
    pub open spec fn as_text(self) -> Option<Seq<char>> {
        match self {
            Json::String(s) => Some(s),
            _ => None,
        }
    }
}

/// An integer as a number.
pub closed spec fn integer(i: i64) -> Number {
    if i < 0 {
        Number::NegInt(Negative { value: i })
    } else {
        Number::PosInt(i as u64)
    }
}

/// The number an integer is has its value.
pub proof fn integers_have_values(i: i64)
    ensures
        integer(i).valid(),
        integer(i).i64_value() == Some(i),
        i >= 0 ==> integer(i) == Number::PosInt(i as u64),
        i < 0 ==> integer(i) is NegInt,
{
}

impl Number {
    /// Whether a number below zero is one: what [`Negative`] keeps.
    pub open spec fn valid(self) -> bool {
        self is NegInt ==> self->NegInt_0.amount() < 0
    }

    /// The number as an `i64`, when it is an integer in that range.
    pub open spec fn i64_value(self) -> Option<i64> {
        match self {
            Number::PosInt(n) => if n <= i64::MAX {
                Some(n as i64)
            } else {
                None
            },
            Number::NegInt(n) => Some(n.amount()),
            Number::Real(_) => None,
        }
    }

    pub fn as_i64(&self) -> (value: Option<i64>)
        ensures
            value == self.i64_value(),
    {
        match self {
            Number::PosInt(n) => if *n <= i64::MAX as u64 {
                Some(*n as i64)
            } else {
                None
            },
            Number::NegInt(n) => Some(n.get()),
            Number::Real(_) => None,
        }
    }

    /// An integer as a number.
    pub fn from_i64(i: i64) -> (number: Number)
        ensures
            number == integer(i),
    {
        match Negative::new(i) {
            Some(negative) => Number::NegInt(negative),
            None => Number::PosInt(i as u64),
        }
    }
}

impl Value {
    /// A whole number.
    pub fn unsigned(n: u64) -> (value: Value)
        ensures
            value@ == Json::Number(Number::PosInt(n)),
    {
        Value::Number(Number::PosInt(n))
    }

    /// A text.
    pub fn text(s: &str) -> (value: Value)
        ensures
            value@ == Json::String(s@),
    {
        Value::String(s.to_owned())
    }

    /// An object with no keys.
    pub fn empty_object() -> (value: Value)
        ensures
            value@ == Json::Object(Map::<Seq<char>, Json>::empty()),
    {
        Value::Object(Object::new())
    }

    pub fn is_object(&self) -> (yes: bool)
        ensures
            yes == (self@ is Object),
    {
        matches!(self, Value::Object(_))
    }

    pub fn is_u64(&self) -> (yes: bool)
        ensures
            yes == (self@.as_u64() is Some),
    {
        matches!(self, Value::Number(Number::PosInt(_)))
    }

    pub fn as_u64(&self) -> (value: Option<u64>)
        ensures
            value == self@.as_u64(),
    {
        match self {
            Value::Number(Number::PosInt(n)) => Some(*n),
            _ => None,
        }
    }

    pub fn as_str(&self) -> (value: Option<&str>)
        ensures
            value is Some <==> self@.as_text() is Some,
            value is Some ==> Some(value->0@) == self@.as_text(),
    {
        match self {
            Value::String(s) => Some(s.as_str()),
            _ => None,
        }
    }
}

/// The list with `key` put where it stands in text order.
spec fn entered(keys: Seq<Seq<char>>, key: Seq<char>) -> Seq<Seq<char>>
    decreases keys.len(),
{
    if keys.len() == 0 {
        seq![key]
    } else if key == keys[0] {
        keys
    } else if text::text_lt(key, keys[0]) {
        seq![key] + keys
    } else {
        seq![keys[0]] + entered(keys.drop_first(), key)
    }
}

proof fn entered_in_order(keys: Seq<Seq<char>>, key: Seq<char>)
    requires
        in_order(keys),
    ensures
        in_order(entered(keys, key)),
        forall|k: Seq<char>|
            #[trigger] entered(keys, key).contains(k) <==> keys.contains(k) || k == key,
    decreases keys.len(),
{
    let after = entered(keys, key);
    if keys.len() == 0 {
        assert(after[0] == key);
    } else if key == keys[0] {
    } else {
        text::text_order(key, keys[0]);
        if text::text_lt(key, keys[0]) {
            assert forall|i: int, j: int| 0 <= i < j < after.len() implies text::text_lt(
                #[trigger] after[i],
                #[trigger] after[j],
            ) by {
                if i == 0 && j > 1 {
                    assert(text::text_lt(keys[0], keys[j - 1]));
                    text::text_transitive(key, keys[0], keys[j - 1]);
                } else if i > 0 {
                    assert(text::text_lt(keys[i - 1], keys[j - 1]));
                }
            }
            assert forall|k: Seq<char>| #[trigger] after.contains(k) <==> keys.contains(k) || k
                == key by {
                if keys.contains(k) {
                    let i = choose|i: int| 0 <= i < keys.len() && keys[i] == k;
                    assert(after[i + 1] == k);
                }
                if k == key {
                    assert(after[0] == k);
                }
            }
        } else {
            let rest = keys.drop_first();
            assert(in_order(rest)) by {
                assert forall|i: int, j: int| 0 <= i < j < rest.len() implies text::text_lt(
                    #[trigger] rest[i],
                    #[trigger] rest[j],
                ) by {
                    assert(text::text_lt(keys[i + 1], keys[j + 1]));
                }
            }
            entered_in_order(rest, key);
            let tail = entered(rest, key);
            assert forall|i: int, j: int| 0 <= i < j < after.len() implies text::text_lt(
                #[trigger] after[i],
                #[trigger] after[j],
            ) by {
                if i == 0 {
                    assert(after[j] == tail[j - 1]);
                    assert(tail.contains(tail[j - 1]));
                    if tail[j - 1] != key {
                        let l = choose|l: int| 0 <= l < rest.len() && rest[l] == tail[j - 1];
                        assert(text::text_lt(keys[0], keys[l + 1]));
                    }
                } else {
                    assert(text::text_lt(tail[i - 1], tail[j - 1]));
                }
            }
            assert forall|k: Seq<char>| #[trigger] after.contains(k) <==> keys.contains(k) || k
                == key by {
                if after.contains(k) {
                    let i = choose|i: int| 0 <= i < after.len() && after[i] == k;
                    if i > 0 {
                        assert(tail[i - 1] == k);
                        assert(tail.contains(k));
                        if k != key {
                            let l = choose|l: int| 0 <= l < rest.len() && rest[l] == k;
                            assert(keys[l + 1] == k);
                        }
                    } else {
                        assert(keys[0] == k);
                    }
                }
                if keys.contains(k) || k == key {
                    if keys[0] == k {
                        assert(after[0] == k);
                    } else {
                        if k != key {
                            let l = choose|l: int| 0 <= l < keys.len() && keys[l] == k;
                            assert(rest[l - 1] == k);
                            assert(rest.contains(k));
                        }
                        assert(tail.contains(k));
                        let l = choose|l: int| 0 <= l < tail.len() && tail[l] == k;
                        assert(after[l + 1] == k);
                    }
                }
            }
        }
    }
}

/// The keys of a finite object can be listed in text order.
pub proof fn keys_can_be_listed(map: Map<Seq<char>, Json>)
    requires
        map.dom().finite(),
    ensures
        lists_keys(map, ordered_keys(map)),
    decreases map.dom().len(),
{
    if map.dom().len() == 0 {
        let none = Seq::<Seq<char>>::empty();
        assert forall|key: Seq<char>| #[trigger] map.contains_key(key) <==> none.contains(key) by {
            assert(map.dom() =~= Set::empty());
        }
        assert(lists_keys(map, none));
    } else {
        let key = map.dom().choose();
        let rest = map.remove(key);
        keys_can_be_listed(rest);
        let keys = ordered_keys(rest);
        entered_in_order(keys, key);
        let all = entered(keys, key);
        assert forall|k: Seq<char>| #[trigger] map.contains_key(k) <==> all.contains(k) by {
            assert(rest.contains_key(k) <==> keys.contains(k));
            if k != key {
                assert(map.dom().contains(k) <==> rest.dom().contains(k));
            }
        }
        assert(lists_keys(map, all));
    }
}

/// Integers with one value are one number.
pub proof fn integers_are_told_by_value(a: Number, b: Number)
    requires
        a.valid(),
        b.valid(),
        a.i64_value() is Some,
        a.i64_value() == b.i64_value(),
    ensures
        a == b,
{
}

/// A value is read as a whole number exactly when it is one that is not below
/// zero, and as text exactly when it is a string.
pub proof fn values_are_read_as_what_they_are(value: Json)
    ensures
        value.as_u64() is Some <==> value is Number && value->Number_0 is PosInt,
        value.as_u64() is Some ==> value.as_u64()->0 == value->Number_0->PosInt_0,
        value.as_text() is Some <==> value is String,
        value.as_text() is Some ==> value.as_text()->0 == value->String_0,
        value matches Json::Number(Number::PosInt(n)) ==> (value->Number_0.i64_value() is Some
            <==> n <= i64::MAX),
        value matches Json::Number(Number::PosInt(n)) ==> (n <= i64::MAX
            ==> value->Number_0.i64_value() == Some(n as i64)),
        value matches Json::Number(Number::NegInt(n)) ==> value->Number_0.i64_value() == Some(
            n.amount(),
        ),
        value matches Json::Number(Number::Real(_)) ==> value->Number_0.i64_value() is None,
{
}

/// A value holds what its variant carries: an array each of its items, in
/// order.
pub proof fn values_hold_what_they_carry(value: Value, i: int)
    ensures
        value is Null ==> value@ is Null,
        value matches Value::Bool(b) ==> value@ == Json::Bool(b),
        value matches Value::Number(n) ==> value@ == Json::Number(n),
        value matches Value::String(s) ==> value@ == Json::String(s@),
        value matches Value::Array(items) ==> value@ is Array && value@->Array_0.len()
            == items@.len() && (0 <= i < items@.len() ==> value@->Array_0[i] == items@[i]@),
        value matches Value::Object(object) ==> value@ == Json::Object(object@),
{
}

/// An object's keys in order are all of its keys, each once, smaller before
/// larger.
pub proof fn ordered_keys_are_all_keys(map: Map<Seq<char>, Json>)
    requires
        map.dom().finite(),
    ensures
        forall|key: Seq<char>| #[trigger]
            map.contains_key(key) <==> exists|i: int|
                0 <= i < ordered_keys(map).len() && #[trigger] ordered_keys(map)[i] == key,
        forall|i: int, j: int|
            0 <= i < j < ordered_keys(map).len() ==> text::text_lt(
                #[trigger] ordered_keys(map)[i],
                #[trigger] ordered_keys(map)[j],
            ),
{
    keys_can_be_listed(map);
    let keys = ordered_keys(map);
    assert forall|key: Seq<char>| #[trigger] map.contains_key(key) <==> exists|i: int|
        0 <= i < keys.len() && #[trigger] keys[i] == key by {
        if map.contains_key(key) {
            assert(keys.contains(key));
            let i = choose|i: int| 0 <= i < keys.len() && keys[i] == key;
            assert(keys[i] == key);
        }
        if exists|i: int| 0 <= i < keys.len() && #[trigger] keys[i] == key {
            assert(keys.contains(key));
        }
    }
}

} // verus!
