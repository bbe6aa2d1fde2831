//! JSON text: what is written into a column or a file, and what is read out of
//! it again. The text itself is `serde_json`'s.

use serde_json::{Error as JsonError, Value as JsonValue};
use vstd::prelude::*;

use super::{Json, Negative, Number, Object, Real, Value};

verus! {

/// `serde_json::Value`, the value that crate reads and writes.
#[verifier::external_type_specification]
#[verifier::external_body]
pub struct ExValue(JsonValue);

/// `serde_json::Error`, what reading or writing text can fail with.
#[verifier::external_type_specification]
#[verifier::external_body]
pub struct ExError(JsonError);

/// What a `serde_json::Value` holds.
pub uninterp spec fn tree(value: JsonValue) -> Json;

/// One layer of a `serde_json::Value`: what it is, down to the values directly
/// inside it.
enum Layer {
    Null,
    Bool(bool),
    Number(Number),
    String(String),
    Array(Vec<JsonValue>),
    Object(Vec<(String, JsonValue)>),
}

/// The map some entries make, a later one replacing an earlier of the same
/// key.
spec fn gathered(entries: Seq<(String, JsonValue)>) -> Map<Seq<char>, Json>
    decreases entries.len(),
{
    if entries.len() == 0 {
        Map::empty()
    } else {
        gathered(entries.drop_last()).insert(entries.last().0@, tree(entries.last().1))
    }
}

/// Whether no two entries have the same key.
spec fn keys_apart(entries: Seq<(String, JsonValue)>) -> bool {
    forall|i: int, j: int|
        0 <= i < j < entries.len() ==> (#[trigger] entries[i]).0@ != (#[trigger] entries[j]).0@
}

impl Layer {
    spec fn view(&self) -> Json {
        match *self {
            Layer::Null => Json::Null,
            Layer::Bool(b) => Json::Bool(b),
            Layer::Number(n) => Json::Number(n),
            Layer::String(s) => Json::String(s@),
            Layer::Array(items) => Json::Array(Seq::new(items@.len(), |i: int| tree(items@[i]))),
            Layer::Object(entries) => Json::Object(gathered(entries@)),
        }
    }
}

/// The variants of `serde_json::Value` told apart, and its numbers by
/// `Number::as_u64` and `Number::as_i64`: the layer holds what the value
/// holds, and the entries of an object have different keys.
#[verifier::external_body]
fn take_apart(value: JsonValue) -> (layer: Layer)
    ensures
        layer@ == tree(value),
        layer matches Layer::Object(entries) ==> keys_apart(entries@),
{
    match value {
        JsonValue::Null => Layer::Null,
        JsonValue::Bool(b) => Layer::Bool(b),
        JsonValue::Number(n) => Layer::Number(match (n.as_u64(), n.as_i64()) {
            (Some(u), _) => Number::PosInt(u),
            (None, Some(i)) => Number::NegInt(Negative { value: i }),
            (None, None) => Number::Real(Real { number: n }),
        }),
        JsonValue::String(s) => Layer::String(s),
        JsonValue::Array(items) => Layer::Array(items),
        JsonValue::Object(map) => Layer::Object(map.into_iter().collect()),
    }
}

/// The variants of `serde_json::Value` built from a layer, its numbers by
/// `Number::from`: the value holds what the layer holds.
#[verifier::external_body]
fn put_together(layer: Layer) -> (value: JsonValue)
    ensures
        tree(value) == layer@,
{
    match layer {
        Layer::Null => JsonValue::Null,
        Layer::Bool(b) => JsonValue::Bool(b),
        Layer::Number(Number::PosInt(n)) => JsonValue::Number(n.into()),
        Layer::Number(Number::NegInt(n)) => JsonValue::Number(n.value.into()),
        Layer::Number(Number::Real(n)) => JsonValue::Number(n.number),
        Layer::String(s) => JsonValue::String(s),
        Layer::Array(items) => JsonValue::Array(items),
        Layer::Object(entries) => JsonValue::Object(entries.into_iter().collect()),
    }
}

/// What `serde_json::from_str` reads out of a text: the value, or what it says
/// is wrong with it.
pub uninterp spec fn parsed(text: Seq<char>) -> Result<Json, Seq<char>>;

/// What `serde_json::to_string` writes for a value.
pub uninterp spec fn rendered(value: Json) -> Seq<char>;

/// How many arrays and objects of a value stand one inside the other.
pub open spec fn within(value: Json, depth: nat) -> bool
    decreases depth,
{
    match value {
        Json::Array(items) => depth > 0 && forall|i: int|
            0 <= i < items.len() ==> within(#[trigger] items[i], (depth - 1) as nat),
        Json::Object(object) => depth > 0 && forall|key: Seq<char>| #[trigger]
            object.contains_key(key) ==> within(object[key], (depth - 1) as nat),
        Json::Number(number) => !(number is Real),
        _ => true,
    }
}

/// How deep a value may be nested and still be read: the 128th level is
/// refused by the parser.
pub const READABLE_DEPTH: usize = 127;

/// Whether a value is sure to be read back from its text as it was: it is not
/// nested too deep to be read, and every number in it is an integer.
pub open spec fn survives(value: Json) -> bool {
    within(value, READABLE_DEPTH as nat)
}

/// Whether a text is one line.
pub open spec fn single_line(text: Seq<char>) -> bool {
    !text.contains('\n')
}

/// Whether a text is read as a value.
pub open spec fn reads_as(text: Seq<char>, value: Json) -> bool {
    parsed(text) is Ok && parsed(text)->Ok_0 == value
}

/// `serde_json::from_str` into a `serde_json::Value`, with its error in words:
/// the outcome is named by the text alone.
#[verifier::external_body]
fn parse_outside(text: &str) -> (outcome: Result<JsonValue, String>)
    ensures
        outcome is Ok <==> parsed(text@) is Ok,
        outcome is Ok ==> tree(outcome->Ok_0) == parsed(text@)->Ok_0,
        outcome is Err ==> outcome->Err_0@ == parsed(text@)->Err_0,
{
    serde_json::from_str(text).map_err(|error: JsonError| error.to_string())
}

/// `serde_json::to_string` of a `serde_json::Value`, which fails on none: the
/// text is named by what the value holds, it is one line, and `from_str` gives
/// the value back where it is one that survives.
#[verifier::external_body]
fn render_outside(value: &JsonValue) -> (outcome: Result<String, JsonError>)
    ensures
        outcome is Ok,
        outcome->Ok_0@ == rendered(tree(*value)),
        single_line(outcome->Ok_0@),
        survives(tree(*value)) ==> reads_as(outcome->Ok_0@, tree(*value)),
{
    serde_json::to_string(value)
}

/// What an entry adds is what the map holds for it, as long as keys differ.
proof fn gathered_holds(entries: Seq<(String, JsonValue)>, i: int)
    requires
        keys_apart(entries),
        0 <= i < entries.len(),
    ensures
        gathered(entries).contains_key(entries[i].0@),
        gathered(entries)[entries[i].0@] == tree(entries[i].1),
        gathered(entries).dom().finite(),
    decreases entries.len(),
{
    let front = entries.drop_last();
    gathered_is_finite(entries);
    if i < front.len() {
        assert(front[i] == entries[i]);
        assert(keys_apart(front)) by {
            assert forall|a: int, b: int| 0 <= a < b < front.len() implies (#[trigger] front[a]).0@
                != (#[trigger] front[b]).0@ by {
                assert(entries[a].0@ != entries[b].0@);
            }
        }
        gathered_holds(front, i);
        assert(entries[i].0@ != entries[entries.len() - 1].0@);
    }
}

proof fn gathered_is_finite(entries: Seq<(String, JsonValue)>)
    ensures
        gathered(entries).dom().finite(),
    decreases entries.len(),
{
    if entries.len() > 0 {
        gathered_is_finite(entries.drop_last());
    }
}

/// A `serde_json::Value` as a value of this library.
pub fn from_outside(value: JsonValue) -> (inside: Value)
    ensures
        inside@ == tree(value),
    decreases tree(value),
{
    let ghost held = tree(value);
    match take_apart(value) {
        Layer::Null => Value::Null,
        Layer::Bool(b) => Value::Bool(b),
        Layer::Number(n) => Value::Number(n),
        Layer::String(s) => Value::String(s),
        Layer::Array(items) => {
            let ghost given = items@;
            let mut copies: Vec<Value> = Vec::new();
            #[verifier::loop_isolation(false)]
            for item in it: items
                invariant
                    it.seq() == given,
                    held == Json::Array(Seq::new(given.len(), |i: int| tree(given[i]))),
                    copies@.len() == it.index(),
                    forall|j: int| 0 <= j < it.index() ==> (#[trigger] copies@[j])@ == tree(given[j]),
            {
                proof {
                    let inner = held->Array_0;
                    assert(inner[it.index() as int] == tree(item));
                    assert(decreases_to!(held => inner[it.index() as int]));
                }
                copies.push(from_outside(item));
            }
            let inside = Value::Array(copies);
            proof {
                assert(inside@->Array_0 =~= held->Array_0);
            }
            inside
        },
        Layer::Object(entries) => {
            let ghost given = entries@;
            let mut object = Object::new();
            proof {
                assert(given.take(0) =~= Seq::<(String, JsonValue)>::empty());
            }
            #[verifier::loop_isolation(false)]
            for entry in it: entries
                invariant
                    it.seq() == given,
                    keys_apart(given),
                    held == Json::Object(gathered(given)),
                    object@ == gathered(given.take(it.index() as int)),
            {
                let ghost i = it.index() as int;
                proof {
                    assert(given.take(i + 1).drop_last() =~= given.take(i));
                    assert(given.take(i + 1).last() == given[i]);
                    gathered_holds(given, i);
                    let inner = held->Object_0;
                    assert(decreases_to!(held => inner[given[i].0@]));
                }
                let (key, value) = entry;
                let inside = from_outside(value);
                object.insert(key, inside);
            }
            proof {
                assert(given.take(given.len() as int) =~= given);
            }
            Value::Object(object)
        },
    }
}

/// A value of this library as a `serde_json::Value`.
pub fn to_outside(value: &Value) -> (outside: JsonValue)
    ensures
        tree(outside) == value@,
    decreases value,
{
    match value {
        Value::Null => put_together(Layer::Null),
        Value::Bool(b) => put_together(Layer::Bool(*b)),
        Value::Number(n) => put_together(Layer::Number(n.clone())),
        Value::String(s) => put_together(Layer::String(s.clone())),
        Value::Array(items) => {
            let mut outer: Vec<JsonValue> = Vec::new();
            let mut i: usize = 0;
            #[verifier::loop_isolation(false)]
            while i < items.len()
                invariant
                    i <= items@.len(),
                    outer@.len() == i,
                    forall|j: int| 0 <= j < i ==> tree(#[trigger] outer@[j]) == items@[j]@,
                decreases items@.len() - i,
            {
                let item = &items[i];
                outer.push(to_outside(item));
                i += 1;
            }
            let layer = Layer::Array(outer);
            proof {
                assert(layer@->Array_0 =~= value@->Array_0);
            }
            put_together(layer)
        },
        Value::Object(object) => object_to_outside(object),
    }
}

fn object_to_outside(object: &Object) -> (outside: JsonValue)
    ensures
        tree(outside) == Json::Object(object@),
    decreases object,
{
    proof {
        use_type_invariant(object);
    }
    let mut outer: Vec<(String, JsonValue)> = Vec::new();
    let mut i: usize = 0;
    #[verifier::loop_isolation(false)]
    while i < object.entries.len()
        invariant
            i <= object.entries@.len(),
            outer@.len() == i,
            forall|j: int|
                0 <= j < i ==> (#[trigger] outer@[j]).0@ == object.entries@[j].key@ && tree(
                    outer@[j].1,
                ) == object.entries@[j].value@,
        decreases object.entries@.len() - i,
    {
        let entry = &object.entries[i];
        outer.push((entry.key.clone(), to_outside(&entry.value)));
        i += 1;
    }
    proof {
        entries_gather(object, outer@);
    }
    put_together(Layer::Object(outer))
}

/// Entries that list an object's gather to its map.
proof fn entries_gather(object: &Object, outer: Seq<(String, JsonValue)>)
    requires
        super::sorted(object.entries@),
        outer.len() == object.entries@.len(),
        forall|j: int|
            0 <= j < outer.len() ==> (#[trigger] outer[j]).0@ == object.entries@[j].key@ && tree(
                outer[j].1,
            ) == object.entries@[j].value@,
    ensures
        gathered(outer) == object@,
{
    assert forall|i: int, j: int| 0 <= i < j < outer.len() implies (#[trigger] outer[i]).0@ != (
    #[trigger] outer[j]).0@ by {
        if object.entries@[i].key@ == object.entries@[j].key@ {
            assert(super::keyed(object.entries@, object.entries@[i].key@, i));
            assert(super::keyed(object.entries@, object.entries@[i].key@, j));
            super::one_entry(object.entries@, object.entries@[i].key@, i, j);
        }
    }
    let map = gathered(outer);
    assert forall|key: Seq<char>| #[trigger] object@.dom().contains(key) implies map.dom().contains(
        key,
    ) && map[key] == object@[key] by {
        let i = choose|i: int| #[trigger] super::keyed(object.entries@, key, i);
        gathered_holds(outer, i);
        super::entry_in_view(object, i);
        assert(outer[i].0@ == key);
    }
    assert forall|key: Seq<char>| #[trigger] map.dom().contains(key) implies object@.dom().contains(
        key,
    ) by {
        let i = gathered_came_from(outer, key);
        super::entry_in_view(object, i);
        assert(outer[i].0@ == key);
    }
    assert(map.dom() =~= object@.dom());
    assert(map =~= object@);
}

proof fn gathered_came_from(entries: Seq<(String, JsonValue)>, key: Seq<char>) -> (i: int)
    requires
        gathered(entries).contains_key(key),
    ensures
        0 <= i < entries.len(),
        entries[i].0@ == key,
    decreases entries.len(),
{
    if entries.last().0@ == key {
        entries.len() - 1
    } else {
        gathered_came_from(entries.drop_last(), key)
    }
}

impl Value {
    /// The value as JSON text.
    pub fn render(&self) -> (text: String)
        ensures
            text@ == rendered(self@),
            single_line(text@),
            survives(self@) ==> reads_as(text@, self@),
    {
        let outside = to_outside(self);
        match render_outside(&outside) {
            Ok(text) => text,
            Err(_) => String::new(),
        }
    }

    /// The value a JSON text holds, or what is wrong with the text.
    pub fn parse(text: &str) -> (value: Result<Value, String>)
        ensures
            value is Ok <==> parsed(text@) is Ok,
            value is Ok ==> value->Ok_0@ == parsed(text@)->Ok_0,
            value is Err ==> value->Err_0@ == parsed(text@)->Err_0,
    {
        match parse_outside(text) {
            Ok(outside) => Ok(from_outside(outside)),
            Err(said) => Err(said),
        }
    }
}

} // verus!
