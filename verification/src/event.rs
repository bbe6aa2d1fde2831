//! The event envelope: what a caller may write, and what the store stamps.
//!
//! An event is a JSON object with three caller-facing keys and three the
//! store stamps, and no others: `kind` says what happened, `meta` is a shallow
//! object of scalars, `data` is the kind's own content; `seq`, `epoch_ms` and
//! `_schema_version` are written on the way in. The last is the author's to
//! choose and defaulted when it was left out.

use vstd::prelude::*;

use crate::error::{Error, Failure};
use crate::json::{self, Json, Number, Object, Value};
use crate::text;

verus! {

/// Caller-written: what happened. Required, and a string.
pub const FIELD_KIND: &'static str = "kind";

/// Caller-written: a shallow object of scalars, for what readers filter by.
pub const FIELD_META: &'static str = "meta";

/// Caller-written: the kind's own content, of any depth.
pub const FIELD_DATA: &'static str = "data";

/// Store-written: per-stream sequence, from 1, strictly increasing.
pub const FIELD_SEQ: &'static str = "seq";

/// Store-written: the event's time coordinate, milliseconds since the epoch.
pub const FIELD_EPOCH_MS: &'static str = "epoch_ms";

/// Store-written: the schema version the event was written under.
pub const FIELD_SCHEMA_VERSION: &'static str = "_schema_version";

/// What an event is stamped with when its author did not say.
pub const DEFAULT_SCHEMA_VERSION: u64 = 1;

/// The default under its older name.
pub const CURRENT_SCHEMA_VERSION: u64 = DEFAULT_SCHEMA_VERSION;

/// The JSON type of a value, as a refusal names it.
pub open spec fn type_text(value: Json) -> Seq<char> {
    match value {
        Json::Null => "null"@,
        Json::Bool(_) => "a boolean"@,
        Json::Number(_) => "a number"@,
        Json::String(_) => "a string"@,
        Json::Array(_) => "an array"@,
        Json::Object(_) => "an object"@,
    }
}

/// Whether a caller may set this top-level key.
pub open spec fn caller_key(key: Seq<char>) -> bool {
    key == FIELD_KIND@ || key == FIELD_META@ || key == FIELD_DATA@ || key == FIELD_SCHEMA_VERSION@
}

/// Whether a value may stand under `meta`: a string, a number or a boolean.
pub open spec fn scalar(value: Json) -> bool {
    value is String || value is Number || value is Bool
}

/// Why `kind` is refused in a new event, if it is.
pub open spec fn kind_refusal(event: Map<Seq<char>, Json>) -> Option<Seq<char>> {
    if !event.contains_key(FIELD_KIND@) {
        Some("`kind` is required"@)
    } else {
        match event[FIELD_KIND@] {
            Json::String(kind) => if kind.len() == 0 {
                Some("`kind` must not be empty"@)
            } else {
                None
            },
            other => Some("`kind` must be a string, found "@ + type_text(other)),
        }
    }
}

/// Why the first of these `meta` keys that is refused is, if one is.
pub open spec fn meta_scan(meta: Map<Seq<char>, Json>, keys: Seq<Seq<char>>) -> Option<Seq<char>>
    decreases keys.len(),
{
    if keys.len() == 0 {
        None
    } else if !scalar(meta[keys[0]]) {
        Some(
            "`meta."@ + keys[0] + "` must be a string, number or boolean, found "@ + type_text(
                meta[keys[0]],
            ) + "; a structured value goes under `data`"@,
        )
    } else {
        meta_scan(meta, keys.drop_first())
    }
}

/// Why a `meta` value is refused, if it is.
pub open spec fn meta_refusal(meta: Json) -> Option<Seq<char>> {
    match meta {
        Json::Object(object) => meta_scan(object, json::ordered_keys(object)),
        other => Some("`meta` must be an object, found "@ + type_text(other)),
    }
}

/// Why a top-level entry is refused in a new event, if it is.
pub open spec fn caller_entry_refusal(key: Seq<char>, value: Json) -> Option<Seq<char>> {
    if !caller_key(key) {
        Some(
            "unknown top-level key `"@ + key
                + "`; a kind's own fields go under `data`, and a value readers filter by goes under `meta`"@,
        )
    } else if key == FIELD_META@ {
        meta_refusal(value)
    } else if key == FIELD_DATA@ && !(value is Object) {
        Some("`data` must be an object, found "@ + type_text(value))
    } else if key == FIELD_SCHEMA_VERSION@ && value.as_u64() is None {
        Some("`_schema_version` must be a non-negative integer, found "@ + type_text(value))
    } else {
        None
    }
}

/// Why the first of these keys that is refused in a new event is, if one is.
pub open spec fn caller_scan(event: Map<Seq<char>, Json>, keys: Seq<Seq<char>>) -> Option<Seq<char>>
    decreases keys.len(),
{
    if keys.len() == 0 {
        None
    } else {
        match caller_entry_refusal(keys[0], event[keys[0]]) {
            Some(message) => Some(message),
            None => caller_scan(event, keys.drop_first()),
        }
    }
}

/// Why a new event is refused, if it is: its `kind` first, then its keys in
/// text order.
pub open spec fn envelope_refusal(event: Map<Seq<char>, Json>) -> Option<Seq<char>> {
    match kind_refusal(event) {
        Some(message) => Some(message),
        None => caller_scan(event, json::ordered_keys(event)),
    }
}

/// Why a top-level entry is refused in a stored event, if it is.
pub open spec fn stored_entry_refusal(key: Seq<char>, value: Json) -> Option<Seq<char>> {
    if !caller_key(key) && key != FIELD_SEQ@ && key != FIELD_EPOCH_MS@ {
        Some("unknown top-level key `"@ + key + "` in a stored event"@)
    } else if key == FIELD_META@ {
        meta_refusal(value)
    } else if key == FIELD_DATA@ && !(value is Object) {
        Some("`data` must be an object, found "@ + type_text(value))
    } else if (key == FIELD_EPOCH_MS@ || key == FIELD_SCHEMA_VERSION@ || key == FIELD_SEQ@)
        && value.as_u64() is None {
        Some("`"@ + key + "` must be a non-negative integer, found "@ + type_text(value))
    } else {
        None
    }
}

/// Why the first of these keys that is refused in a stored event is, if one is.
pub open spec fn stored_scan(event: Map<Seq<char>, Json>, keys: Seq<Seq<char>>) -> Option<Seq<char>>
    decreases keys.len(),
{
    if keys.len() == 0 {
        None
    } else {
        match stored_entry_refusal(keys[0], event[keys[0]]) {
            Some(message) => Some(message),
            None => stored_scan(event, keys.drop_first()),
        }
    }
}

/// Whether `kind` is there and is a string that is not empty.
pub open spec fn has_kind(event: Map<Seq<char>, Json>) -> bool {
    event.contains_key(FIELD_KIND@) && event[FIELD_KIND@] is String
        && event[FIELD_KIND@]->String_0.len() > 0
}

/// Whether a key holds a whole number that is not below zero.
pub open spec fn has_u64(event: Map<Seq<char>, Json>, key: Seq<char>) -> bool {
    event.contains_key(key) && event[key].as_u64() is Some
}

/// Why an event is refused as a stored one, if it is: its keys in text order
/// first, then what must be there.
pub open spec fn stored_refusal(event: Map<Seq<char>, Json>) -> Option<Seq<char>> {
    match stored_scan(event, json::ordered_keys(event)) {
        Some(message) => Some(message),
        None => if !has_kind(event) {
            Some("`kind` is required"@)
        } else if !has_u64(event, FIELD_EPOCH_MS@) {
            Some("a stored event must carry `epoch_ms`"@)
        } else if !has_u64(event, FIELD_SCHEMA_VERSION@) {
            Some("a stored event must carry `_schema_version`"@)
        } else {
            None
        },
    }
}

/// The event with `value` under `key` where it had nothing there.
pub open spec fn defaulted(
    event: Map<Seq<char>, Json>,
    key: Seq<char>,
    value: Json,
) -> Map<Seq<char>, Json> {
    if event.contains_key(key) {
        event
    } else {
        event.insert(key, value)
    }
}

/// A whole number as a JSON value.
pub open spec fn whole(n: u64) -> Json {
    Json::Number(Number::PosInt(n))
}

/// The event with `meta` and `data` there, empty where they were left out.
pub open spec fn with_levels(event: Map<Seq<char>, Json>) -> Map<Seq<char>, Json> {
    let empty = Json::Object(Map::<Seq<char>, Json>::empty());
    defaulted(defaulted(event, FIELD_META@, empty), FIELD_DATA@, empty)
}

/// A new event with the store-written fields filled in.
pub open spec fn stamped(
    event: Map<Seq<char>, Json>,
    seq: u64,
    epoch_ms: u64,
) -> Map<Seq<char>, Json> {
    defaulted(
        with_levels(event).insert(FIELD_SEQ@, whole(seq)).insert(FIELD_EPOCH_MS@, whole(epoch_ms)),
        FIELD_SCHEMA_VERSION@,
        whole(DEFAULT_SCHEMA_VERSION),
    )
}

/// A stored event with a sequence number in its new home.
pub open spec fn restamped(event: Map<Seq<char>, Json>, seq: u64) -> Map<Seq<char>, Json> {
    with_levels(event).insert(FIELD_SEQ@, whole(seq))
}

/// The JSON type of a value, for a refusal that says what was found.
pub fn json_type(value: &Value) -> (name: &'static str)
    ensures
        name@ == type_text(value@),
{
    match value {
        Value::Null => "null",
        Value::Bool(_) => "a boolean",
        Value::Number(_) => "a number",
        Value::String(_) => "a string",
        Value::Array(_) => "an array",
        Value::Object(_) => "an object",
    }
}

/// Whether a caller may set this top-level key.
fn is_caller_key(key: &str) -> (yes: bool)
    ensures
        yes == caller_key(key@),
{
    text::same(key, FIELD_KIND) || text::same(key, FIELD_META) || text::same(key, FIELD_DATA)
        || text::same(key, FIELD_SCHEMA_VERSION)
}

/// `meta` is one level deep and holds scalars only.
fn validate_meta(meta: &Value) -> (checked: Result<(), Error>)
    ensures
        checked is Ok <==> meta_refusal(meta@) is None,
        checked is Ok <==> meta@ is Object && forall|key: Seq<char>| #[trigger]
            meta@->Object_0.contains_key(key) ==> meta@->Object_0[key] is String
                || meta@->Object_0[key] is Number || meta@->Object_0[key] is Bool,
        checked is Err ==> checked->Err_0@ == Failure::Validation(meta_refusal(meta@)->0),
{
    let object = match meta {
        Value::Object(object) => object,
        other => {
            return Err(
                Error::validation(text::cat2("`meta` must be an object, found ", json_type(other))),
            );
        },
    };
    let count: usize = object.len();
    let ghost keys = json::ordered_keys(object@);
    let mut i: usize = 0;
    proof {
        assert(keys.skip(0) == keys);
        meta_of_scalars(object@);
    }
    while i < count
        invariant
            meta@ == Json::Object(object@),
            keys == json::ordered_keys(object@),
            count == keys.len(),
            i <= count,
            meta_scan(object@, keys) == meta_scan(object@, keys.skip(i as int)),
        decreases count - i,
    {
        let key = object.key_at(i);
        let value = object.value_at(i);
        proof {
            assert(keys.skip(i as int)[0] == key@);
            assert(keys.skip(i as int).drop_first() == keys.skip(i + 1));
        }
        match value {
            Value::String(_) | Value::Number(_) | Value::Bool(_) => {},
            other => {
                return Err(
                    Error::validation(
                        text::cat5(
                            "`meta.",
                            key,
                            "` must be a string, number or boolean, found ",
                            json_type(other),
                            "; a structured value goes under `data`",
                        ),
                    ),
                );
            },
        }
        i += 1;
    }
    Ok(())
}

/// Checks that `event` satisfies the envelope contract.
///
/// Called before anything is written, so a refused event leaves no trace and
/// consumes no sequence number.
pub fn validate(event: &Object) -> (checked: Result<(), Error>)
    ensures
        event@.dom().finite(),
        checked is Ok <==> envelope_refusal(event@) is None,
        checked is Ok && event@.contains_key("meta"@) ==> event@["meta"@] is Object
            && forall|key: Seq<char>| #[trigger]
                event@["meta"@]->Object_0.contains_key(key) ==> event@["meta"@]->Object_0[
                    key
                ] is String || event@["meta"@]->Object_0[key] is Number
                    || event@["meta"@]->Object_0[key] is Bool,
        checked is Err ==> checked->Err_0@ == Failure::Validation(envelope_refusal(event@)->0),
{
    let count: usize = event.len();
    match event.get(FIELD_KIND) {
        None => {
            return Err(Error::validation("`kind` is required".to_owned()));
        },
        Some(Value::String(kind)) => {
            if kind.as_str().is_empty() {
                return Err(Error::validation("`kind` must not be empty".to_owned()));
            }
        },
        Some(other) => {
            return Err(
                Error::validation(
                    text::cat2("`kind` must be a string, found ", json_type(other)),
                ),
            );
        },
    }
    let ghost keys = json::ordered_keys(event@);
    let mut i: usize = 0;
    proof {
        assert(keys.skip(0) == keys);
    }
    while i < count
        invariant
            event@.dom().finite(),
            keys == json::ordered_keys(event@),
            json::lists_keys(event@, keys),
            count == keys.len(),
            i <= count,
            kind_refusal(event@) is None,
            caller_scan(event@, keys) == caller_scan(event@, keys.skip(i as int)),
            forall|j: int|
                0 <= j < i && #[trigger] keys[j] == FIELD_META@ ==> event@[keys[j]] is Object
                    && forall|key: Seq<char>| #[trigger]
                    event@[keys[j]]->Object_0.contains_key(key) ==> event@[keys[j]]->Object_0[
                        key
                    ] is String || event@[keys[j]]->Object_0[key] is Number
                        || event@[keys[j]]->Object_0[key] is Bool,
        decreases count - i,
    {
        let key = event.key_at(i);
        let value = event.value_at(i);
        proof {
            assert(keys.skip(i as int)[0] == key@);
            assert(keys.skip(i as int).drop_first() == keys.skip(i + 1));
        }
        if !is_caller_key(key) {
            return Err(
                Error::validation(
                    text::cat3(
                        "unknown top-level key `",
                        key,
                        "`; a kind's own fields go under `data`, and a value readers filter by goes under `meta`",
                    ),
                ),
            );
        }
        if text::same(key, FIELD_META) {
            match validate_meta(value) {
                Ok(()) => {},
                Err(error) => {
                    return Err(error);
                },
            }
        } else if text::same(key, FIELD_DATA) && !value.is_object() {
            return Err(
                Error::validation(text::cat2("`data` must be an object, found ", json_type(value))),
            );
        } else if text::same(key, FIELD_SCHEMA_VERSION) && !value.is_u64() {
            return Err(
                Error::validation(
                    text::cat2(
                        "`_schema_version` must be a non-negative integer, found ",
                        json_type(value),
                    ),
                ),
            );
        }
        i += 1;
    }
    proof {
        if event@.contains_key(FIELD_META@) {
            assert(keys.contains(FIELD_META@));
            let j = choose|j: int| 0 <= j < keys.len() && keys[j] == FIELD_META@;
            assert(keys[j] == FIELD_META@);
        }
    }
    Ok(())
}

/// Checks an event that already carries the store-written fields.
///
/// [`validate`] refuses them, because a caller writing a new event must not
/// choose its own coordinates. An event coming back from another store has
/// them, and what it carries is to survive.
pub fn validate_stored(event: &Object) -> (checked: Result<(), Error>)
    ensures
        event@.dom().finite(),
        checked is Ok <==> stored_refusal(event@) is None,
        checked is Err ==> checked->Err_0@ == Failure::Validation(stored_refusal(event@)->0),
{
    let count: usize = event.len();
    let ghost keys = json::ordered_keys(event@);
    let mut i: usize = 0;
    proof {
        assert(keys.skip(0) == keys);
    }
    while i < count
        invariant
            event@.dom().finite(),
            keys == json::ordered_keys(event@),
            count == keys.len(),
            i <= count,
            stored_scan(event@, keys) == stored_scan(event@, keys.skip(i as int)),
        decreases count - i,
    {
        let key = event.key_at(i);
        let value = event.value_at(i);
        proof {
            assert(keys.skip(i as int)[0] == key@);
            assert(keys.skip(i as int).drop_first() == keys.skip(i + 1));
        }
        let counted = text::same(key, FIELD_EPOCH_MS) || text::same(key, FIELD_SCHEMA_VERSION)
            || text::same(key, FIELD_SEQ);
        if !is_caller_key(key) && !counted {
            return Err(
                Error::validation(
                    text::cat3("unknown top-level key `", key, "` in a stored event"),
                ),
            );
        }
        if text::same(key, FIELD_META) {
            match validate_meta(value) {
                Ok(()) => {},
                Err(error) => {
                    return Err(error);
                },
            }
        } else if text::same(key, FIELD_DATA) && !value.is_object() {
            return Err(
                Error::validation(text::cat2("`data` must be an object, found ", json_type(value))),
            );
        } else if counted && !value.is_u64() {
            return Err(
                Error::validation(
                    text::cat4(
                        "`",
                        key,
                        "` must be a non-negative integer, found ",
                        json_type(value),
                    ),
                ),
            );
        }
        i += 1;
    }
    let named = match event.get(FIELD_KIND) {
        Some(Value::String(kind)) => !kind.as_str().is_empty(),
        _ => false,
    };
    if !named {
        return Err(Error::validation("`kind` is required".to_owned()));
    }
    if !carries_u64(event, FIELD_EPOCH_MS) {
        return Err(Error::validation("a stored event must carry `epoch_ms`".to_owned()));
    }
    if !carries_u64(event, FIELD_SCHEMA_VERSION) {
        return Err(Error::validation("a stored event must carry `_schema_version`".to_owned()));
    }
    Ok(())
}

/// Whether a key holds a whole number that is not below zero.
fn carries_u64(event: &Object, key: &str) -> (yes: bool)
    ensures
        yes == has_u64(event@, key@),
{
    match event.get(key) {
        Some(value) => value.is_u64(),
        None => false,
    }
}

/// Puts an empty object under `meta` and `data` where there is none.
fn fill_levels(event: &mut Object)
    ensures
        final(event)@ == with_levels(old(event)@),
{
    if !event.contains_key(FIELD_META) {
        event.insert(FIELD_META.to_owned(), Value::empty_object());
    }
    if !event.contains_key(FIELD_DATA) {
        event.insert(FIELD_DATA.to_owned(), Value::empty_object());
    }
}

/// Validates `event`, then fills in the store-written fields.
///
/// `meta` and `data` become `{}` where they were left out, so a reader never
/// has to tell an empty object from a missing one; the schema version is kept
/// where the author set one.
pub fn stamp(event: Object, seq: u64, epoch_ms: u64) -> (result: Result<Object, Error>)
    ensures
        event@.dom().finite(),
        result is Ok <==> envelope_refusal(event@) is None,
        result is Ok ==> result->Ok_0@ == stamped(event@, seq, epoch_ms),
        result is Err ==> result->Err_0@ == Failure::Validation(envelope_refusal(event@)->0),
{
    match validate(&event) {
        Ok(()) => {},
        Err(error) => {
            return Err(error);
        },
    }
    let mut event = event;
    fill_levels(&mut event);
    event.insert(FIELD_SEQ.to_owned(), Value::unsigned(seq));
    event.insert(FIELD_EPOCH_MS.to_owned(), Value::unsigned(epoch_ms));
    if !event.contains_key(FIELD_SCHEMA_VERSION) {
        event.insert(FIELD_SCHEMA_VERSION.to_owned(), Value::unsigned(DEFAULT_SCHEMA_VERSION));
    }
    Ok(event)
}

/// Takes an event that already has its own time and schema version, and gives
/// it a sequence number in its new home.
///
/// `seq` is reassigned because it is an allocation of the receiving store;
/// `epoch_ms` and `_schema_version` are kept exactly.
pub fn restamp(stored: Object, seq: u64) -> (result: Result<Object, Error>)
    ensures
        stored@.dom().finite(),
        result is Ok <==> stored_refusal(stored@) is None,
        result is Ok ==> result->Ok_0@ == restamped(stored@, seq),
        result is Err ==> result->Err_0@ == Failure::Validation(stored_refusal(stored@)->0),
{
    match validate_stored(&stored) {
        Ok(()) => {},
        Err(error) => {
            return Err(error);
        },
    }
    let mut stored = stored;
    fill_levels(&mut stored);
    stored.insert(FIELD_SEQ.to_owned(), Value::unsigned(seq));
    Ok(stored)
}

/// `SystemTime::now`, read as the milliseconds past the Unix epoch by
/// `duration_since` and `as_millis`, or `None` where the clock is set before
/// it. Nothing is claimed of the reading: it is the machine's.
#[verifier::external_body]
fn wall_clock() -> (elapsed: Option<u128>) {
    std::time::SystemTime::now()
        .duration_since(std::time::UNIX_EPOCH)
        .ok()
        .map(|elapsed| elapsed.as_millis())
}

/// A clock reading as a time coordinate: 0 for a clock set before the epoch,
/// and the low 64 bits of the milliseconds otherwise.
pub open spec fn coordinate(elapsed: Option<u128>) -> u64 {
    match elapsed {
        Some(ms) => ms as u64,
        None => 0,
    }
}

/// Whether this is what a reading of the clock gave.
pub closed spec fn clock_gave(elapsed: Option<u128>) -> bool {
    call_ensures(wall_clock, (), elapsed)
}

/// Whether a time is that of a reading of the clock.
pub open spec fn read_off_the_clock(ms: u64) -> bool {
    exists|elapsed: Option<u128>| #[trigger] clock_gave(elapsed) && ms == coordinate(elapsed)
}

/// A clock reading as a time coordinate. A wrong timestamp is recoverable and
/// a panic inside a write is not, so a clock before the epoch reads as 0.
pub fn to_epoch_ms(elapsed: Option<u128>) -> (ms: u64)
    ensures
        ms == coordinate(elapsed),
{
    match elapsed {
        Some(ms) => #[verifier::truncate] (ms as u64),
        None => 0,
    }
}

/// Wall clock in milliseconds.
pub fn now_ms() -> (ms: u64)
    ensures
        exists|elapsed: Option<u128>| ms == #[trigger] coordinate(elapsed),
        read_off_the_clock(ms),
{
    let elapsed = wall_clock();
    proof {
        only_the_clock_gives(elapsed);
    }
    to_epoch_ms(elapsed)
}

/// What the clock gave is what a call of it returned, and nothing else.
proof fn only_the_clock_gives(elapsed: Option<u128>)
    ensures
        clock_gave(elapsed) <==> call_ensures(wall_clock, (), elapsed),
{
}

/// A time coordinate is the milliseconds the clock gave, as long as they fit,
/// and 0 for a clock before the epoch.
pub proof fn coordinates_are_the_milliseconds(elapsed: Option<u128>)
    ensures
        elapsed is Some && elapsed->0 <= u64::MAX ==> coordinate(elapsed) == elapsed->0,
        elapsed is None ==> coordinate(elapsed) == 0,
{
}

/// The envelope's keys are six different keys.
pub proof fn fields_differ()
    ensures
        FIELD_KIND@ != FIELD_META@,
        FIELD_KIND@ != FIELD_DATA@,
        FIELD_KIND@ != FIELD_SEQ@,
        FIELD_KIND@ != FIELD_EPOCH_MS@,
        FIELD_KIND@ != FIELD_SCHEMA_VERSION@,
        FIELD_META@ != FIELD_DATA@,
        FIELD_META@ != FIELD_SEQ@,
        FIELD_META@ != FIELD_EPOCH_MS@,
        FIELD_META@ != FIELD_SCHEMA_VERSION@,
        FIELD_DATA@ != FIELD_SEQ@,
        FIELD_DATA@ != FIELD_EPOCH_MS@,
        FIELD_DATA@ != FIELD_SCHEMA_VERSION@,
        FIELD_SEQ@ != FIELD_EPOCH_MS@,
        FIELD_SEQ@ != FIELD_SCHEMA_VERSION@,
        FIELD_EPOCH_MS@ != FIELD_SCHEMA_VERSION@,
{
    reveal_strlit("kind");
    reveal_strlit("meta");
    reveal_strlit("data");
    reveal_strlit("seq");
    reveal_strlit("epoch_ms");
    reveal_strlit("_schema_version");
    assert(FIELD_KIND@[0] == 'k');
    assert(FIELD_META@[0] == 'm');
    assert(FIELD_DATA@[0] == 'd');
    assert(FIELD_SEQ@[0] == 's');
    assert(FIELD_EPOCH_MS@[0] == 'e');
    assert(FIELD_SCHEMA_VERSION@[0] == '_');
}

/// A scan that meets no refusal met one for none of its keys, and the other
/// way round.
proof fn caller_scan_passes(event: Map<Seq<char>, Json>, keys: Seq<Seq<char>>)
    ensures
        caller_scan(event, keys) is None <==> forall|i: int|
            0 <= i < keys.len() ==> caller_entry_refusal(
                #[trigger] keys[i],
                event[keys[i]],
            ) is None,
    decreases keys.len(),
{
    if keys.len() > 0 {
        let rest = keys.drop_first();
        caller_scan_passes(event, rest);
        if caller_scan(event, keys) is None {
            assert forall|i: int| 0 <= i < keys.len() implies caller_entry_refusal(
                #[trigger] keys[i],
                event[keys[i]],
            ) is None by {
                if i > 0 {
                    assert(rest[i - 1] == keys[i]);
                }
            }
        }
        if forall|i: int|
            0 <= i < keys.len() ==> caller_entry_refusal(
                #[trigger] keys[i],
                event[keys[i]],
            ) is None {
            assert(caller_entry_refusal(keys[0], event[keys[0]]) is None);
            assert forall|i: int| 0 <= i < rest.len() implies caller_entry_refusal(
                #[trigger] rest[i],
                event[rest[i]],
            ) is None by {
                assert(rest[i] == keys[i + 1]);
            }
        }
    }
}

proof fn stored_scan_passes(event: Map<Seq<char>, Json>, keys: Seq<Seq<char>>)
    ensures
        stored_scan(event, keys) is None <==> forall|i: int|
            0 <= i < keys.len() ==> stored_entry_refusal(
                #[trigger] keys[i],
                event[keys[i]],
            ) is None,
    decreases keys.len(),
{
    if keys.len() > 0 {
        let rest = keys.drop_first();
        stored_scan_passes(event, rest);
        if stored_scan(event, keys) is None {
            assert forall|i: int| 0 <= i < keys.len() implies stored_entry_refusal(
                #[trigger] keys[i],
                event[keys[i]],
            ) is None by {
                if i > 0 {
                    assert(rest[i - 1] == keys[i]);
                }
            }
        }
        if forall|i: int|
            0 <= i < keys.len() ==> stored_entry_refusal(
                #[trigger] keys[i],
                event[keys[i]],
            ) is None {
            assert(stored_entry_refusal(keys[0], event[keys[0]]) is None);
            assert forall|i: int| 0 <= i < rest.len() implies stored_entry_refusal(
                #[trigger] rest[i],
                event[rest[i]],
            ) is None by {
                assert(rest[i] == keys[i + 1]);
            }
        }
    }
}

/// A scan of `meta` that meets no refusal met a scalar under each of its keys,
/// and the other way round.
proof fn meta_scan_passes(meta: Map<Seq<char>, Json>, keys: Seq<Seq<char>>)
    ensures
        meta_scan(meta, keys) is None <==> forall|i: int|
            0 <= i < keys.len() ==> {
                ||| meta[#[trigger] keys[i]] is String
                ||| meta[keys[i]] is Number
                ||| meta[keys[i]] is Bool
            },
    decreases keys.len(),
{
    if keys.len() > 0 {
        let rest = keys.drop_first();
        meta_scan_passes(meta, rest);
        if meta_scan(meta, keys) is None {
            assert forall|i: int| 0 <= i < keys.len() implies {
                ||| meta[#[trigger] keys[i]] is String
                ||| meta[keys[i]] is Number
                ||| meta[keys[i]] is Bool
            } by {
                if i > 0 {
                    assert(rest[i - 1] == keys[i]);
                }
            }
        }
        if forall|i: int|
            0 <= i < keys.len() ==> {
                ||| meta[#[trigger] keys[i]] is String
                ||| meta[keys[i]] is Number
                ||| meta[keys[i]] is Bool
            } {
            assert(scalar(meta[keys[0]]));
            assert forall|i: int| 0 <= i < rest.len() implies {
                ||| meta[#[trigger] rest[i]] is String
                ||| meta[rest[i]] is Number
                ||| meta[rest[i]] is Bool
            } by {
                assert(rest[i] == keys[i + 1]);
            }
        }
    }
}

/// `meta` is of scalars only: an object passes exactly when each of its values
/// is a string, a number or a boolean.
pub proof fn meta_of_scalars(meta: Map<Seq<char>, Json>)
    requires
        meta.dom().finite(),
    ensures
        meta_refusal(Json::Object(meta)) is None <==> forall|key: Seq<char>| #[trigger]
            meta.contains_key(key) ==> meta[key] is String || meta[key] is Number
                || meta[key] is Bool,
{
    json::keys_can_be_listed(meta);
    let keys = json::ordered_keys(meta);
    meta_scan_passes(meta, keys);
    if meta_scan(meta, keys) is None {
        assert forall|key: Seq<char>| #[trigger] meta.contains_key(key) implies meta[key] is String
            || meta[key] is Number || meta[key] is Bool by {
            assert(keys.contains(key));
            let i = choose|i: int| 0 <= i < keys.len() && keys[i] == key;
            assert(keys[i] == key);
        }
    }
    if forall|key: Seq<char>| #[trigger]
        meta.contains_key(key) ==> meta[key] is String || meta[key] is Number
            || meta[key] is Bool {
        assert forall|i: int| 0 <= i < keys.len() implies {
            ||| meta[#[trigger] keys[i]] is String
            ||| meta[keys[i]] is Number
            ||| meta[keys[i]] is Bool
        } by {
            assert(keys.contains(keys[i]));
            assert(meta.contains_key(keys[i]));
        }
    }
}

/// The envelope contract, in one statement. A new event is accepted exactly
/// when it has a `kind`, a string that is not empty; beside it only `meta`,
/// `data` and `_schema_version`; `meta` an object of strings, numbers and
/// booleans; `data` an object; and the version a whole number not below zero.
pub proof fn accepted_events_keep_the_envelope(event: Map<Seq<char>, Json>)
    requires
        event.dom().finite(),
        event.contains_key("meta"@) && event["meta"@] is Object
            ==> event["meta"@]->Object_0.dom().finite(),
    ensures
        envelope_refusal(event) is None <==> {
            &&& event.contains_key("kind"@)
            &&& event["kind"@] is String
            &&& event["kind"@]->String_0.len() > 0
            &&& forall|key: Seq<char>| #[trigger]
                event.contains_key(key) ==> key == "kind"@ || key == "meta"@ || key == "data"@
                    || key == "_schema_version"@
            &&& event.contains_key("meta"@) ==> event["meta"@] is Object && forall|key: Seq<char>|
             #[trigger]
                event["meta"@]->Object_0.contains_key(key) ==> event["meta"@]->Object_0[
                    key
                ] is String || event["meta"@]->Object_0[key] is Number
                    || event["meta"@]->Object_0[key] is Bool
            &&& event.contains_key("data"@) ==> event["data"@] is Object
            &&& event.contains_key("_schema_version"@) ==> event["_schema_version"@] is Number
                && event["_schema_version"@]->Number_0 is PosInt
        },
{
    fields_differ();
    accepted_exactly(event);
    if event.contains_key("meta"@) && event["meta"@] is Object {
        meta_of_scalars(event["meta"@]->Object_0);
    }
    if envelope_refusal(event) is None {
        assert(event.contains_key("meta"@) ==> caller_entry_refusal("meta"@, event["meta"@]) is None);
        assert(event.contains_key("data"@) ==> caller_entry_refusal("data"@, event["data"@]) is None);
        assert(event.contains_key("_schema_version"@) ==> caller_entry_refusal(
            "_schema_version"@,
            event["_schema_version"@],
        ) is None);
        assert forall|key: Seq<char>| #[trigger] event.contains_key(key) implies key == "kind"@
            || key == "meta"@ || key == "data"@ || key == "_schema_version"@ by {
            assert(caller_entry_refusal(key, event[key]) is None);
        }
    }
}

/// The envelope of a stored event, in one statement: the author's keys as a
/// new event may have them, the version and the time there, and nothing beside
/// them but `seq`; the three numbers whole and not below zero.
pub proof fn stored_events_keep_the_envelope(event: Map<Seq<char>, Json>)
    requires
        event.dom().finite(),
        event.contains_key("meta"@) && event["meta"@] is Object
            ==> event["meta"@]->Object_0.dom().finite(),
    ensures
        stored_refusal(event) is None <==> {
            &&& event.contains_key("kind"@)
            &&& event["kind"@] is String
            &&& event["kind"@]->String_0.len() > 0
            &&& forall|key: Seq<char>| #[trigger]
                event.contains_key(key) ==> key == "kind"@ || key == "meta"@ || key == "data"@
                    || key == "_schema_version"@ || key == "epoch_ms"@ || key == "seq"@
            &&& event.contains_key("meta"@) ==> event["meta"@] is Object && forall|key: Seq<char>|
             #[trigger]
                event["meta"@]->Object_0.contains_key(key) ==> event["meta"@]->Object_0[
                    key
                ] is String || event["meta"@]->Object_0[key] is Number
                    || event["meta"@]->Object_0[key] is Bool
            &&& event.contains_key("data"@) ==> event["data"@] is Object
            &&& event.contains_key("_schema_version"@)
            &&& event["_schema_version"@] is Number && event["_schema_version"@]->Number_0 is PosInt
            &&& event.contains_key("epoch_ms"@)
            &&& event["epoch_ms"@] is Number && event["epoch_ms"@]->Number_0 is PosInt
            &&& event.contains_key("seq"@) ==> event["seq"@] is Number
                && event["seq"@]->Number_0 is PosInt
        },
{
    fields_differ();
    stored_exactly(event);
    if event.contains_key("meta"@) && event["meta"@] is Object {
        meta_of_scalars(event["meta"@]->Object_0);
    }
    if stored_refusal(event) is None {
        assert(event.contains_key("meta"@) ==> stored_entry_refusal("meta"@, event["meta"@]) is None);
        assert(event.contains_key("data"@) ==> stored_entry_refusal("data"@, event["data"@]) is None);
        assert(event.contains_key("seq"@) ==> stored_entry_refusal("seq"@, event["seq"@]) is None);
        assert forall|key: Seq<char>| #[trigger] event.contains_key(key) implies key == "kind"@
            || key == "meta"@ || key == "data"@ || key == "_schema_version"@ || key == "epoch_ms"@
            || key == "seq"@ by {
            assert(stored_entry_refusal(key, event[key]) is None);
        }
    }
}

/// A refusal speaks of what is wrong: of a missing, empty or mistyped `kind`
/// before anything else, and otherwise of the first key, in text order, that
/// is not as it should be.
pub proof fn refusals_name_the_first_key(event: Map<Seq<char>, Json>)
    requires
        event.dom().finite(),
        envelope_refusal(event) is Some,
    ensures
        !event.contains_key("kind"@) ==> envelope_refusal(event) == Some("`kind` is required"@),
        event.contains_key("kind"@) && event["kind"@] is String && event["kind"@]->String_0.len()
            == 0 ==> envelope_refusal(event) == Some("`kind` must not be empty"@),
        event.contains_key("kind"@) && !(event["kind"@] is String) ==> envelope_refusal(event)
            == Some("`kind` must be a string, found "@ + type_text(event["kind"@])),
        event.contains_key("kind"@) && event["kind"@] is String && event["kind"@]->String_0.len()
            > 0 ==> exists|key: Seq<char>| #[trigger]
            event.contains_key(key) && caller_entry_refusal(key, event[key]) == envelope_refusal(
                event,
            ) && forall|other: Seq<char>| #[trigger]
                event.contains_key(other) && text::text_lt(other, key) ==> caller_entry_refusal(
                    other,
                    event[other],
                ) is None,
{
    if kind_refusal(event) is None {
        json::keys_can_be_listed(event);
        let keys = json::ordered_keys(event);
        let at = first_refused(event, keys);
        assert(keys.contains(keys[at]));
        assert(event.contains_key(keys[at]));
        assert forall|other: Seq<char>| #[trigger]
            event.contains_key(other) && text::text_lt(other, keys[at]) implies caller_entry_refusal(
            other,
            event[other],
        ) is None by {
            let i = choose|i: int| 0 <= i < keys.len() && keys[i] == other;
            text::text_order(other, keys[at]);
            if i > at {
                assert(text::text_lt(keys[at], keys[i]));
            }
        }
    }
}

/// Where a scan met its refusal.
proof fn first_refused(event: Map<Seq<char>, Json>, keys: Seq<Seq<char>>) -> (at: int)
    requires
        caller_scan(event, keys) is Some,
    ensures
        0 <= at < keys.len(),
        caller_entry_refusal(keys[at], event[keys[at]]) == caller_scan(event, keys),
        forall|i: int|
            0 <= i < at ==> caller_entry_refusal(#[trigger] keys[i], event[keys[i]]) is None,
    decreases keys.len(),
{
    if caller_entry_refusal(keys[0], event[keys[0]]) is Some {
        0
    } else {
        let rest = keys.drop_first();
        let at = first_refused(event, rest);
        assert forall|i: int| 0 <= i < at + 1 implies caller_entry_refusal(
            #[trigger] keys[i],
            event[keys[i]],
        ) is None by {
            if i > 0 {
                assert(rest[i - 1] == keys[i]);
            }
        }
        at + 1
    }
}

/// What is said of a key: that it is not one a caller sets, or what belongs
/// there and what was found instead.
pub proof fn refusals_say_what_belongs(key: Seq<char>, value: Json)
    ensures
        key != "kind"@ && key != "meta"@ && key != "data"@ && key != "_schema_version"@
            ==> caller_entry_refusal(key, value) == Some(
            "unknown top-level key `"@ + key
                + "`; a kind's own fields go under `data`, and a value readers filter by goes under `meta`"@,
        ),
        key == "meta"@ && !(value is Object) ==> caller_entry_refusal(key, value) == Some(
            "`meta` must be an object, found "@ + type_text(value),
        ),
        key == "data"@ && !(value is Object) ==> caller_entry_refusal(key, value) == Some(
            "`data` must be an object, found "@ + type_text(value),
        ),
        key == "_schema_version"@ && !(value is Number && value->Number_0 is PosInt)
            ==> caller_entry_refusal(key, value) == Some(
            "`_schema_version` must be a non-negative integer, found "@ + type_text(value),
        ),
        value is Null ==> type_text(value) == "null"@,
        value is Bool ==> type_text(value) == "a boolean"@,
        value is Number ==> type_text(value) == "a number"@,
        value is String ==> type_text(value) == "a string"@,
        value is Array ==> type_text(value) == "an array"@,
        value is Object ==> type_text(value) == "an object"@,
{
    fields_differ();
}

/// A new event is accepted exactly when its `kind` is a string that is not
/// empty and each of its keys is one a caller may set, holding what belongs
/// there.
pub proof fn accepted_exactly(event: Map<Seq<char>, Json>)
    requires
        event.dom().finite(),
    ensures
        envelope_refusal(event) is None <==> has_kind(event) && forall|key: Seq<char>| #[trigger]
            event.contains_key(key) ==> caller_entry_refusal(key, event[key]) is None,
{
    json::keys_can_be_listed(event);
    let keys = json::ordered_keys(event);
    caller_scan_passes(event, keys);
    if caller_scan(event, keys) is None {
        assert forall|key: Seq<char>| #[trigger] event.contains_key(key) implies caller_entry_refusal(
            key,
            event[key],
        ) is None by {
            let i = choose|i: int| 0 <= i < keys.len() && keys[i] == key;
            assert(keys[i] == key);
        }
    }
    if forall|key: Seq<char>| #[trigger]
        event.contains_key(key) ==> caller_entry_refusal(key, event[key]) is None {
        assert forall|i: int| 0 <= i < keys.len() implies caller_entry_refusal(
            #[trigger] keys[i],
            event[keys[i]],
        ) is None by {
            assert(keys.contains(keys[i]));
            assert(event.contains_key(keys[i]));
        }
    }
}

/// An event is accepted as a stored one exactly when its `kind` is a string
/// that is not empty, it carries its time and its schema version, and each of
/// its keys is an envelope key holding what belongs there.
pub proof fn stored_exactly(event: Map<Seq<char>, Json>)
    requires
        event.dom().finite(),
    ensures
        stored_refusal(event) is None <==> {
            &&& has_kind(event)
            &&& has_u64(event, FIELD_EPOCH_MS@)
            &&& has_u64(event, FIELD_SCHEMA_VERSION@)
            &&& forall|key: Seq<char>| #[trigger]
                event.contains_key(key) ==> stored_entry_refusal(key, event[key]) is None
        },
{
    json::keys_can_be_listed(event);
    let keys = json::ordered_keys(event);
    stored_scan_passes(event, keys);
    if stored_scan(event, keys) is None {
        assert forall|key: Seq<char>| #[trigger] event.contains_key(key) implies stored_entry_refusal(
            key,
            event[key],
        ) is None by {
            let i = choose|i: int| 0 <= i < keys.len() && keys[i] == key;
            assert(keys[i] == key);
        }
    }
    if forall|key: Seq<char>| #[trigger]
        event.contains_key(key) ==> stored_entry_refusal(key, event[key]) is None {
        assert forall|i: int| 0 <= i < keys.len() implies stored_entry_refusal(
            #[trigger] keys[i],
            event[keys[i]],
        ) is None by {
            assert(keys.contains(keys[i]));
            assert(event.contains_key(keys[i]));
        }
    }
}

/// An event may not choose its own coordinates: one that carries `seq` or
/// `epoch_ms`, or any key that is not the envelope's, is refused.
pub proof fn coordinates_are_refused(event: Map<Seq<char>, Json>, key: Seq<char>)
    requires
        event.dom().finite(),
        event.contains_key(key),
        !caller_key(key),
    ensures
        envelope_refusal(event) is Some,
        !caller_key(FIELD_SEQ@),
        !caller_key(FIELD_EPOCH_MS@),
{
    fields_differ();
    accepted_exactly(event);
    if envelope_refusal(event) is None {
        assert(caller_entry_refusal(key, event[key]) is None);
    }
}

/// What is stamped can be stored: an accepted event passes the check on
/// stored events once it is stamped.
pub proof fn stamped_is_stored(event: Map<Seq<char>, Json>, seq: u64, epoch_ms: u64)
    requires
        event.dom().finite(),
        envelope_refusal(event) is None,
    ensures
        stored_refusal(stamped(event, seq, epoch_ms)) is None,
{
    fields_differ();
    accepted_exactly(event);
    let after = stamped(event, seq, epoch_ms);
    stored_exactly(after);
    let empty = Map::<Seq<char>, Json>::empty();
    json::keys_can_be_listed(empty);
    assert(json::ordered_keys(empty).len() == 0) by {
        if json::ordered_keys(empty).len() > 0 {
            let key = json::ordered_keys(empty)[0];
            assert(json::ordered_keys(empty).contains(key));
            assert(empty.contains_key(key));
        }
    }
    assert(meta_refusal(Json::Object(empty)) is None);
    assert forall|key: Seq<char>| #[trigger] after.contains_key(key) implies stored_entry_refusal(
        key,
        after[key],
    ) is None by {
        if event.contains_key(key) {
            assert(caller_entry_refusal(key, event[key]) is None);
        }
    }
    assert(event.contains_key(FIELD_SCHEMA_VERSION@) ==> caller_entry_refusal(
        FIELD_SCHEMA_VERSION@,
        event[FIELD_SCHEMA_VERSION@],
    ) is None);
}

/// Stamping adds and takes nothing of the author's: every key the event had
/// still holds what it held, and the only keys added are the envelope's.
pub proof fn stamping_keeps_the_event(
    event: Map<Seq<char>, Json>,
    seq: u64,
    epoch_ms: u64,
    key: Seq<char>,
)
    requires
        event.dom().finite(),
        envelope_refusal(event) is None,
    ensures
        event.contains_key(key) ==> stamped(event, seq, epoch_ms).contains_key(key) && stamped(
            event,
            seq,
            epoch_ms,
        )[key] == event[key],
        stamped(event, seq, epoch_ms).contains_key(key) ==> event.contains_key(key) || key
            == FIELD_META@ || key == FIELD_DATA@ || key == FIELD_SEQ@ || key == FIELD_EPOCH_MS@
            || key == FIELD_SCHEMA_VERSION@,
        stamped(event, seq, epoch_ms)[FIELD_SEQ@] == whole(seq),
        stamped(event, seq, epoch_ms)[FIELD_EPOCH_MS@] == whole(epoch_ms),
        !event.contains_key(FIELD_SCHEMA_VERSION@) ==> stamped(
            event,
            seq,
            epoch_ms,
        )[FIELD_SCHEMA_VERSION@] == whole(DEFAULT_SCHEMA_VERSION),
{
    fields_differ();
    accepted_exactly(event);
    if event.contains_key(key) {
        assert(caller_entry_refusal(key, event[key]) is None);
    }
}

/// A stamped event is whole: the six keys are there, `meta` and `data` empty
/// where the author left them out, the number and the time those it was
/// stamped with, and the version 1 unless the author chose one.
pub proof fn stamped_events_are_whole(event: Map<Seq<char>, Json>, seq: u64, epoch_ms: u64)
    requires
        event.dom().finite(),
        envelope_refusal(event) is None,
    ensures
        ({
            let after = stamped(event, seq, epoch_ms);
            let empty = Json::Object(Map::<Seq<char>, Json>::empty());
            &&& after.contains_key("kind"@) && after["kind"@] == event["kind"@]
            &&& after.contains_key("meta"@) && after["meta"@] == (if event.contains_key("meta"@) {
                event["meta"@]
            } else {
                empty
            })
            &&& after.contains_key("data"@) && after["data"@] == (if event.contains_key("data"@) {
                event["data"@]
            } else {
                empty
            })
            &&& after.contains_key("seq"@) && after["seq"@] == Json::Number(Number::PosInt(seq))
            &&& after.contains_key("epoch_ms"@) && after["epoch_ms"@] == Json::Number(
                Number::PosInt(epoch_ms),
            )
            &&& after.contains_key("_schema_version"@) && after["_schema_version"@] == (
            if event.contains_key("_schema_version"@) {
                event["_schema_version"@]
            } else {
                Json::Number(Number::PosInt(1))
            })
            &&& forall|key: Seq<char>| #[trigger]
                after.contains_key(key) ==> key == "kind"@ || key == "meta"@ || key == "data"@
                    || key == "seq"@ || key == "epoch_ms"@ || key == "_schema_version"@
        }),
{
    fields_differ();
    accepted_exactly(event);
    let after = stamped(event, seq, epoch_ms);
    assert(event.contains_key("kind"@));
    assert forall|key: Seq<char>| #[trigger] after.contains_key(key) implies key == "kind"@ || key
        == "meta"@ || key == "data"@ || key == "seq"@ || key == "epoch_ms"@ || key
        == "_schema_version"@ by {
        if event.contains_key(key) {
            assert(caller_entry_refusal(key, event[key]) is None);
        }
    }
}

/// A stored event taken in elsewhere has the number it was given there, its
/// own time and version, what it held under `meta` and `data`, each empty
/// where it held nothing, and no key that it did not have beside these.
pub proof fn restamped_events_are_whole(event: Map<Seq<char>, Json>, seq: u64)
    requires
        stored_refusal(event) is None,
    ensures
        ({
            let after = restamped(event, seq);
            let empty = Json::Object(Map::<Seq<char>, Json>::empty());
            &&& after.contains_key("seq"@) && after["seq"@] == Json::Number(Number::PosInt(seq))
            &&& after.contains_key("meta"@) && after["meta"@] == (if event.contains_key("meta"@) {
                event["meta"@]
            } else {
                empty
            })
            &&& after.contains_key("data"@) && after["data"@] == (if event.contains_key("data"@) {
                event["data"@]
            } else {
                empty
            })
            &&& forall|key: Seq<char>|
                key != "seq"@ && key != "meta"@ && key != "data"@ ==> (
                #[trigger] after.contains_key(key) <==> event.contains_key(key)) && (
                event.contains_key(key) ==> after[key] == event[key])
        }),
{
    fields_differ();
}

/// A transfer reassigns `seq` and nothing else: every other key a stored
/// event had still holds what it held, its time and its schema version among
/// them.
pub proof fn restamping_keeps_all_but_seq(event: Map<Seq<char>, Json>, seq: u64, key: Seq<char>)
    requires
        stored_refusal(event) is None,
    ensures
        event.contains_key(key) && key != FIELD_SEQ@ ==> restamped(event, seq).contains_key(key)
            && restamped(event, seq)[key] == event[key],
        restamped(event, seq)[FIELD_SEQ@] == whole(seq),
        restamped(event, seq)[FIELD_EPOCH_MS@] == event[FIELD_EPOCH_MS@],
        restamped(event, seq)[FIELD_SCHEMA_VERSION@] == event[FIELD_SCHEMA_VERSION@],
{
    fields_differ();
}

/// Taking a stored event into another store gives what stamping it there, at
/// the same time, would have given; and doing so twice is doing it once.
pub proof fn restamping_a_stamped_event(
    event: Map<Seq<char>, Json>,
    seq: u64,
    epoch_ms: u64,
    other: u64,
)
    ensures
        restamped(stamped(event, seq, epoch_ms), other) == stamped(event, other, epoch_ms),
        restamped(restamped(event, seq), other) == restamped(event, other),
{
    fields_differ();
    assert(restamped(stamped(event, seq, epoch_ms), other) =~= stamped(event, other, epoch_ms));
    assert(restamped(restamped(event, seq), other) =~= restamped(event, other));
}

/// A restamped event passes the check on stored events, so a transferred
/// event can be transferred again.
pub proof fn restamped_is_stored(event: Map<Seq<char>, Json>, seq: u64)
    requires
        event.dom().finite(),
        stored_refusal(event) is None,
    ensures
        stored_refusal(restamped(event, seq)) is None,
{
    fields_differ();
    stored_exactly(event);
    let after = restamped(event, seq);
    stored_exactly(after);
    let empty = Map::<Seq<char>, Json>::empty();
    json::keys_can_be_listed(empty);
    assert(json::ordered_keys(empty).len() == 0) by {
        if json::ordered_keys(empty).len() > 0 {
            let key = json::ordered_keys(empty)[0];
            assert(json::ordered_keys(empty).contains(key));
            assert(empty.contains_key(key));
        }
    }
    assert(meta_refusal(Json::Object(empty)) is None);
    assert forall|key: Seq<char>| #[trigger] after.contains_key(key) implies stored_entry_refusal(
        key,
        after[key],
    ) is None by {
        if event.contains_key(key) {
            assert(stored_entry_refusal(key, event[key]) is None);
        }
    }
}

} // verus!
