//! Turning rows back into events, and events into rows.
//!
//! The envelope is columns and the two JSON levels are text. A view that reads
//! `stream`, `kind` or `epoch_ms` reads columns, and no change to what a kind
//! records can move them.

use vstd::prelude::*;

use crate::error::{Error, Failure};
use crate::event::{
    self, FIELD_DATA, FIELD_EPOCH_MS, FIELD_KIND, FIELD_META, FIELD_SCHEMA_VERSION, FIELD_SEQ,
};
use crate::json::{wire, Json, Object, Value};
use crate::sql::{Bound, Query, SqlValue, Statement};
use crate::text;

verus! {

/// The column list every read shares.
pub const COLUMNS: &'static str =
    "position, stream, seq, epoch_ms, kind, schema_version, meta, data";

/// One row of [`COLUMNS`], column by column.
#[derive(Debug)]
pub struct RawRow {
    pub position: i64,
    pub stream: String,
    pub seq: i64,
    pub epoch_ms: i64,
    pub kind: String,
    pub schema_version: i64,
    pub meta: String,
    pub data: String,
}

/// What a [`RawRow`] holds.
pub ghost struct Cells {
    pub position: i64,
    pub stream: Seq<char>,
    pub seq: i64,
    pub epoch_ms: i64,
    pub kind: Seq<char>,
    pub schema_version: i64,
    pub meta: Seq<char>,
    pub data: Seq<char>,
}

impl RawRow {
    pub open spec fn view(&self) -> Cells {
        Cells {
            position: self.position,
            stream: self.stream@,
            seq: self.seq,
            epoch_ms: self.epoch_ms,
            kind: self.kind@,
            schema_version: self.schema_version,
            meta: self.meta@,
            data: self.data@,
        }
    }
}

/// An event as stored, with where it sits: no upcaster has run.
#[derive(Debug, PartialEq, Eq)]
pub struct StoredRow {
    pub position: u64,
    pub stream: String,
    pub event: Value,
}

/// What a [`StoredRow`] holds.
pub ghost struct Stored {
    pub position: u64,
    pub stream: Seq<char>,
    pub event: Json,
}

impl StoredRow {
    pub open spec fn view(&self) -> Stored {
        Stored { position: self.position, stream: self.stream@, event: self.event@ }
    }
}

/// An event put back together from its columns.
pub open spec fn event_of(
    kind: Seq<char>,
    meta: Json,
    data: Json,
    seq: u64,
    epoch_ms: u64,
    schema_version: u64,
) -> Map<Seq<char>, Json> {
    Map::<Seq<char>, Json>::empty().insert(FIELD_KIND@, Json::String(kind)).insert(
        FIELD_META@,
        meta,
    ).insert(FIELD_DATA@, data).insert(FIELD_SEQ@, event::whole(seq)).insert(
        FIELD_EPOCH_MS@,
        event::whole(epoch_ms),
    ).insert(FIELD_SCHEMA_VERSION@, event::whole(schema_version))
}

/// How a column that will not parse is reported.
pub open spec fn unparsable(position: i64, field: Seq<char>, said: Seq<char>) -> Failure {
    Failure::Corruption(
        "event at position "@ + text::signed_text(position as int) + " has unparsable `"@ + field
            + "`: "@ + said,
    )
}

/// What a row reads as. A column that will not parse is corruption, never an
/// empty object.
pub open spec fn row_reads(cells: Cells) -> Result<Stored, Failure> {
    match wire::parsed(cells.meta) {
        Err(said) => Err(unparsable(cells.position, FIELD_META@, said)),
        Ok(meta) => match wire::parsed(cells.data) {
            Err(said) => Err(unparsable(cells.position, FIELD_DATA@, said)),
            Ok(data) => Ok(
                Stored {
                    position: cells.position as u64,
                    stream: cells.stream,
                    event: Json::Object(
                        event_of(
                            cells.kind,
                            meta,
                            data,
                            cells.seq as u64,
                            cells.epoch_ms as u64,
                            cells.schema_version as u64,
                        ),
                    ),
                },
            ),
        },
    }
}

/// A stored JSON column as the value it holds.
fn parse(column: &str, field: &str, position: i64) -> (value: Result<Value, Error>)
    ensures
        value is Ok <==> wire::parsed(column@) is Ok,
        value is Ok ==> value->Ok_0@ == wire::parsed(column@)->Ok_0,
        value is Err ==> value->Err_0@ == unparsable(
            position,
            field@,
            wire::parsed(column@)->Err_0,
        ),
{
    match Value::parse(column) {
        Ok(value) => Ok(value),
        Err(said) => {
            let front = text::cat4(
                "event at position ",
                text::signed_decimal(position).as_str(),
                " has unparsable `",
                field,
            );
            Err(Error::corruption(text::cat3(front.as_str(), "`: ", said.as_str())))
        },
    }
}

/// Reads a row of [`COLUMNS`] into the event it was written from.
pub fn read(row: RawRow) -> (stored: Result<StoredRow, Error>)
    ensures
        match row_reads(row@) {
            Ok(expected) => stored is Ok && stored->Ok_0@ == expected,
            Err(failure) => stored is Err && stored->Err_0@ == failure,
        },
{
    let meta = match parse(row.meta.as_str(), FIELD_META, row.position) {
        Ok(meta) => meta,
        Err(error) => {
            return Err(error);
        },
    };
    let data = match parse(row.data.as_str(), FIELD_DATA, row.position) {
        Ok(data) => data,
        Err(error) => {
            return Err(error);
        },
    };
    let mut event = Object::new();
    event.insert(FIELD_KIND.to_owned(), Value::String(row.kind));
    event.insert(FIELD_META.to_owned(), meta);
    event.insert(FIELD_DATA.to_owned(), data);
    event.insert(FIELD_SEQ.to_owned(), Value::unsigned(#[verifier::truncate] (row.seq as u64)));
    event.insert(
        FIELD_EPOCH_MS.to_owned(),
        Value::unsigned(#[verifier::truncate] (row.epoch_ms as u64)),
    );
    event.insert(
        FIELD_SCHEMA_VERSION.to_owned(),
        Value::unsigned(#[verifier::truncate] (row.schema_version as u64)),
    );
    Ok(
        StoredRow {
            position: #[verifier::truncate] (row.position as u64),
            stream: row.stream,
            event: Value::Object(event),
        },
    )
}

/// The value under a key, and `null` where there is none.
pub open spec fn level(event: Map<Seq<char>, Json>, key: Seq<char>) -> Json {
    if event.contains_key(key) {
        event[key]
    } else {
        Json::Null
    }
}

fn level_text(event: &Object, key: &str) -> (rendering: String)
    ensures
        rendering@ == wire::rendered(level(event@, key@)),
        wire::survives(level(event@, key@)) ==> wire::reads_as(
            rendering@,
            level(event@, key@),
        ),
{
    match event.get(key) {
        Some(value) => value.render(),
        None => Value::Null.render(),
    }
}

/// The two JSON columns of a stamped event, as the text they are stored as.
pub fn json_columns(event: &Object) -> (columns: (String, String))
    ensures
        columns.0@ == wire::rendered(level(event@, FIELD_META@)),
        columns.1@ == wire::rendered(level(event@, FIELD_DATA@)),
        wire::survives(level(event@, FIELD_META@)) ==> wire::reads_as(
            columns.0@,
            level(event@, FIELD_META@),
        ),
        wire::survives(level(event@, FIELD_DATA@)) ==> wire::reads_as(
            columns.1@,
            level(event@, FIELD_DATA@),
        ),
{
    (level_text(event, FIELD_META), level_text(event, FIELD_DATA))
}

/// Why an event has no columns, if it has none.
pub open spec fn columns_refusal(event: Map<Seq<char>, Json>) -> Option<Seq<char>> {
    if !(event.contains_key(FIELD_KIND@) && event[FIELD_KIND@] is String) {
        Some("stamped event has no `kind`"@)
    } else if !event::has_u64(event, FIELD_SEQ@) {
        Some("stamped event has no `seq`"@)
    } else if !event::has_u64(event, FIELD_EPOCH_MS@) {
        Some("stamped event has no `epoch_ms`"@)
    } else if !event::has_u64(event, FIELD_SCHEMA_VERSION@) {
        Some("stamped event has no `_schema_version`"@)
    } else {
        None
    }
}

/// A whole number under a key.
fn required_u64(event: &Object, field: &str) -> (value: Result<u64, Error>)
    ensures
        value is Ok <==> event::has_u64(event@, field@),
        value is Ok ==> event@[field@] == event::whole(value->Ok_0),
        value is Err ==> value->Err_0@ == Failure::Storage(
            "stamped event has no `"@ + field@ + "`"@,
        ),
{
    let found = match event.get(field) {
        Some(value) => value.as_u64(),
        None => None,
    };
    match found {
        Some(value) => Ok(value),
        None => Err(Error::storage(text::cat3("stamped event has no `", field, "`"))),
    }
}

proof fn missing_texts()
    ensures
        "stamped event has no `"@ + FIELD_SEQ@ + "`"@ == "stamped event has no `seq`"@,
        "stamped event has no `"@ + FIELD_EPOCH_MS@ + "`"@ == "stamped event has no `epoch_ms`"@,
        "stamped event has no `"@ + FIELD_SCHEMA_VERSION@ + "`"@
            == "stamped event has no `_schema_version`"@,
{
    reveal_strlit("stamped event has no `");
    reveal_strlit("`");
    reveal_strlit("seq");
    reveal_strlit("epoch_ms");
    reveal_strlit("_schema_version");
    reveal_strlit("stamped event has no `seq`");
    reveal_strlit("stamped event has no `epoch_ms`");
    reveal_strlit("stamped event has no `_schema_version`");
    assert("stamped event has no `"@ + FIELD_SEQ@ + "`"@ =~= "stamped event has no `seq`"@);
    assert("stamped event has no `"@ + FIELD_EPOCH_MS@ + "`"@
        =~= "stamped event has no `epoch_ms`"@);
    assert("stamped event has no `"@ + FIELD_SCHEMA_VERSION@ + "`"@
        =~= "stamped event has no `_schema_version`"@);
}

/// The envelope fields that become columns: the kind, and the numbers.
pub fn envelope_columns(event: &Object) -> (columns: Result<(String, u64, u64, u64), Error>)
    ensures
        columns is Ok <==> columns_refusal(event@) is None,
        columns is Ok ==> {
            &&& event@[FIELD_KIND@] == Json::String(columns->Ok_0.0@)
            &&& event@[FIELD_SEQ@] == event::whole(columns->Ok_0.1)
            &&& event@[FIELD_EPOCH_MS@] == event::whole(columns->Ok_0.2)
            &&& event@[FIELD_SCHEMA_VERSION@] == event::whole(columns->Ok_0.3)
        },
        columns is Err ==> columns->Err_0@ == Failure::Storage(columns_refusal(event@)->0),
{
    proof {
        missing_texts();
    }
    let kind = match event.get(FIELD_KIND) {
        Some(Value::String(kind)) => kind.clone(),
        _ => {
            return Err(Error::storage("stamped event has no `kind`".to_owned()));
        },
    };
    let seq = match required_u64(event, FIELD_SEQ) {
        Ok(seq) => seq,
        Err(error) => {
            return Err(error);
        },
    };
    let epoch_ms = match required_u64(event, FIELD_EPOCH_MS) {
        Ok(epoch_ms) => epoch_ms,
        Err(error) => {
            return Err(error);
        },
    };
    let schema_version = match required_u64(event, FIELD_SCHEMA_VERSION) {
        Ok(schema_version) => schema_version,
        Err(error) => {
            return Err(error);
        },
    };
    Ok((kind, seq, epoch_ms, schema_version))
}

/// The columns of an event that has them, as they are stored.
pub open spec fn cells_of(
    position: i64,
    stream: Seq<char>,
    event: Map<Seq<char>, Json>,
) -> Cells {
    Cells {
        position,
        stream,
        seq: event[FIELD_SEQ@].as_u64()->0 as i64,
        epoch_ms: event[FIELD_EPOCH_MS@].as_u64()->0 as i64,
        kind: event[FIELD_KIND@].as_text()->0,
        schema_version: event[FIELD_SCHEMA_VERSION@].as_u64()->0 as i64,
        meta: wire::rendered(level(event, FIELD_META@)),
        data: wire::rendered(level(event, FIELD_DATA@)),
    }
}

/// The statement that inserts a stamped event into a stream.
pub open spec fn insert_query(stream: Seq<char>, event: Map<Seq<char>, Json>) -> Query {
    let cells = cells_of(0, stream, event);
    Query {
        sql:
            "INSERT INTO events (stream, seq, epoch_ms, kind, schema_version, meta, data) VALUES (?1, ?2, ?3, ?4, ?5, ?6, ?7)"@,
        params: seq![
            Bound::Text(stream),
            Bound::Integer(cells.seq),
            Bound::Integer(cells.epoch_ms),
            Bound::Text(cells.kind),
            Bound::Integer(cells.schema_version),
            Bound::Text(cells.meta),
            Bound::Text(cells.data),
        ],
    }
}

/// Whether the texts bound for an event's two JSON levels are read back as
/// them, where they are ones that survive.
pub open spec fn levels_read_back(params: Seq<Bound>, event: Map<Seq<char>, Json>) -> bool {
    &&& wire::survives(level(event, FIELD_META@)) ==> wire::reads_as(
        params[5]->Text_0,
        level(event, FIELD_META@),
    )
    &&& wire::survives(level(event, FIELD_DATA@)) ==> wire::reads_as(
        params[6]->Text_0,
        level(event, FIELD_DATA@),
    )
}

/// The statement that inserts one stamped event. Its position is the row
/// number the insert assigns.
pub fn insert_stamped(stream: &str, event: &Object) -> (insert: Result<Statement, Error>)
    ensures
        insert is Ok <==> columns_refusal(event@) is None,
        insert is Ok ==> insert->Ok_0@ == insert_query(stream@, event@) && levels_read_back(
            insert->Ok_0@.params,
            event@,
        ),
        insert is Err ==> insert->Err_0@ == Failure::Storage(columns_refusal(event@)->0),
{
    let (kind, seq, epoch_ms, schema_version) = match envelope_columns(event) {
        Ok(columns) => columns,
        Err(error) => {
            return Err(error);
        },
    };
    let (meta, data) = json_columns(event);
    let ghost want = insert_query(stream@, event@);
    let ghost meta_text = meta@;
    let ghost data_text = data@;
    let ghost kind_text = kind@;
    let params: Vec<SqlValue> = vec![
        SqlValue::Text(stream.to_owned()),
        SqlValue::Integer(#[verifier::truncate] (seq as i64)),
        SqlValue::Integer(#[verifier::truncate] (epoch_ms as i64)),
        SqlValue::Text(kind),
        SqlValue::Integer(#[verifier::truncate] (schema_version as i64)),
        SqlValue::Text(meta),
        SqlValue::Text(data),
    ];
    let insert = Statement::with(
        "INSERT INTO events (stream, seq, epoch_ms, kind, schema_version, meta, data) VALUES (?1, ?2, ?3, ?4, ?5, ?6, ?7)",
        params,
    );
    proof {
        assert(insert@.params =~= want.params);
        assert(insert@.params[5] == Bound::Text(meta_text));
        assert(insert@.params[6] == Bound::Text(data_text));
    }
    Ok(insert)
}

/// Storing a 64-bit number in a signed column and reading it back gives the
/// number.
proof fn stored_number_reads_back(n: u64)
    by (bit_vector)
    ensures
        (n as i64) as u64 == n,
{
}

/// A row reads as its columns: the event has the six keys of the envelope and
/// no other, each what its column holds, and sits in its row's stream at its
/// row's position. A level that will not parse fails the row, `meta` first.
pub proof fn rows_read_as_their_columns(cells: Cells)
    ensures
        row_reads(cells) is Ok <==> wire::parsed(cells.meta) is Ok && wire::parsed(
            cells.data,
        ) is Ok,
        row_reads(cells) is Err ==> row_reads(cells)->Err_0 is Corruption,
        row_reads(cells) is Ok ==> {
            let stored = row_reads(cells)->Ok_0;
            let event = stored.event->Object_0;
            &&& stored.position == cells.position as u64
            &&& stored.stream == cells.stream
            &&& stored.event is Object
            &&& event.contains_key("kind"@) && event["kind"@] == Json::String(cells.kind)
            &&& event.contains_key("meta"@) && event["meta"@] == wire::parsed(cells.meta)->Ok_0
            &&& event.contains_key("data"@) && event["data"@] == wire::parsed(cells.data)->Ok_0
            &&& event.contains_key("seq"@) && event["seq"@] == Json::Number(
                crate::json::Number::PosInt(cells.seq as u64),
            )
            &&& event.contains_key("epoch_ms"@) && event["epoch_ms"@] == Json::Number(
                crate::json::Number::PosInt(cells.epoch_ms as u64),
            )
            &&& event.contains_key("_schema_version"@) && event["_schema_version"@] == Json::Number(
                crate::json::Number::PosInt(cells.schema_version as u64),
            )
            &&& forall|key: Seq<char>| #[trigger]
                event.contains_key(key) ==> key == "kind"@ || key == "meta"@ || key == "data"@
                    || key == "seq"@ || key == "epoch_ms"@ || key == "_schema_version"@
        },
        wire::parsed(cells.meta) is Err ==> row_reads(cells) == Err::<Stored, Failure>(
            Failure::Corruption(
                "event at position "@ + text::signed_text(cells.position as int)
                    + " has unparsable `"@ + "meta"@ + "`: "@ + wire::parsed(cells.meta)->Err_0,
            ),
        ),
        wire::parsed(cells.meta) is Ok && wire::parsed(cells.data) is Err ==> row_reads(cells)
            == Err::<Stored, Failure>(
            Failure::Corruption(
                "event at position "@ + text::signed_text(cells.position as int)
                    + " has unparsable `"@ + "data"@ + "`: "@ + wire::parsed(cells.data)->Err_0,
            ),
        ),
{
    event::fields_differ();
}

/// An event has columns exactly when its kind is a string and its number, its
/// time and its version are whole numbers not below zero.
pub proof fn events_with_columns(event: Map<Seq<char>, Json>)
    ensures
        columns_refusal(event) is None <==> {
            &&& event.contains_key("kind"@) && event["kind"@] is String
            &&& event.contains_key("seq"@) && event["seq"@] is Number
                && event["seq"@]->Number_0 is PosInt
            &&& event.contains_key("epoch_ms"@) && event["epoch_ms"@] is Number
                && event["epoch_ms"@]->Number_0 is PosInt
            &&& event.contains_key("_schema_version"@) && event["_schema_version"@] is Number
                && event["_schema_version"@]->Number_0 is PosInt
        },
{
}

/// What was written is what is read back: the row that [`insert_stamped`]
/// writes for a stored event, its two JSON levels ones that survive as text,
/// reads as the event itself, in its stream.
pub proof fn rows_read_back(position: i64, stream: Seq<char>, event: Map<Seq<char>, Json>)
    requires
        event.dom().finite(),
        event::stored_refusal(event) is None,
        event.contains_key(FIELD_SEQ@),
        event.contains_key(FIELD_META@),
        event.contains_key(FIELD_DATA@),
        wire::survives(event[FIELD_META@]),
        wire::survives(event[FIELD_DATA@]),
        levels_read_back(insert_query(stream, event).params, event),
    ensures
        columns_refusal(event) is None,
        row_reads(cells_of(position, stream, event)) == Ok::<Stored, Failure>(
            Stored { position: position as u64, stream, event: Json::Object(event) },
        ),
{
    event::fields_differ();
    event::stored_exactly(event);
    assert(event::stored_entry_refusal(FIELD_SEQ@, event[FIELD_SEQ@]) is None);
    stored_number_reads_back(event[FIELD_SEQ@].as_u64()->0);
    stored_number_reads_back(event[FIELD_EPOCH_MS@].as_u64()->0);
    stored_number_reads_back(event[FIELD_SCHEMA_VERSION@].as_u64()->0);
    let back = event_of(
        event[FIELD_KIND@].as_text()->0,
        event[FIELD_META@],
        event[FIELD_DATA@],
        event[FIELD_SEQ@].as_u64()->0,
        event[FIELD_EPOCH_MS@].as_u64()->0,
        event[FIELD_SCHEMA_VERSION@].as_u64()->0,
    );
    assert forall|key: Seq<char>| #[trigger] event.dom().contains(key) implies back.dom().contains(
        key,
    ) by {
        assert(event.contains_key(key));
        assert(event::stored_entry_refusal(key, event[key]) is None);
    }
    assert(back.dom() =~= event.dom());
    assert(back =~= event);
}

/// A row holds its columns, and a stored event its coordinates and itself.
pub proof fn rows_hold_their_columns(raw: RawRow, stored: StoredRow)
    ensures
        raw@.position == raw.position,
        raw@.stream == raw.stream@,
        raw@.seq == raw.seq,
        raw@.epoch_ms == raw.epoch_ms,
        raw@.kind == raw.kind@,
        raw@.schema_version == raw.schema_version,
        raw@.meta == raw.meta@,
        raw@.data == raw.data@,
        stored@.position == stored.position,
        stored@.stream == stored.stream@,
        stored@.event == stored.event@,
{
}

/// A level is what the event holds there, and `null` where it holds nothing.
pub proof fn levels_are_what_the_event_holds(event: Map<Seq<char>, Json>, key: Seq<char>)
    ensures
        event.contains_key(key) ==> level(event, key) == event[key],
        !event.contains_key(key) ==> level(event, key) is Null,
{
}

} // verus!
