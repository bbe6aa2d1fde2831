//! Moving a log somewhere else, and getting the same log back.
//!
//! An [`ExportedEvent`] carries the whole stored object; the receiving log
//! keeps all of it and reassigns only `seq` and `position`. Each record also
//! carries the position it had where it came from: a witness, not an
//! instruction, by which an import can say whether it reproduced the log.

use vstd::prelude::*;
use vstd::utf8::encode_utf8;

use crate::error::{Error, Failure};
use crate::event;
use crate::json::wire;
use crate::json::{Json, Object, Value};
use crate::position::{Committed, Position};
use crate::text;

verus! {

/// One event as it travels: the stored object, plus where it lived.
#[derive(Debug, PartialEq, Eq)]
pub struct ExportedEvent {
    pub stream: String,
    /// The position it had in the source log, or `None` when it came from
    /// somewhere that has none.
    pub position: Option<Position>,
    /// The stored object, `seq`, `epoch_ms` and `_schema_version` among its
    /// keys.
    pub event: Object,
}

/// What an [`ExportedEvent`] holds.
pub ghost struct Exported {
    pub stream: Seq<char>,
    pub position: Option<Position>,
    pub event: Map<Seq<char>, Json>,
}

/// A record as one JSON object. A record without a position has no key for it.
pub open spec fn exported_json(record: Exported) -> Json {
    let named = Map::<Seq<char>, Json>::empty().insert("stream"@, Json::String(record.stream));
    let placed = match record.position {
        Some(position) => named.insert("position"@, event::whole(position.0)),
        None => named,
    };
    Json::Object(placed.insert("event"@, Json::Object(record.event)))
}

/// The record a JSON value holds, or why it is not one.
pub open spec fn exported_from(value: Json) -> Result<Exported, Seq<char>> {
    match value {
        Json::Object(object) => if !(object.contains_key("stream"@)
            && object["stream"@] is String && object["stream"@]->String_0.len() > 0) {
            Err("`stream` is required and must be a string"@)
        } else if object.contains_key("position"@) && !(object["position"@] is Null)
            && object["position"@].as_u64() is None {
            Err("`position` must be a non-negative integer, `null`, or absent"@)
        } else if !(object.contains_key("event"@) && object["event"@] is Object) {
            Err("`event` is required and must be an object"@)
        } else {
            let event = object["event"@]->Object_0;
            match event::stored_refusal(event) {
                Some(message) => Err(message),
                None => Ok(
                    Exported {
                        stream: object["stream"@]->String_0,
                        position: if object.contains_key("position"@) && !(object["position"@] is Null) {
                            Some(Position(object["position"@].as_u64()->0))
                        } else {
                            None
                        },
                        event,
                    },
                ),
            }
        },
        _ => Err("an exported record must be an object"@),
    }
}

impl ExportedEvent {
    pub open spec fn view(&self) -> Exported {
        Exported { stream: self.stream@, position: self.position, event: self.event@ }
    }

    /// The record as one JSON object.
    pub fn to_json(&self) -> (value: Value)
        ensures
            value@ == exported_json(self@),
    {
        let mut object = Object::new();
        object.insert("stream".to_owned(), Value::String(self.stream.clone()));
        if let Some(position) = self.position {
            object.insert("position".to_owned(), Value::unsigned(position.get()));
        }
        let copy = self.event.clone();
        object.insert("event".to_owned(), Value::Object(copy));
        Value::Object(object)
    }

    /// The record a JSON value holds.
    ///
    /// A missing `position` and an explicit `null` are the same answer: there
    /// was no witness. A position that is present and unreadable is refused.
    pub fn from_json(value: Value) -> (record: Result<Self, Error>)
        ensures
            record is Ok <==> exported_from(value@) is Ok,
            record is Ok ==> record->Ok_0@ == exported_from(value@)->Ok_0,
            record is Err ==> record->Err_0@ == Failure::Validation(exported_from(value@)->Err_0),
    {
        let ghost given = value@;
        proof {
            keys_differ();
        }
        let mut object = match value {
            Value::Object(object) => object,
            _ => {
                return Err(Error::validation("an exported record must be an object".to_owned()));
            },
        };
        let stream = match object.remove("stream") {
            Some(Value::String(stream)) => {
                if stream.as_str().is_empty() {
                    return Err(
                        Error::validation("`stream` is required and must be a string".to_owned()),
                    );
                }
                stream
            },
            _ => {
                return Err(
                    Error::validation("`stream` is required and must be a string".to_owned()),
                );
            },
        };
        let position = match object.remove("position") {
            None | Some(Value::Null) => None,
            Some(value) => match value.as_u64() {
                Some(position) => Some(Position::new(position)),
                None => {
                    return Err(
                        Error::validation(
                            "`position` must be a non-negative integer, `null`, or absent".to_owned(),
                        ),
                    );
                },
            },
        };
        let event = match object.remove("event") {
            Some(Value::Object(event)) => event,
            _ => {
                return Err(
                    Error::validation("`event` is required and must be an object".to_owned()),
                );
            },
        };
        match event::validate_stored(&event) {
            Ok(()) => {},
            Err(error) => {
                return Err(error);
            },
        }
        Ok(ExportedEvent { stream, position, event })
    }
}

impl Clone for ExportedEvent {
    fn clone(&self) -> (copy: Self)
        ensures
            copy@ == self@,
    {
        ExportedEvent {
            stream: self.stream.clone(),
            position: self.position,
            event: self.event.clone(),
        }
    }
}

/// The keys of a record are three different keys.
proof fn keys_differ()
    ensures
        "stream"@ != "position"@,
        "stream"@ != "event"@,
        "position"@ != "event"@,
{
    reveal_strlit("stream");
    reveal_strlit("position");
    reveal_strlit("event");
    assert("stream"@[0] == 's');
    assert("position"@[0] == 'p');
    assert("event"@[0] == 'e');
}

/// What was written out reads back: a record of a named stream whose event
/// can be stored comes back from its JSON as it was, its position or the lack
/// of one included.
pub proof fn records_read_back(record: Exported)
    requires
        record.stream.len() > 0,
        event::stored_refusal(record.event) is None,
    ensures
        exported_from(exported_json(record)) == Ok::<Exported, Seq<char>>(record),
{
    keys_differ();
}

/// A value is read as a record exactly when it is an object with a stream that
/// has a name, a position that is a whole number, `null` or left out, and an
/// event that can be stored; and it is read as just these.
pub proof fn records_are_read_exactly(value: Json)
    ensures
        exported_from(value) is Ok <==> {
            let object = value->Object_0;
            &&& value is Object
            &&& object.contains_key("stream"@) && object["stream"@] is String
                && object["stream"@]->String_0.len() > 0
            &&& object.contains_key("position"@) ==> object["position"@] is Null || (
            object["position"@] is Number && object["position"@]->Number_0 is PosInt)
            &&& object.contains_key("event"@) && object["event"@] is Object
            &&& event::stored_refusal(object["event"@]->Object_0) is None
        },
        exported_from(value) is Ok ==> {
            let object = value->Object_0;
            let record = exported_from(value)->Ok_0;
            &&& record.stream == object["stream"@]->String_0
            &&& record.event == object["event"@]->Object_0
            &&& object.contains_key("position"@) && object["position"@] is Number
                ==> record.position == Some(Position(object["position"@]->Number_0->PosInt_0))
            &&& !object.contains_key("position"@) || object["position"@] is Null
                ==> record.position is None
        },
{
}

/// A record is written as one object of its three keys: its stream, its event
/// as it is stored, and its position where it has one.
pub proof fn records_are_written_exactly(record: Exported)
    ensures
        exported_json(record) is Object,
        ({
            let object = exported_json(record)->Object_0;
            &&& object.contains_key("stream"@) && object["stream"@] == Json::String(record.stream)
            &&& object.contains_key("event"@) && object["event"@] == Json::Object(record.event)
            &&& object.contains_key("position"@) <==> record.position is Some
            &&& record.position is Some ==> object["position"@] == Json::Number(
                crate::json::Number::PosInt((record.position->0).0),
            )
            &&& forall|key: Seq<char>| #[trigger]
                object.contains_key(key) ==> key == "stream"@ || key == "event"@ || key
                    == "position"@
        }),
{
    keys_differ();
}

/// What an import did.
#[derive(Debug, Clone, Copy, PartialEq, Eq, Structural)]
pub struct ImportReport {
    pub imported: usize,
    /// Where the imported run landed, or `None` if nothing was imported.
    pub first: Option<Position>,
    pub last: Option<Position>,
    /// Whether every event landed at the position it carried. False is not an
    /// error: merging into a store that has history renumbers by design.
    pub reproduced_coordinates: bool,
}

/// Whether every record landed on the position it carried. A record without a
/// witness did not.
pub open spec fn reproduced(committed: Seq<Committed>, records: Seq<Exported>) -> bool {
    forall|i: int|
        0 <= i < records.len() ==> (#[trigger] records[i]).position is Some
            && committed[i].position == records[i].position
}

/// The views of a sequence of records.
pub open spec fn record_views(records: Seq<ExportedEvent>) -> Seq<Exported> {
    Seq::new(records.len(), |i: int| records[i]@)
}

/// What an import of `records` that landed as `committed` reports.
pub open spec fn report_of(committed: Seq<Committed>, records: Seq<Exported>) -> ImportReport {
    ImportReport {
        imported: committed.len() as usize,
        first: if committed.len() > 0 {
            committed[0].position
        } else {
            None
        },
        last: if committed.len() > 0 {
            committed.last().position
        } else {
            None
        },
        reproduced_coordinates: reproduced(committed, records),
    }
}

/// What an import reports: how many events landed, where the first and the last
/// of them did, and that it reproduced the log exactly when every record
/// carried a position and landed on it.
pub proof fn reports_say_where_records_landed(committed: Seq<Committed>, records: Seq<Exported>)
    requires
        committed.len() == records.len(),
        committed.len() <= usize::MAX,
    ensures
        ({
            let report = report_of(committed, records);
            &&& report.imported == committed.len()
            &&& committed.len() == 0 ==> report.first is None && report.last is None
            &&& committed.len() > 0 ==> report.first == committed[0].position && report.last
                == committed[committed.len() - 1].position
            &&& report.reproduced_coordinates <==> forall|i: int|
                0 <= i < records.len() ==> (#[trigger] records[i]).position is Some
                    && committed[i].position is Some && (records[i].position->0).0 == (
                committed[i].position->0).0
        }),
{
    let report = report_of(committed, records);
    if report.reproduced_coordinates {
        assert forall|i: int| 0 <= i < records.len() implies (
        #[trigger] records[i]).position is Some && committed[i].position is Some && (
        records[i].position->0).0 == (committed[i].position->0).0 by {}
    }
}

impl ImportReport {
    /// What an import of no records reports.
    pub fn nothing() -> (report: Self)
        ensures
            report == (ImportReport {
                imported: 0,
                first: None,
                last: None,
                reproduced_coordinates: true,
            }),
            report == report_of(Seq::empty(), Seq::empty()),
    {
        ImportReport { imported: 0, first: None, last: None, reproduced_coordinates: true }
    }

    /// What an import reports, given where its records landed.
    pub fn landed(committed: &[Committed], records: &[ExportedEvent]) -> (report: Self)
        requires
            committed@.len() == records@.len(),
        ensures
            report == report_of(committed@, record_views(records@)),
    {
        let ghost views = record_views(records@);
        let mut same = true;
        let mut i: usize = 0;
        while i < records.len() && same
            invariant
                views == record_views(records@),
                committed@.len() == records@.len(),
                i <= records@.len(),
                same ==> forall|j: int|
                    0 <= j < i ==> (#[trigger] views[j]).position is Some && committed@[j].position
                        == views[j].position,
                !same ==> !reproduced(committed@, views),
            decreases records@.len() - i,
        {
            let witness = records[i].position;
            let landed = committed[i].position;
            same = match (witness, landed) {
                (Some(witness), Some(landed)) => witness.get() == landed.get(),
                _ => false,
            };
            proof {
                assert(views[i as int].position == witness);
            }
            i += 1;
        }
        let count: usize = committed.len();
        ImportReport {
            imported: count,
            first: if count > 0 {
                committed[0].position
            } else {
                None
            },
            last: if count > 0 {
                committed[count - 1].position
            } else {
                None
            },
            reproduced_coordinates: same,
        }
    }
}

/// The total number of events some reports speak of.
pub open spec fn total_imported(reports: Seq<ImportReport>) -> nat
    decreases reports.len(),
{
    if reports.len() == 0 {
        0
    } else {
        total_imported(reports.drop_last()) + reports.last().imported as nat
    }
}

/// The total is the sum over the pages: nothing before the first, and each
/// page's count on top.
pub proof fn totals_add_up(reports: Seq<ImportReport>, next: ImportReport)
    ensures
        total_imported(Seq::empty()) == 0,
        total_imported(reports.push(next)) == total_imported(reports) + next.imported,
{
    assert(reports.push(next).drop_last() =~= reports);
}

/// A destination that takes pages in order into another log, and keeps that
/// log's answer to each.
#[derive(Debug)]
pub struct LogSink<L> {
    target: L,
    reports: Vec<ImportReport>,
}

impl<L> LogSink<L> {
    /// The log the pages go to.
    pub closed spec fn destination(&self) -> L {
        self.target
    }

    /// The answers so far.
    pub closed spec fn answered(&self) -> Seq<ImportReport> {
        self.reports@
    }

    pub fn new(target: L) -> (sink: Self)
        ensures
            sink.destination() == target,
            sink.answered() == Seq::<ImportReport>::empty(),
    {
        LogSink { target, reports: Vec::new() }
    }

    /// The log the pages go to.
    pub fn target(&self) -> (target: &L)
        ensures
            *target == self.destination(),
    {
        &self.target
    }

    /// Keeps the answer to one page. An empty page is not a write and leaves
    /// no report.
    pub fn took(&mut self, page: usize, report: ImportReport)
        ensures
            final(self).destination() == old(self).destination(),
            page == 0 ==> final(self).answered() == old(self).answered(),
            page > 0 ==> final(self).answered() == old(self).answered().push(report),
    {
        if page > 0 {
            self.reports.push(report);
        }
    }

    /// One report per page written, in order.
    pub fn reports(&self) -> (reports: &[ImportReport])
        ensures
            reports@ == self.answered(),
    {
        self.reports.as_slice()
    }

    /// How many events the receiving log took across every page.
    pub fn imported(&self) -> (total: usize)
        requires
            total_imported(self.answered()) <= usize::MAX,
        ensures
            total == total_imported(self.answered()),
    {
        let mut total: usize = 0;
        let mut i: usize = 0;
        proof {
            assert(self.reports@.take(0) =~= Seq::<ImportReport>::empty());
        }
        while i < self.reports.len()
            invariant
                i <= self.reports@.len(),
                total_imported(self.reports@) <= usize::MAX,
                total == total_imported(self.reports@.take(i as int)),
            decreases self.reports@.len() - i,
        {
            proof {
                assert(self.reports@.take(i + 1).drop_last() =~= self.reports@.take(i as int));
                fewer_import_less(self.reports@, i + 1);
            }
            total = total + self.reports[i].imported;
            i += 1;
        }
        proof {
            assert(self.reports@.take(i as int) =~= self.reports@);
        }
        total
    }

    /// Whether every page landed on the coordinates it carried, and `true`
    /// before the first.
    pub fn reproduced_coordinates(&self) -> (all: bool)
        ensures
            all == forall|i: int|
                0 <= i < self.answered().len() ==> (#[trigger] self.answered()[
                    i
                ]).reproduced_coordinates,
    {
        let mut i: usize = 0;
        while i < self.reports.len()
            invariant
                i <= self.reports@.len(),
                forall|j: int|
                    0 <= j < i ==> (#[trigger] self.reports@[j]).reproduced_coordinates,
            decreases self.reports@.len() - i,
        {
            if !self.reports[i].reproduced_coordinates {
                proof {
                    assert(!self.answered()[i as int].reproduced_coordinates);
                }
                return false;
            }
            i += 1;
        }
        true
    }
}

proof fn fewer_import_less(reports: Seq<ImportReport>, n: int)
    requires
        0 <= n <= reports.len(),
    ensures
        total_imported(reports.take(n)) <= total_imported(reports),
    decreases reports.len() - n,
{
    if n == reports.len() {
        assert(reports.take(n) =~= reports);
    } else {
        assert(reports.take(n + 1).drop_last() =~= reports.take(n));
        fewer_import_less(reports, n + 1);
    }
}

/// A destination that takes one JSON object per line into a writer.
#[derive(Debug)]
pub struct JsonLinesSink<W> {
    writer: W,
}

impl<W> JsonLinesSink<W> {
    /// The writer the lines go to.
    pub closed spec fn destination(&self) -> W {
        self.writer
    }

    pub fn new(writer: W) -> (sink: Self)
        ensures
            sink.destination() == writer,
    {
        JsonLinesSink { writer }
    }

    /// The writer back, for the caller that needs what it collected.
    pub fn into_inner(self) -> (writer: W)
        ensures
            writer == self.destination(),
    {
        self.writer
    }

    pub fn get_ref(&self) -> (writer: &W)
        ensures
            *writer == self.destination(),
    {
        &self.writer
    }

    /// The writer, to put a page's lines in.
    pub fn get_mut(&mut self) -> (writer: &mut W)
        ensures
            *writer == old(self).destination(),
            final(self).destination() == *final(writer),
    {
        &mut self.writer
    }
}

/// The text a record is written as.
pub open spec fn line_text(record: Exported) -> Seq<char> {
    wire::rendered(exported_json(record))
}

/// Lines one after the other, each ended by a line feed.
pub open spec fn lines_of(lines: Seq<Seq<u8>>) -> Seq<u8>
    decreases lines.len(),
{
    if lines.len() == 0 {
        Seq::empty()
    } else {
        lines[0].push(10u8) + lines_of(lines.drop_first())
    }
}

/// The lines of a page.
pub open spec fn page_lines(page: Seq<Exported>) -> Seq<Seq<u8>> {
    Seq::new(page.len(), |i: int| encode_utf8(line_text(page[i])))
}

/// The bytes a page is written as: one JSON object per line.
pub fn json_lines(page: &[ExportedEvent]) -> (bytes: Vec<u8>)
    ensures
        bytes@ == lines_of(page_lines(record_views(page@))),
        forall|i: int|
            0 <= i < page@.len() ==> wire::single_line(line_text(#[trigger] record_views(page@)[i])),
        forall|i: int|
            0 <= i < page@.len() && wire::survives(
                exported_json(#[trigger] record_views(page@)[i]),
            ) ==> wire::reads_as(
                line_text(record_views(page@)[i]),
                exported_json(record_views(page@)[i]),
            ),
{
    let ghost views = record_views(page@);
    let ghost lines = page_lines(views);
    let mut bytes: Vec<u8> = Vec::new();
    let mut i: usize = 0;
    proof {
        assert(lines.skip(0) =~= lines);
        assert(bytes@ + lines_of(lines) =~= lines_of(lines));
    }
    while i < page.len()
        invariant
            views == record_views(page@),
            lines == page_lines(views),
            i <= page@.len(),
            bytes@ + lines_of(lines.skip(i as int)) == lines_of(lines),
            forall|j: int| 0 <= j < i ==> wire::single_line(line_text(#[trigger] views[j])),
            forall|j: int|
                0 <= j < i && wire::survives(exported_json(#[trigger] views[j])) ==> wire::reads_as(
                    line_text(views[j]),
                    exported_json(views[j]),
                ),
        decreases page@.len() - i,
    {
        let text = page[i].to_json().render();
        let ghost before = bytes@;
        let mut line = text.as_str().as_bytes_vec();
        line.push(10u8);
        let ghost added = line@;
        bytes.append(&mut line);
        proof {
            let rest = lines.skip(i as int);
            assert(views[i as int] == page@[i as int]@);
            assert(rest[0] == lines[i as int]);
            assert(rest.drop_first() =~= lines.skip(i + 1));
            assert(added =~= rest[0].push(10u8));
            assert(bytes@ =~= before + added);
            assert(before + (added + lines_of(rest.drop_first())) =~= (before + added) + lines_of(
                rest.drop_first(),
            ));
        }
        i += 1;
    }
    proof {
        assert(lines.skip(i as int) =~= Seq::<Seq<u8>>::empty());
        assert(bytes@ + Seq::<u8>::empty() =~= bytes@);
    }
    bytes
}

/// Where the first line of some bytes ends.
pub open spec fn line_end(bytes: Seq<u8>) -> nat
    decreases bytes.len(),
{
    if bytes.len() == 0 || bytes[0] == 10u8 {
        0
    } else {
        1 + line_end(bytes.drop_first())
    }
}

/// The lines of some bytes.
pub open spec fn split_lines(bytes: Seq<u8>) -> Seq<Seq<u8>>
    decreases bytes.len(),
{
    if bytes.len() == 0 {
        Seq::empty()
    } else if line_end(bytes) >= bytes.len() {
        seq![bytes]
    } else {
        seq![bytes.take(line_end(bytes) as int)] + split_lines(
            bytes.skip(line_end(bytes) as int + 1),
        )
    }
}

proof fn line_ends_there(line: Seq<u8>, rest: Seq<u8>)
    requires
        !line.contains(10u8),
    ensures
        line_end(line.push(10u8) + rest) == line.len(),
    decreases line.len(),
{
    let bytes = line.push(10u8) + rest;
    if line.len() > 0 {
        let shorter = line.drop_first();
        assert(line.contains(line[0]));
        assert forall|b: u8| shorter.contains(b) implies line.contains(b) by {
            let i = choose|i: int| 0 <= i < shorter.len() && shorter[i] == b;
            assert(line[i + 1] == b);
        }
        line_ends_there(shorter, rest);
        assert(bytes.drop_first() =~= shorter.push(10u8) + rest);
        assert(bytes[0] == line[0]);
    } else {
        assert(bytes[0] == 10u8);
    }
}

proof fn lines_split_again(lines: Seq<Seq<u8>>)
    requires
        forall|i: int| 0 <= i < lines.len() ==> !(#[trigger] lines[i]).contains(10u8),
    ensures
        split_lines(lines_of(lines)) == lines,
    decreases lines.len(),
{
    if lines.len() == 0 {
        assert(split_lines(lines_of(lines)) =~= lines);
    } else {
        let rest = lines.drop_first();
        let bytes = lines_of(lines);
        line_ends_there(lines[0], lines_of(rest));
        lines_split_again(rest);
        assert(bytes.take(lines[0].len() as int) =~= lines[0]);
        assert(bytes.skip(lines[0].len() as int + 1) =~= lines_of(rest));
        assert(seq![lines[0]] + rest =~= lines);
    }
}

/// A file of lines reads back with nothing but a line splitter: given what
/// [`json_lines`] says of its texts, splitting a page's bytes gives one line
/// per record, and the value of each line is that record again.
pub proof fn lines_read_back(page: Seq<Exported>)
    requires
        forall|i: int| 0 <= i < page.len() ==> wire::single_line(line_text(#[trigger] page[i])),
        forall|i: int|
            0 <= i < page.len() ==> wire::reads_as(
                line_text(#[trigger] page[i]),
                exported_json(page[i]),
            ),
        forall|i: int|
            0 <= i < page.len() ==> (#[trigger] page[i]).stream.len() > 0 && event::stored_refusal(
                page[i].event,
            ) is None,
    ensures
        split_lines(lines_of(page_lines(page))) == page_lines(page),
        forall|i: int|
            0 <= i < page.len() ==> exported_from(wire::parsed(line_text(#[trigger] page[i]))->Ok_0)
                == Ok::<Exported, Seq<char>>(page[i]),
{
    let lines = page_lines(page);
    assert forall|i: int| 0 <= i < lines.len() implies !(#[trigger] lines[i]).contains(10u8) by {
        assert(wire::single_line(line_text(page[i])));
        text::line_feeds_encode_as_themselves(line_text(page[i]));
    }
    lines_split_again(lines);
    assert forall|i: int| 0 <= i < page.len() implies exported_from(
        wire::parsed(line_text(#[trigger] page[i]))->Ok_0,
    ) == Ok::<Exported, Seq<char>>(page[i]) by {
        records_read_back(page[i]);
    }
}

proof fn lines_join(a: Seq<Seq<u8>>, b: Seq<Seq<u8>>)
    ensures
        lines_of(a + b) == lines_of(a) + lines_of(b),
    decreases a.len(),
{
    if a.len() == 0 {
        assert(a + b =~= b);
        assert(lines_of(a) + lines_of(b) =~= lines_of(b));
    } else {
        lines_join(a.drop_first(), b);
        assert((a + b).drop_first() =~= a.drop_first() + b);
        assert(lines_of(a + b) =~= lines_of(a) + lines_of(b));
    }
}

/// The bytes of two pages written one after the other are those of one page
/// that holds the records of both.
pub proof fn pages_join(p: Seq<Exported>, q: Seq<Exported>)
    ensures
        lines_of(page_lines(p + q)) == lines_of(page_lines(p)) + lines_of(page_lines(q)),
{
    assert(page_lines(p + q) =~= page_lines(p) + page_lines(q));
    lines_join(page_lines(p), page_lines(q));
}

/// What a writer holds after these pages were written to it, in order.
pub open spec fn written(pages: Seq<Seq<Exported>>) -> Seq<u8>
    decreases pages.len(),
{
    if pages.len() == 0 {
        Seq::empty()
    } else {
        written(pages.drop_last()) + lines_of(page_lines(pages.last()))
    }
}

/// The records of some pages, in order.
pub open spec fn all_records(pages: Seq<Seq<Exported>>) -> Seq<Exported>
    decreases pages.len(),
{
    if pages.len() == 0 {
        Seq::empty()
    } else {
        all_records(pages.drop_last()) + pages.last()
    }
}

proof fn written_is_one_page(pages: Seq<Seq<Exported>>)
    ensures
        written(pages) == lines_of(page_lines(all_records(pages))),
    decreases pages.len(),
{
    if pages.len() == 0 {
        assert(page_lines(all_records(pages)) =~= Seq::<Seq<u8>>::empty());
    } else {
        written_is_one_page(pages.drop_last());
        pages_join(all_records(pages.drop_last()), pages.last());
    }
}

/// Every record of all the pages is in one of them.
proof fn record_is_in_a_page(pages: Seq<Seq<Exported>>, at: int) -> (place: (int, int))
    requires
        0 <= at < all_records(pages).len(),
    ensures
        0 <= place.0 < pages.len(),
        0 <= place.1 < pages[place.0].len(),
        pages[place.0][place.1] == all_records(pages)[at],
    decreases pages.len(),
{
    let front = all_records(pages.drop_last());
    if at < front.len() {
        let place = record_is_in_a_page(pages.drop_last(), at);
        assert(pages.drop_last()[place.0] == pages[place.0]);
        place
    } else {
        (pages.len() - 1, at - front.len())
    }
}

/// A file of lines reads back however many writes it was made in: given what
/// [`json_lines`] says of the texts of each page, splitting what was written
/// gives one line per record of all the pages, in order, and the value of each
/// line is that record again.
pub proof fn writes_read_back(pages: Seq<Seq<Exported>>)
    requires
        forall|k: int, i: int|
            0 <= k < pages.len() && 0 <= i < pages[k].len() ==> {
                &&& wire::single_line(line_text(#[trigger] pages[k][i]))
                &&& wire::reads_as(line_text(pages[k][i]), exported_json(pages[k][i]))
                &&& pages[k][i].stream.len() > 0
                &&& event::stored_refusal(pages[k][i].event) is None
            },
    ensures
        split_lines(written(pages)) == page_lines(all_records(pages)),
        forall|i: int|
            0 <= i < all_records(pages).len() ==> exported_from(
                wire::parsed(line_text(#[trigger] all_records(pages)[i]))->Ok_0,
            ) == Ok::<Exported, Seq<char>>(all_records(pages)[i]),
{
    let all = all_records(pages);
    written_is_one_page(pages);
    assert forall|i: int| 0 <= i < all.len() implies {
        &&& wire::single_line(line_text(#[trigger] all[i]))
        &&& wire::reads_as(line_text(all[i]), exported_json(all[i]))
        &&& all[i].stream.len() > 0
        &&& event::stored_refusal(all[i].event) is None
    } by {
        let place = record_is_in_a_page(pages, i);
        assert(pages[place.0][place.1] == all[i]);
    }
    lines_read_back(all);
}

/// Where writing a page out can fail.
#[derive(Debug, Clone, Copy, PartialEq, Eq, Structural)]
pub enum SinkStep {
    Writing,
    Flushing,
}

impl SinkStep {
    /// How the step reads in a message.
    pub open spec fn spoken(self) -> Seq<char> {
        match self {
            SinkStep::Writing => "writing an export: "@,
            SinkStep::Flushing => "flushing an export: "@,
        }
    }

    /// The failure of a step, with what the writer said.
    pub fn failure(self, said: &str) -> (error: Error)
        ensures
            error@ == Failure::Storage(self.spoken() + said@),
    {
        let step = match self {
            SinkStep::Writing => "writing an export: ",
            SinkStep::Flushing => "flushing an export: ",
        };
        Error::storage(text::cat2(step, said))
    }
}

/// A record holds its fields, lists are viewed record by record, and a page's
/// lines are the texts of its records, one each.
pub proof fn exported_records_hold_their_fields(
    record: ExportedEvent,
    records: Seq<ExportedEvent>,
    page: Seq<Exported>,
    i: int,
)
    ensures
        record@.stream == record.stream@,
        record@.position == record.position,
        record@.event == record.event@,
        record_views(records).len() == records.len(),
        0 <= i < records.len() ==> record_views(records)[i] == records[i]@,
        page_lines(page).len() == page.len(),
        0 <= i < page.len() ==> page_lines(page)[i] == encode_utf8(
            wire::rendered(exported_json(page[i])),
        ),
        SinkStep::Writing.spoken() == "writing an export: "@,
        SinkStep::Flushing.spoken() == "flushing an export: "@,
{
}

/// Lines stand one after the other, each ended by a line feed.
pub proof fn lines_are_ended_by_line_feeds(line: Seq<u8>, rest: Seq<Seq<u8>>)
    ensures
        lines_of(Seq::empty()) == Seq::<u8>::empty(),
        lines_of(seq![line] + rest) == line.push(10u8) + lines_of(rest),
{
    assert((seq![line] + rest).drop_first() =~= rest);
}

} // verus!
