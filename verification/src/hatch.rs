//! The escape hatch: the caller's own SQL, on the log's connection.
//!
//! What it refuses, through SQLite's authorizer rather than by inspecting the
//! text: writing any of the log's own tables, creating anything a statement
//! could mistake for one of them in any schema, attaching another database,
//! and setting a pragma. Reading is allowed, a pragma included, and so is
//! adding an index to `events`.

use std::time::Duration;

use vstd::prelude::*;
use vstd::string::*;

use crate::error::{Error, Failure};
use crate::json::{wire, Json, Number, Object, Real, Value};
use crate::log;
use crate::params::{Bindings, Params};
use crate::sql::{self, Bound, SqlValue};
use crate::text;
use crate::upcast;

verus! {

/// Tables the log owns. Reading them is fine; writing them is not.
pub const RESERVED_TABLES: [&'static str; 6] = [
    "events",
    "stream_seq",
    "checkpoints",
    "retention",
    "exports",
    "sqlite_sequence",
];

/// Pragmas a caller may read with an argument, because the argument names
/// something to describe rather than state to set.
pub const READ_ONLY_PRAGMAS: [&'static str; 6] = [
    "table_info",
    "table_xinfo",
    "index_list",
    "index_info",
    "index_xinfo",
    "foreign_key_list",
];

/// Whether a list of names holds this one, whatever its ASCII case.
pub open spec fn named_in(name: Seq<char>, list: Seq<&str>) -> bool {
    exists|i: int| 0 <= i < list.len() && text::same_ignoring_case(#[trigger] list[i]@, name)
}

/// Whether a name is that of a table the log owns.
pub open spec fn reserved(table: Seq<char>) -> bool {
    named_in(table, RESERVED_TABLES@)
}

/// Whether a pragma only reads, whatever its argument.
pub open spec fn read_only_pragma(pragma: Seq<char>) -> bool {
    named_in(pragma, READ_ONLY_PRAGMAS@)
}

fn is_named_in(name: &str, list: &[&str]) -> (found: bool)
    ensures
        found == named_in(name@, list@),
{
    let mut i: usize = 0;
    while i < list.len()
        invariant
            i <= list@.len(),
            forall|j: int|
                0 <= j < i ==> !text::same_ignoring_case(#[trigger] list@[j]@, name@),
        decreases list@.len() - i,
    {
        if text::agree_ignoring_case(list[i], name) {
            proof {
                assert(text::same_ignoring_case(list@[i as int]@, name@));
            }
            return true;
        }
        i += 1;
    }
    false
}

pub fn is_reserved(table: &str) -> (yes: bool)
    ensures
        yes == reserved(table@),
{
    is_named_in(table, RESERVED_TABLES.as_slice())
}

pub fn is_read_only_pragma(pragma: &str) -> (yes: bool)
    ensures
        yes == read_only_pragma(pragma@),
{
    is_named_in(pragma, READ_ONLY_PRAGMAS.as_slice())
}

/// What a statement is about to do.
#[derive(Debug, Clone, Copy)]
pub enum Action<'c> {
    Insert { table_name: &'c str },
    Delete { table_name: &'c str },
    Update { table_name: &'c str },
    DropTable { table_name: &'c str },
    DropTempTable { table_name: &'c str },
    AlterTable { table_name: &'c str },
    CreateTrigger { table_name: &'c str },
    CreateTempTrigger { table_name: &'c str },
    DropTrigger { table_name: &'c str },
    DropTempTrigger { table_name: &'c str },
    CreateIndex { table_name: &'c str },
    DropIndex { table_name: &'c str },
    DropTempIndex { table_name: &'c str },
    CreateTable { table_name: &'c str },
    CreateTempTable { table_name: &'c str },
    CreateVtable { table_name: &'c str },
    CreateView { view_name: &'c str },
    CreateTempView { view_name: &'c str },
    Attach,
    Detach,
    Pragma { pragma_name: &'c str, has_value: bool },
    Read { table_name: &'c str },
    /// Anything else: it touches none of the log's tables and changes no
    /// setting.
    Other,
}

/// The answer to an attempted action.
#[derive(Debug, Clone, Copy, PartialEq, Eq, Structural)]
pub enum Authorization {
    Allow,
    Deny,
}

/// Whether an action would write, reshape or drop this table, or put a trigger
/// on it or take an index off it.
pub open spec fn alters(action: Action, table: Seq<char>) -> bool {
    match action {
        Action::Insert { table_name } => table_name@ == table,
        Action::Delete { table_name } => table_name@ == table,
        Action::Update { table_name } => table_name@ == table,
        Action::DropTable { table_name } => table_name@ == table,
        Action::DropTempTable { table_name } => table_name@ == table,
        Action::AlterTable { table_name } => table_name@ == table,
        Action::CreateTrigger { table_name } => table_name@ == table,
        Action::CreateTempTrigger { table_name } => table_name@ == table,
        Action::DropTrigger { table_name } => table_name@ == table,
        Action::DropTempTrigger { table_name } => table_name@ == table,
        Action::DropIndex { table_name } => table_name@ == table,
        Action::DropTempIndex { table_name } => table_name@ == table,
        _ => false,
    }
}

/// Whether an action would create, in any schema, something a statement could
/// read as the table of this name.
pub open spec fn shadows(action: Action, table: Seq<char>) -> bool {
    match action {
        Action::CreateTable { table_name } => table_name@ == table,
        Action::CreateTempTable { table_name } => table_name@ == table,
        Action::CreateVtable { table_name } => table_name@ == table,
        Action::CreateView { view_name } => view_name@ == table,
        Action::CreateTempView { view_name } => view_name@ == table,
        _ => false,
    }
}

/// Whether an action is refused to a caller's own statement.
pub open spec fn refused(action: Action) -> bool {
    ||| exists|table: Seq<char>| #[trigger] reserved(table) && (alters(action, table) || shadows(
        action,
        table,
    ))
    ||| action is Attach
    ||| action is Detach
    ||| action matches Action::Pragma { pragma_name, has_value } && has_value && !read_only_pragma(
        pragma_name@,
    )
}

/// Whether an attempted action is allowed. The log's own stamped statements
/// run trusted; everything else is held to the rules.
pub fn authorize(action: &Action, trusted: bool) -> (answer: Authorization)
    ensures
        answer is Deny <==> !trusted && refused(*action),
{
    if trusted {
        return Authorization::Allow;
    }
    match action {
        Action::Insert { table_name }
        | Action::Delete { table_name }
        | Action::Update { table_name }
        | Action::DropTable { table_name }
        | Action::DropTempTable { table_name }
        | Action::AlterTable { table_name }
        | Action::CreateTrigger { table_name }
        | Action::CreateTempTrigger { table_name }
        | Action::DropTrigger { table_name }
        | Action::DropTempTrigger { table_name }
        | Action::DropIndex { table_name }
        | Action::DropTempIndex { table_name } => {
            if is_reserved(table_name) {
                proof {
                    assert(reserved(table_name@) && alters(*action, table_name@));
                }
                Authorization::Deny
            } else {
                Authorization::Allow
            }
        },
        Action::CreateTable { table_name }
        | Action::CreateTempTable { table_name }
        | Action::CreateVtable { table_name } => {
            if is_reserved(table_name) {
                proof {
                    assert(reserved(table_name@) && shadows(*action, table_name@));
                }
                Authorization::Deny
            } else {
                Authorization::Allow
            }
        },
        Action::CreateView { view_name } | Action::CreateTempView { view_name } => {
            if is_reserved(view_name) {
                proof {
                    assert(reserved(view_name@) && shadows(*action, view_name@));
                }
                Authorization::Deny
            } else {
                Authorization::Allow
            }
        },
        Action::Attach | Action::Detach => Authorization::Deny,
        Action::Pragma { pragma_name, has_value } => {
            if *has_value && !is_read_only_pragma(pragma_name) {
                Authorization::Deny
            } else {
                Authorization::Allow
            }
        },
        Action::CreateIndex { .. } | Action::Read { .. } | Action::Other => Authorization::Allow,
    }
}

/// The tables the log owns, in any case, and the pragmas that only read.
pub proof fn reserved_tables_are_these(name: Seq<char>)
    ensures
        reserved(name) <==> text::same_ignoring_case("events"@, name) || text::same_ignoring_case(
            "stream_seq"@,
            name,
        ) || text::same_ignoring_case("checkpoints"@, name) || text::same_ignoring_case(
            "retention"@,
            name,
        ) || text::same_ignoring_case("exports"@, name) || text::same_ignoring_case(
            "sqlite_sequence"@,
            name,
        ),
        read_only_pragma(name) <==> text::same_ignoring_case("table_info"@, name)
            || text::same_ignoring_case("table_xinfo"@, name) || text::same_ignoring_case(
            "index_list"@,
            name,
        ) || text::same_ignoring_case("index_info"@, name) || text::same_ignoring_case(
            "index_xinfo"@,
            name,
        ) || text::same_ignoring_case("foreign_key_list"@, name),
{
    let tables = RESERVED_TABLES@;
    assert(tables.len() == 6);
    assert(tables[0]@ == "events"@ && tables[1]@ == "stream_seq"@ && tables[2]@ == "checkpoints"@
        && tables[3]@ == "retention"@ && tables[4]@ == "exports"@ && tables[5]@
        == "sqlite_sequence"@);
    let pragmas = READ_ONLY_PRAGMAS@;
    assert(pragmas.len() == 6);
    assert(pragmas[0]@ == "table_info"@ && pragmas[1]@ == "table_xinfo"@ && pragmas[2]@
        == "index_list"@ && pragmas[3]@ == "index_info"@ && pragmas[4]@ == "index_xinfo"@
        && pragmas[5]@ == "foreign_key_list"@);
}

/// What is refused to a caller, action by action: whatever writes, reshapes,
/// drops, triggers on or shadows a table of the log's, taking an index off one,
/// attaching and detaching, and a pragma with an argument unless it only reads.
/// Nothing else is.
pub proof fn refused_action_by_action(action: Action)
    ensures
        refused(action) <==> match action {
            Action::Insert { table_name } => reserved(table_name@),
            Action::Delete { table_name } => reserved(table_name@),
            Action::Update { table_name } => reserved(table_name@),
            Action::DropTable { table_name } => reserved(table_name@),
            Action::DropTempTable { table_name } => reserved(table_name@),
            Action::AlterTable { table_name } => reserved(table_name@),
            Action::CreateTrigger { table_name } => reserved(table_name@),
            Action::CreateTempTrigger { table_name } => reserved(table_name@),
            Action::DropTrigger { table_name } => reserved(table_name@),
            Action::DropTempTrigger { table_name } => reserved(table_name@),
            Action::CreateIndex { table_name: _ } => false,
            Action::DropIndex { table_name } => reserved(table_name@),
            Action::DropTempIndex { table_name } => reserved(table_name@),
            Action::CreateTable { table_name } => reserved(table_name@),
            Action::CreateTempTable { table_name } => reserved(table_name@),
            Action::CreateVtable { table_name } => reserved(table_name@),
            Action::CreateView { view_name } => reserved(view_name@),
            Action::CreateTempView { view_name } => reserved(view_name@),
            Action::Attach => true,
            Action::Detach => true,
            Action::Pragma { pragma_name, has_value } => has_value && !read_only_pragma(
                pragma_name@,
            ),
            Action::Read { table_name: _ } => false,
            Action::Other => false,
        },
{
    match action {
        Action::Insert { table_name }
        | Action::Delete { table_name }
        | Action::Update { table_name }
        | Action::DropTable { table_name }
        | Action::DropTempTable { table_name }
        | Action::AlterTable { table_name }
        | Action::CreateTrigger { table_name }
        | Action::CreateTempTrigger { table_name }
        | Action::DropTrigger { table_name }
        | Action::DropTempTrigger { table_name }
        | Action::DropIndex { table_name }
        | Action::DropTempIndex { table_name } => {
            assert(reserved(table_name@) ==> alters(action, table_name@));
        },
        Action::CreateTable { table_name }
        | Action::CreateTempTable { table_name }
        | Action::CreateVtable { table_name } => {
            assert(reserved(table_name@) ==> shadows(action, table_name@));
        },
        Action::CreateView { view_name }
        | Action::CreateTempView { view_name } => {
            assert(reserved(view_name@) ==> shadows(action, view_name@));
        },
        _ => {},
    }
}

/// No statement of a caller's changes the log's tables: an action that writes,
/// reshapes or drops one of them, or would pass for one of them, is refused,
/// whatever the case its name is spelled in.
pub proof fn the_log_is_out_of_reach(action: Action, table: Seq<char>)
    requires
        reserved(table),
        alters(action, table) || shadows(action, table),
    ensures
        refused(action),
{
}

/// Reading is never refused: neither a table, the log's own among them, nor a
/// pragma without an argument; and neither is adding an index to `events`.
pub proof fn reading_is_allowed(action: Action)
    requires
        action is Read || action is CreateIndex || (action matches Action::Pragma {
            pragma_name,
            has_value,
        } && !has_value),
    ensures
        !refused(action),
{
}

/// What a denial says.
pub open spec fn denial_text() -> Seq<char> {
    "not authorized inside the hatch: writing "@ + text::joined(
        text::slice_views(RESERVED_TABLES@),
        " / "@,
    )
        + " , attaching a database, setting a pragma, or reading one with an argument outside "@
        + text::joined(text::slice_views(READ_ONLY_PRAGMAS@), " / "@)
        + ". Append through a stream handle, remove through retention, and keep your own tables under your own names"@
}

/// The message a denial produces, which SQLite reports only as
/// "not authorized".
pub fn denied() -> (error: Error)
    ensures
        error@ == Failure::Unsupported(denial_text()),
{
    let tables = text::join(RESERVED_TABLES.as_slice(), " / ");
    let pragmas = text::join(READ_ONLY_PRAGMAS.as_slice(), " / ");
    Error::Unsupported(
        text::cat5(
            "not authorized inside the hatch: writing ",
            tables.as_str(),
            " , attaching a database, setting a pragma, or reading one with an argument outside ",
            pragmas.as_str(),
            ". Append through a stream handle, remove through retention, and keep your own tables under your own names",
        ),
    )
}

/// What a failure of a guarded statement is reported as.
pub open spec fn denial_mapped(failure: Failure) -> Failure {
    match failure {
        Failure::Storage(message) => if text::occurs("not authorized"@, message) {
            Failure::Unsupported(denial_text())
        } else {
            failure
        },
        _ => failure,
    }
}

/// Turns SQLite's bare "not authorized" into a message that says what was
/// refused and where to go instead.
pub fn map_denial(error: Error) -> (mapped: Error)
    ensures
        mapped@ == denial_mapped(error@),
{
    let refused = match &error {
        Error::Storage(message) => text::occurs_in("not authorized", message.as_str()),
        _ => false,
    };
    if refused {
        denied()
    } else {
        error
    }
}

/// What one statement through the hatch is allowed to do.
#[non_exhaustive]
#[derive(Debug, Clone, Copy)]
pub struct QueryOptions {
    /// A deadline for the statement. `None` is no deadline.
    pub timeout: Option<Duration>,
    /// Accept a substitute for a cell that has no JSON value, instead of
    /// refusing it.
    pub lossy: bool,
}

impl Default for QueryOptions {
    fn default() -> (options: Self)
        ensures
            options == (QueryOptions { timeout: None, lossy: false }),
    {
        QueryOptions { timeout: None, lossy: false }
    }
}

impl QueryOptions {
    /// A deadline for the statement.
    pub fn timeout(self, timeout: Duration) -> (options: Self)
        ensures
            options == (QueryOptions { timeout: Some(timeout), ..self }),
    {
        QueryOptions { timeout: Some(timeout), lossy: self.lossy }
    }

    /// Substitute rather than refuse a cell that has no JSON value.
    pub fn lossy(self, lossy: bool) -> (options: Self)
        ensures
            options == (QueryOptions { lossy, ..self }),
    {
        QueryOptions { timeout: self.timeout, lossy }
    }
}

/// What a JSON parameter is bound as, or why it cannot be.
pub open spec fn bind_outcome(value: Json) -> Result<Bound, Failure> {
    match value {
        Json::Null => Ok(Bound::Null),
        Json::Bool(b) => Ok(
            Bound::Integer(
                if b {
                    1
                } else {
                    0
                },
            ),
        ),
        Json::Number(Number::PosInt(n)) => if n <= i64::MAX {
            Ok(Bound::Integer(n as i64))
        } else {
            Err(
                Failure::Validation(
                    text::decimal_text(n as nat)
                        + " is above i64::MAX and SQLite's INTEGER is an i64, so it cannot be bound as one. Bind it as a string and compare against text, or narrow the value before binding"@,
                ),
            )
        },
        Json::Number(Number::NegInt(n)) => Ok(Bound::Integer(n.amount())),
        Json::Number(Number::Real(n)) => Ok(Bound::Real(n)),
        Json::String(s) => Ok(Bound::Text(s)),
        other => Ok(Bound::Text(wire::rendered(other))),
    }
}

/// Whether a call gave what an outcome says.
pub open spec fn gave_bound(result: Result<SqlValue, Error>, outcome: Result<Bound, Failure>) -> bool {
    match outcome {
        Ok(bound) => result is Ok && result->Ok_0@ == bound,
        Err(failure) => result is Err && result->Err_0@ == failure,
    }
}

/// Binds a JSON parameter. Arrays and objects go as their text; an integer
/// above the signed range is refused rather than rounded.
pub fn bind_value(value: &Value) -> (bound: Result<SqlValue, Error>)
    ensures
        gave_bound(bound, bind_outcome(value@)),
{
    match value {
        Value::Null => Ok(SqlValue::Null),
        Value::Bool(b) => Ok(
            SqlValue::Integer(
                if *b {
                    1
                } else {
                    0
                },
            ),
        ),
        Value::Number(Number::PosInt(n)) => {
            if *n <= i64::MAX as u64 {
                Ok(SqlValue::Integer(*n as i64))
            } else {
                Err(
                    Error::validation(
                        text::cat2(
                            text::decimal(*n).as_str(),
                            " is above i64::MAX and SQLite's INTEGER is an i64, so it cannot be bound as one. Bind it as a string and compare against text, or narrow the value before binding",
                        ),
                    ),
                )
            }
        },
        Value::Number(Number::NegInt(n)) => Ok(SqlValue::Integer(n.get())),
        Value::Number(Number::Real(n)) => Ok(SqlValue::Real(n.clone())),
        Value::String(s) => Ok(SqlValue::Text(s.clone())),
        other => Ok(SqlValue::Text(other.render())),
    }
}

/// What some parameters are bound as, or why the first that cannot be bound
/// cannot.
pub open spec fn bind_all(values: Seq<Json>) -> Result<Seq<Bound>, Failure>
    decreases values.len(),
{
    if values.len() == 0 {
        Ok(Seq::empty())
    } else {
        match bind_all(values.drop_last()) {
            Err(failure) => Err(failure),
            Ok(bound) => match bind_outcome(values.last()) {
                Err(failure) => Err(failure),
                Ok(last) => Ok(bound.push(last)),
            },
        }
    }
}

proof fn bind_failure_stays(values: Seq<Json>, n: int)
    requires
        0 <= n <= values.len(),
        bind_all(values.take(n)) is Err,
    ensures
        bind_all(values) == bind_all(values.take(n)),
    decreases values.len() - n,
{
    if n == values.len() {
        assert(values.take(n) =~= values);
    } else {
        assert(values.take(n + 1).drop_last() =~= values.take(n));
        bind_failure_stays(values, n + 1);
    }
}

/// The text without the sigils it begins with.
pub open spec fn without_sigils(name: Seq<char>) -> Seq<char>
    decreases name.len(),
{
    if name.len() > 0 && (name[0] == ':' || name[0] == '@' || name[0] == '$' || name[0] == '?') {
        without_sigils(name.drop_first())
    } else {
        name
    }
}

/// Why a statement's placeholders are not all supplied by name, if they are
/// not: the first that is not, counted from 1.
pub open spec fn unsupplied(
    declared: Seq<Option<Seq<char>>>,
    supplied: Seq<Seq<char>>,
) -> Option<Seq<char>>
    decreases declared.len(),
{
    if declared.len() == 0 {
        None
    } else {
        match unsupplied(declared.drop_last(), supplied) {
            Some(message) => Some(message),
            None => match declared.last() {
                Some(name) => if supplied.contains(name) {
                    None
                } else {
                    Some(
                        "the statement declares the parameter `"@ + name
                            + "` and nothing was bound to it. A name is the placeholder as written in the SQL, sigil included — `"@
                            + name + "`, not `"@ + without_sigils(name)
                            + "`. An unbound name would be read as NULL"@,
                    )
                },
                None => Some(
                    "parameter "@ + text::decimal_text(declared.len())
                        + " of this statement is positional and this call binds by name, so nothing supplies it. Number every placeholder or name every placeholder — SQLite counts both in one space, and mixing them is how a parameter ends up bound to the wrong value"@,
                ),
            },
        }
    }
}

proof fn unsupplied_stays(declared: Seq<Option<Seq<char>>>, supplied: Seq<Seq<char>>, n: int)
    requires
        0 <= n <= declared.len(),
        unsupplied(declared.take(n), supplied) is Some,
    ensures
        unsupplied(declared, supplied) == unsupplied(declared.take(n), supplied),
    decreases declared.len() - n,
{
    if n == declared.len() {
        assert(declared.take(n) =~= declared);
    } else {
        assert(declared.take(n + 1).drop_last() =~= declared.take(n));
        unsupplied_stays(declared, supplied, n + 1);
    }
}

/// Why one of the names given has no placeholder, if one has none: the first
/// that the statement does not declare.
pub open spec fn unmatched(
    declared: Seq<Option<Seq<char>>>,
    supplied: Seq<Seq<char>>,
) -> Option<Seq<char>>
    decreases supplied.len(),
{
    if supplied.len() == 0 {
        None
    } else {
        match unmatched(declared, supplied.drop_last()) {
            Some(message) => Some(message),
            None => if declared.contains(Some(supplied.last())) {
                None
            } else {
                Some(
                    "a value was given for `"@ + supplied.last()
                        + "` and the statement declares no such parameter. A name is the placeholder as written in the SQL, sigil included"@,
                )
            },
        }
    }
}

proof fn unmatched_stays(declared: Seq<Option<Seq<char>>>, supplied: Seq<Seq<char>>, n: int)
    requires
        0 <= n <= supplied.len(),
        unmatched(declared, supplied.take(n)) is Some,
    ensures
        unmatched(declared, supplied) == unmatched(declared, supplied.take(n)),
    decreases supplied.len() - n,
{
    if n == supplied.len() {
        assert(supplied.take(n) =~= supplied);
    } else {
        assert(supplied.take(n + 1).drop_last() =~= supplied.take(n));
        unmatched_stays(declared, supplied, n + 1);
    }
}

/// The names a statement declares, as texts; `None` for a placeholder without
/// one.
pub open spec fn declared_views(declared: Seq<Option<String>>) -> Seq<Option<Seq<char>>> {
    Seq::new(
        declared.len(),
        |i: int|
            match declared[i] {
                Some(name) => Some(name@),
                None => None,
            },
    )
}

/// The names some bound values go under.
pub open spec fn supplied_names(bound: Seq<(String, SqlValue)>) -> Seq<Seq<char>> {
    Seq::new(bound.len(), |i: int| bound[i].0@)
}

fn trim_sigils(name: &str) -> (bare: String)
    ensures
        bare@ == without_sigils(name@),
{
    let chars: Vec<char> = text::chars_of(name);
    let mut at: usize = 0;
    proof {
        assert(chars@.skip(0) =~= chars@);
    }
    while at < chars.len() && (chars[at] == ':' || chars[at] == '@' || chars[at] == '$' || chars[at]
        == '?')
        invariant
            chars@ == name@,
            at <= chars@.len(),
            without_sigils(name@) == without_sigils(chars@.skip(at as int)),
        decreases chars@.len() - at,
    {
        proof {
            assert(chars@.skip(at as int)[0] == chars@[at as int]);
            assert(chars@.skip(at as int).drop_first() =~= chars@.skip(at + 1));
        }
        at += 1;
    }
    let mut bare = String::new();
    let mut i: usize = at;
    while i < chars.len()
        invariant
            at <= i <= chars@.len(),
            bare@ == chars@.subrange(at as int, i as int),
        decreases chars@.len() - i,
    {
        bare.push(chars[i]);
        proof {
            assert(chars@.subrange(at as int, i + 1) =~= chars@.subrange(
                at as int,
                i as int,
            ).push(chars@[i as int]));
        }
        i += 1;
    }
    proof {
        assert(chars@.subrange(at as int, i as int) =~= chars@.skip(at as int));
        if at < chars@.len() {
            assert(chars@.skip(at as int)[0] == chars@[at as int]);
        }
    }
    bare
}

/// Refuses a named set that leaves one of the statement's placeholders
/// unbound: it would be read as `NULL`, and the statement would run, answer
/// nothing and report no fault.
pub fn every_declared_name_was_supplied(
    declared: &Vec<Option<String>>,
    bound: &Vec<(String, SqlValue)>,
) -> (checked: Result<(), Error>)
    ensures
        checked is Ok <==> unsupplied(declared_views(declared@), supplied_names(bound@)) is None,
        checked is Err ==> checked->Err_0@ == Failure::Validation(
            unsupplied(declared_views(declared@), supplied_names(bound@))->0,
        ),
{
    let ghost all = declared_views(declared@);
    let ghost supplied = supplied_names(bound@);
    let mut i: usize = 0;
    proof {
        assert(all.take(0) =~= Seq::<Option<Seq<char>>>::empty());
    }
    while i < declared.len()
        invariant
            all == declared_views(declared@),
            supplied == supplied_names(bound@),
            i <= declared@.len(),
            unsupplied(all.take(i as int), supplied) is None,
        decreases declared@.len() - i,
    {
        proof {
            assert(all.take(i + 1).drop_last() =~= all.take(i as int));
            assert(all.take(i + 1).last() == all[i as int]);
            assert(all.take(i + 1).len() == i + 1);
        }
        match &declared[i] {
            Some(name) => {
                let mut found = false;
                let mut k: usize = 0;
                while k < bound.len() && !found
                    invariant
                        k <= bound@.len(),
                        supplied == supplied_names(bound@),
                        found ==> supplied.contains(name@),
                        !found ==> forall|j: int| 0 <= j < k ==> supplied[j] != name@,
                    decreases bound@.len() - k,
                {
                    found = text::same(bound[k].0.as_str(), name.as_str());
                    proof {
                        assert(supplied[k as int] == bound@[k as int].0@);
                    }
                    k += 1;
                }
                if !found {
                    proof {
                        assert(!supplied.contains(name@));
                        unsupplied_stays(all, supplied, i + 1);
                    }
                    let front = text::cat5(
                        "the statement declares the parameter `",
                        name.as_str(),
                        "` and nothing was bound to it. A name is the placeholder as written in the SQL, sigil included — `",
                        name.as_str(),
                        "`, not `",
                    );
                    return Err(
                        Error::validation(
                            text::cat3(
                                front.as_str(),
                                trim_sigils(name.as_str()).as_str(),
                                "`. An unbound name would be read as NULL",
                            ),
                        ),
                    );
                }
            },
            None => {
                proof {
                    unsupplied_stays(all, supplied, i + 1);
                }
                return Err(
                    Error::validation(
                        text::cat3(
                            "parameter ",
                            text::decimal(i as u64 + 1).as_str(),
                            " of this statement is positional and this call binds by name, so nothing supplies it. Number every placeholder or name every placeholder — SQLite counts both in one space, and mixing them is how a parameter ends up bound to the wrong value",
                        ),
                    ),
                );
            },
        }
        i += 1;
    }
    proof {
        assert(all.take(i as int) =~= all);
    }
    Ok(())
}

/// Whether a statement declares a parameter of this name.
fn declares(declared: &Vec<Option<String>>, name: &str) -> (found: bool)
    ensures
        found == declared_views(declared@).contains(Some(name@)),
{
    let ghost all = declared_views(declared@);
    let mut i: usize = 0;
    while i < declared.len()
        invariant
            all == declared_views(declared@),
            i <= declared@.len(),
            forall|j: int| 0 <= j < i ==> #[trigger] all[j] != Some(name@),
        decreases declared@.len() - i,
    {
        if let Some(other) = &declared[i] {
            if text::same(other.as_str(), name) {
                proof {
                    assert(all[i as int] == Some(name@));
                }
                return true;
            }
        }
        i += 1;
    }
    false
}

/// Refuses a named set that gives a value to a name the statement does not
/// declare: without its sigil a name matches no placeholder, and would be
/// bound to nothing.
pub fn every_supplied_name_was_declared(
    declared: &Vec<Option<String>>,
    bound: &Vec<(String, SqlValue)>,
) -> (checked: Result<(), Error>)
    ensures
        checked is Ok <==> unmatched(declared_views(declared@), supplied_names(bound@)) is None,
        checked is Err ==> checked->Err_0@ == Failure::Validation(
            unmatched(declared_views(declared@), supplied_names(bound@))->0,
        ),
{
    let ghost all = declared_views(declared@);
    let ghost supplied = supplied_names(bound@);
    let mut i: usize = 0;
    proof {
        assert(supplied.take(0) =~= Seq::<Seq<char>>::empty());
    }
    while i < bound.len()
        invariant
            all == declared_views(declared@),
            supplied == supplied_names(bound@),
            i <= bound@.len(),
            unmatched(all, supplied.take(i as int)) is None,
        decreases bound@.len() - i,
    {
        proof {
            assert(supplied.take(i + 1).drop_last() =~= supplied.take(i as int));
            assert(supplied.take(i + 1).last() == bound@[i as int].0@);
        }
        if !declares(declared, bound[i].0.as_str()) {
            proof {
                unmatched_stays(all, supplied, i + 1);
            }
            return Err(
                Error::validation(
                    text::cat3(
                        "a value was given for `",
                        bound[i].0.as_str(),
                        "` and the statement declares no such parameter. A name is the placeholder as written in the SQL, sigil included",
                    ),
                ),
            );
        }
        i += 1;
    }
    proof {
        assert(supplied.take(i as int) =~= supplied);
    }
    Ok(())
}

/// Parameters ready to be bound.
#[derive(Debug)]
pub enum BoundParams {
    Positional(Vec<SqlValue>),
    Named(Vec<(String, SqlValue)>),
}

/// What [`BoundParams`] binds.
pub ghost enum BoundSet {
    Positional(Seq<Bound>),
    Named(Seq<(Seq<char>, Bound)>),
}

/// The views of a list of named values.
pub open spec fn named_views(bound: Seq<(String, SqlValue)>) -> Seq<(Seq<char>, Bound)> {
    Seq::new(bound.len(), |i: int| (bound[i].0@, bound[i].1@))
}

impl BoundParams {
    pub open spec fn view(&self) -> BoundSet {
        match *self {
            BoundParams::Positional(values) => BoundSet::Positional(sql::bound_views(values@)),
            BoundParams::Named(pairs) => BoundSet::Named(named_views(pairs@)),
        }
    }
}

/// The values of some named parameters.
pub open spec fn pair_values(pairs: Seq<(Seq<char>, Json)>) -> Seq<Json> {
    Seq::new(pairs.len(), |i: int| pairs[i].1)
}

/// The names of some named parameters.
pub open spec fn pair_names(pairs: Seq<(Seq<char>, Json)>) -> Seq<Seq<char>> {
    Seq::new(pairs.len(), |i: int| pairs[i].0)
}

/// What a statement that declares these placeholders is run with, or why it is
/// not run: it writes, a value cannot be bound, a placeholder is not supplied,
/// or a name matches no placeholder, in that order.
pub open spec fn prepared(
    readonly: bool,
    declared: Seq<Option<Seq<char>>>,
    params: Bindings,
) -> Result<BoundSet, Failure> {
    if !readonly {
        Err(
            Failure::Unsupported(
                "this statement writes; `query` only reads. Use `with_transaction` for your own tables, a stream handle to append, or retention to remove"@,
            ),
        )
    } else {
        match params {
            Bindings::Positional(values) => match bind_all(values) {
                Err(failure) => Err(failure),
                Ok(bound) => Ok(BoundSet::Positional(bound)),
            },
            Bindings::Named(pairs) => match bind_all(pair_values(pairs)) {
                Err(failure) => Err(failure),
                Ok(bound) => match unsupplied(declared, pair_names(pairs)) {
                    Some(message) => Err(Failure::Validation(message)),
                    None => match unmatched(declared, pair_names(pairs)) {
                        Some(message) => Err(Failure::Validation(message)),
                        None => Ok(
                            BoundSet::Named(
                                Seq::new(pairs.len(), |i: int| (pairs[i].0, bound[i])),
                            ),
                        ),
                    },
                },
            },
        }
    }
}

/// A named set that is accepted fits the statement: every placeholder is one
/// of the names given, and every name given is one of the placeholders.
pub proof fn accepted_names_match(
    readonly: bool,
    declared: Seq<Option<Seq<char>>>,
    pairs: Seq<(Seq<char>, Json)>,
)
    requires
        prepared(readonly, declared, Bindings::Named(pairs)) is Ok,
    ensures
        forall|i: int|
            0 <= i < declared.len() ==> (#[trigger] declared[i]) is Some && pair_names(
                pairs,
            ).contains(declared[i]->0),
        forall|i: int|
            0 <= i < pairs.len() ==> declared.contains(Some((#[trigger] pairs[i]).0)),
{
    let names = pair_names(pairs);
    all_supplied(declared, names);
    all_matched(declared, names);
    assert forall|i: int| 0 <= i < pairs.len() implies declared.contains(
        Some((#[trigger] pairs[i]).0),
    ) by {
        assert(names[i] == pairs[i].0);
    }
}

proof fn all_supplied(declared: Seq<Option<Seq<char>>>, supplied: Seq<Seq<char>>)
    requires
        unsupplied(declared, supplied) is None,
    ensures
        forall|i: int|
            0 <= i < declared.len() ==> (#[trigger] declared[i]) is Some && supplied.contains(
                declared[i]->0,
            ),
    decreases declared.len(),
{
    if declared.len() > 0 {
        let front = declared.drop_last();
        all_supplied(front, supplied);
        assert forall|i: int| 0 <= i < declared.len() implies (#[trigger] declared[i]) is Some
            && supplied.contains(declared[i]->0) by {
            if i < front.len() {
                assert(front[i] == declared[i]);
            }
        }
    }
}

proof fn all_matched(declared: Seq<Option<Seq<char>>>, supplied: Seq<Seq<char>>)
    requires
        unmatched(declared, supplied) is None,
    ensures
        forall|i: int|
            0 <= i < supplied.len() ==> declared.contains(Some(#[trigger] supplied[i])),
    decreases supplied.len(),
{
    if supplied.len() > 0 {
        let front = supplied.drop_last();
        all_matched(declared, front);
        assert forall|i: int| 0 <= i < supplied.len() implies declared.contains(
            Some(#[trigger] supplied[i]),
        ) by {
            if i < front.len() {
                assert(front[i] == supplied[i]);
            }
        }
    }
}

/// How many values some parameters are bound to.
proof fn bound_count(values: Seq<Json>)
    ensures
        bind_all(values) is Ok ==> bind_all(values)->Ok_0.len() == values.len(),
    decreases values.len(),
{
    if values.len() > 0 {
        bound_count(values.drop_last());
    }
}

fn bind_positional(values: &Vec<Value>) -> (bound: Result<Vec<SqlValue>, Error>)
    ensures
        match bind_all(upcast::value_views(values@)) {
            Ok(expected) => bound is Ok && sql::bound_views(bound->Ok_0@) == expected,
            Err(failure) => bound is Err && bound->Err_0@ == failure,
        },
{
    let ghost all = upcast::value_views(values@);
    let mut bound: Vec<SqlValue> = Vec::new();
    let mut i: usize = 0;
    proof {
        assert(all.take(0) =~= Seq::<Json>::empty());
        assert(sql::bound_views(bound@) =~= Seq::<Bound>::empty());
    }
    while i < values.len()
        invariant
            all == upcast::value_views(values@),
            i <= values@.len(),
            bind_all(all.take(i as int)) == Ok::<Seq<Bound>, Failure>(sql::bound_views(bound@)),
        decreases values@.len() - i,
    {
        proof {
            assert(all.take(i + 1).drop_last() =~= all.take(i as int));
            assert(all.take(i + 1).last() == values@[i as int]@);
        }
        let ghost had = sql::bound_views(bound@);
        match bind_value(&values[i]) {
            Ok(value) => {
                let ghost last = value@;
                bound.push(value);
                proof {
                    assert(sql::bound_views(bound@) =~= had.push(last));
                }
            },
            Err(error) => {
                proof {
                    bind_failure_stays(all, i + 1);
                }
                return Err(error);
            },
        }
        i += 1;
    }
    proof {
        assert(all.take(i as int) =~= all);
    }
    Ok(bound)
}

fn bind_named(pairs: &Vec<(String, Value)>) -> (bound: Result<Vec<(String, SqlValue)>, Error>)
    ensures
        match bind_all(pair_values(log::pair_views(pairs@))) {
            Ok(expected) => {
                &&& bound is Ok
                &&& named_views(bound->Ok_0@) == Seq::new(
                    pairs@.len(),
                    |i: int| (pairs@[i].0@, expected[i]),
                )
            },
            Err(failure) => bound is Err && bound->Err_0@ == failure,
        },
{
    let ghost all = pair_values(log::pair_views(pairs@));
    let mut bound: Vec<(String, SqlValue)> = Vec::new();
    let ghost mut values = Seq::<Bound>::empty();
    let mut i: usize = 0;
    proof {
        assert(all.take(0) =~= Seq::<Json>::empty());
    }
    while i < pairs.len()
        invariant
            all == pair_values(log::pair_views(pairs@)),
            i <= pairs@.len(),
            bind_all(all.take(i as int)) == Ok::<Seq<Bound>, Failure>(values),
            values.len() == i,
            bound@.len() == i,
            forall|j: int|
                0 <= j < i ==> (#[trigger] bound@[j]).0@ == pairs@[j].0@ && bound@[j].1@
                    == values[j],
        decreases pairs@.len() - i,
    {
        proof {
            assert(all.take(i + 1).drop_last() =~= all.take(i as int));
            assert(all.take(i + 1).last() == pairs@[i as int].1@);
        }
        let pair = &pairs[i];
        match bind_value(&pair.1) {
            Ok(value) => {
                proof {
                    values = values.push(value@);
                }
                bound.push((pair.0.clone(), value));
            },
            Err(error) => {
                proof {
                    bind_failure_stays(all, i + 1);
                }
                return Err(error);
            },
        }
        i += 1;
    }
    proof {
        assert(all.take(i as int) =~= all);
        assert(named_views(bound@) =~= Seq::new(
            pairs@.len(),
            |j: int| (pairs@[j].0@, values[j]),
        ));
    }
    Ok(bound)
}

/// Checks a statement before it runs, and binds its parameters.
///
/// Whether it only reads is SQLite's own answer, not a scan of the text.
pub fn prepare_query(
    readonly: bool,
    declared: &Vec<Option<String>>,
    params: &Params,
) -> (bound: Result<BoundParams, Error>)
    ensures
        match prepared(readonly, declared_views(declared@), params@) {
            Ok(expected) => bound is Ok && bound->Ok_0@ == expected,
            Err(failure) => bound is Err && bound->Err_0@ == failure,
        },
{
    if !readonly {
        return Err(
            Error::Unsupported(
                "this statement writes; `query` only reads. Use `with_transaction` for your own tables, a stream handle to append, or retention to remove".to_owned(),
            ),
        );
    }
    match params {
        Params::Positional(values) => match bind_positional(values) {
            Ok(bound) => Ok(BoundParams::Positional(bound)),
            Err(error) => Err(error),
        },
        Params::Named(pairs) => {
            let bound = match bind_named(pairs) {
                Ok(bound) => bound,
                Err(error) => {
                    return Err(error);
                },
            };
            proof {
                let views = log::pair_views(pairs@);
                bound_count(pair_values(views));
                assert(named_views(bound@).len() == pairs@.len());
                assert(named_views(bound@).len() == bound@.len());
                assert forall|i: int| 0 <= i < bound@.len() implies (#[trigger] bound@[i]).0@
                    == pairs@[i].0@ by {
                    assert(named_views(bound@)[i].0 == pairs@[i].0@);
                }
                assert(supplied_names(bound@) =~= pair_names(views));
                let expected = bind_all(pair_values(views))->Ok_0;
                assert(named_views(bound@) =~= Seq::new(
                    views.len(),
                    |i: int| (views[i].0, expected[i]),
                ));
            }
            match every_declared_name_was_supplied(declared, &bound) {
                Ok(()) => {},
                Err(error) => {
                    return Err(error);
                },
            }
            match every_supplied_name_was_declared(declared, &bound) {
                Ok(()) => Ok(BoundParams::Named(bound)),
                Err(error) => Err(error),
            }
        },
    }
}

/// One cell of a result row.
#[derive(Debug)]
pub enum Cell {
    Null,
    Integer(i64),
    /// A finite real.
    Real(Real),
    /// A real that is not finite.
    Infinite { negative: bool },
    Text(Vec<u8>),
    Blob(Vec<u8>),
}

/// What a [`Cell`] holds.
pub ghost enum CellValue {
    Null,
    Integer(i64),
    Real(Real),
    Infinite { negative: bool },
    Text(Seq<u8>),
    Blob(Seq<u8>),
}

impl Cell {
    pub open spec fn view(&self) -> CellValue {
        match *self {
            Cell::Null => CellValue::Null,
            Cell::Integer(i) => CellValue::Integer(i),
            Cell::Real(number) => CellValue::Real(number),
            Cell::Infinite { negative } => CellValue::Infinite { negative },
            Cell::Text(bytes) => CellValue::Text(bytes@),
            Cell::Blob(bytes) => CellValue::Blob(bytes@),
        }
    }
}

/// What `String::from_utf8_lossy` makes of some bytes.
pub uninterp spec fn replaced_text(bytes: Seq<u8>) -> Seq<char>;

/// `String::from_utf8_lossy`, owned: the text is named by the bytes.
#[verifier::external_body]
fn decode_lossy(bytes: &[u8]) -> (decoded: String)
    ensures
        decoded@ == replaced_text(bytes@),
{
    String::from_utf8_lossy(bytes).into_owned()
}

/// `std::str::from_utf8`, owned: the text whose encoding the bytes are, where
/// they are valid UTF-8, and nothing where they are not.
#[verifier::external_body]
fn decode(bytes: &[u8]) -> (decoded: Option<String>)
    ensures
        decoded is Some <==> vstd::utf8::valid_utf8(bytes@),
        decoded is Some ==> decoded->0@ == vstd::utf8::decode_utf8(bytes@),
{
    std::str::from_utf8(bytes).ok().map(str::to_owned)
}

/// A hexadecimal digit, in capitals.
pub open spec fn capital(n: nat) -> char {
    if n < 10 {
        (48 + n) as char
    } else {
        (55 + n) as char
    }
}

/// The bytes as SQLite's `hex()` writes them: two capital digits each, in
/// order.
pub open spec fn hex_text(bytes: Seq<u8>) -> Seq<char>
    decreases bytes.len(),
{
    if bytes.len() == 0 {
        Seq::empty()
    } else {
        hex_text(bytes.drop_last()).push(capital((bytes.last() / 16) as nat)).push(
            capital((bytes.last() % 16) as nat),
        )
    }
}

fn capital_digit(n: u8) -> (digit: char)
    requires
        n < 16,
    ensures
        digit == capital(n as nat),
{
    if n < 10 {
        (48 + n) as char
    } else {
        (55 + n) as char
    }
}

/// The bytes as SQLite's `hex()` writes them.
pub fn hex(bytes: &[u8]) -> (digits: String)
    ensures
        digits@ == hex_text(bytes@),
{
    let mut digits = String::new();
    let mut i: usize = 0;
    proof {
        assert(bytes@.take(0) =~= Seq::<u8>::empty());
    }
    while i < bytes.len()
        invariant
            i <= bytes@.len(),
            digits@ == hex_text(bytes@.take(i as int)),
        decreases bytes@.len() - i,
    {
        proof {
            assert(bytes@.take(i + 1).drop_last() =~= bytes@.take(i as int));
        }
        let byte = bytes[i];
        digits.push(capital_digit(byte / 16));
        digits.push(capital_digit(byte % 16));
        i += 1;
    }
    proof {
        assert(bytes@.take(i as int) =~= bytes@);
    }
    digits
}

/// What a cell becomes, or why it is refused. Three cells have no JSON value;
/// a lossy read takes what SQL itself would have rendered.
pub open spec fn cell_outcome(cell: CellValue, column: Seq<char>, lossy: bool) -> Result<Json, Failure> {
    match cell {
        CellValue::Null => Ok(Json::Null),
        CellValue::Integer(i) => Ok(integer_json(i)),
        CellValue::Real(number) => Ok(Json::Number(Number::Real(number))),
        CellValue::Infinite { negative } => if lossy {
            Ok(
                Json::String(
                    if negative {
                        "-Inf"@
                    } else {
                        "Inf"@
                    },
                ),
            )
        } else {
            Err(
                Failure::Unsupported(
                    "column `"@ + column
                        + "` holds a non-finite REAL, which JSON has no number for. Select `CAST("@
                        + column
                        + " AS TEXT)` for what SQL renders, or set `QueryOptions::lossy`"@,
                ),
            )
        },
        CellValue::Text(bytes) => if vstd::utf8::valid_utf8(bytes) {
            Ok(Json::String(vstd::utf8::decode_utf8(bytes)))
        } else if lossy {
            Ok(Json::String(replaced_text(bytes)))
        } else {
            Err(
                Failure::Unsupported(
                    "column `"@ + column
                        + "` holds TEXT that is not valid UTF-8, and a JSON string is UTF-8. Set `QueryOptions::lossy` to take it with the invalid sequences replaced"@,
                ),
            )
        },
        CellValue::Blob(bytes) => if lossy {
            Ok(Json::String(hex_text(bytes)))
        } else {
            Err(
                Failure::Unsupported(
                    "column `"@ + column + "` holds a BLOB, which JSON has no value for. Select `hex("@
                        + column + ")` for the bytes, or set `QueryOptions::lossy`"@,
                ),
            )
        },
    }
}

/// A signed integer as a JSON number.
pub open spec fn integer_json(i: i64) -> Json {
    Json::Number(crate::json::integer(i))
}

/// A non-finite real as `CAST(x AS TEXT)` renders it.
fn infinity_as_text(negative: bool) -> (rendered: String)
    ensures
        rendered@ == (if negative {
            "-Inf"@
        } else {
            "Inf"@
        }),
{
    if negative {
        "-Inf".to_owned()
    } else {
        "Inf".to_owned()
    }
}

/// One cell of a result row as JSON.
pub fn sql_to_json(cell: &Cell, column: &str, lossy: bool) -> (value: Result<Value, Error>)
    ensures
        match cell_outcome(cell@, column@, lossy) {
            Ok(expected) => value is Ok && value->Ok_0@ == expected,
            Err(failure) => value is Err && value->Err_0@ == failure,
        },
{
    match cell {
        Cell::Null => Ok(Value::Null),
        Cell::Integer(i) => Ok(Value::Number(Number::from_i64(*i))),
        Cell::Real(number) => Ok(Value::Number(Number::Real(number.clone()))),
        Cell::Infinite { negative } => {
            if !lossy {
                return Err(
                    Error::Unsupported(
                        text::cat5(
                            "column `",
                            column,
                            "` holds a non-finite REAL, which JSON has no number for. Select `CAST(",
                            column,
                            " AS TEXT)` for what SQL renders, or set `QueryOptions::lossy`",
                        ),
                    ),
                );
            }
            Ok(Value::String(infinity_as_text(*negative)))
        },
        Cell::Text(bytes) => match decode(bytes.as_slice()) {
            Some(decoded) => Ok(Value::String(decoded)),
            None => {
                if lossy {
                    Ok(Value::String(decode_lossy(bytes.as_slice())))
                } else {
                    Err(
                        Error::Unsupported(
                            text::cat3(
                                "column `",
                                column,
                                "` holds TEXT that is not valid UTF-8, and a JSON string is UTF-8. Set `QueryOptions::lossy` to take it with the invalid sequences replaced",
                            ),
                        ),
                    )
                }
            },
        },
        Cell::Blob(bytes) => {
            if !lossy {
                return Err(
                    Error::Unsupported(
                        text::cat5(
                            "column `",
                            column,
                            "` holds a BLOB, which JSON has no value for. Select `hex(",
                            column,
                            ")` for the bytes, or set `QueryOptions::lossy`",
                        ),
                    ),
                );
            }
            Ok(Value::String(hex(bytes.as_slice())))
        },
    }
}

/// The cells of a row.
pub open spec fn cell_views(cells: Seq<Cell>) -> Seq<CellValue> {
    Seq::new(cells.len(), |i: int| cells[i]@)
}

/// A row as an object, column by column, or why the first cell that is refused
/// is.
pub open spec fn row_outcome(
    names: Seq<Seq<char>>,
    cells: Seq<CellValue>,
    lossy: bool,
) -> Result<Map<Seq<char>, Json>, Failure>
    decreases names.len(),
{
    if names.len() == 0 {
        Ok(Map::empty())
    } else {
        match row_outcome(names.drop_last(), cells, lossy) {
            Err(failure) => Err(failure),
            Ok(object) => match cell_outcome(cells[names.len() - 1], names.last(), lossy) {
                Err(failure) => Err(failure),
                Ok(value) => Ok(object.insert(names.last(), value)),
            },
        }
    }
}

proof fn row_failure_stays(names: Seq<Seq<char>>, cells: Seq<CellValue>, lossy: bool, n: int)
    requires
        0 <= n <= names.len(),
        row_outcome(names.take(n), cells, lossy) is Err,
    ensures
        row_outcome(names, cells, lossy) == row_outcome(names.take(n), cells, lossy),
    decreases names.len() - n,
{
    if n == names.len() {
        assert(names.take(n) =~= names);
    } else {
        assert(names.take(n + 1).drop_last() =~= names.take(n));
        row_failure_stays(names, cells, lossy, n + 1);
    }
}

/// One row of an answer as a JSON object.
pub fn row_to_json(names: &Vec<String>, cells: &Vec<Cell>, lossy: bool) -> (object: Result<
    Object,
    Error,
>)
    requires
        cells@.len() == names@.len(),
    ensures
        match row_outcome(text::views(names@), cell_views(cells@), lossy) {
            Ok(expected) => object is Ok && object->Ok_0@ == expected,
            Err(failure) => object is Err && object->Err_0@ == failure,
        },
{
    let ghost all = text::views(names@);
    let ghost held = cell_views(cells@);
    let mut object = Object::new();
    let mut i: usize = 0;
    proof {
        assert(all.take(0) =~= Seq::<Seq<char>>::empty());
    }
    while i < names.len()
        invariant
            all == text::views(names@),
            held == cell_views(cells@),
            cells@.len() == names@.len(),
            i <= names@.len(),
            row_outcome(all.take(i as int), held, lossy) == Ok::<Map<Seq<char>, Json>, Failure>(
                object@,
            ),
        decreases names@.len() - i,
    {
        proof {
            assert(all.take(i + 1).drop_last() =~= all.take(i as int));
            assert(all.take(i + 1).last() == names@[i as int]@);
            assert(all.take(i + 1).len() == i + 1);
            assert(held[i as int] == cells@[i as int]@);
        }
        match sql_to_json(&cells[i], names[i].as_str(), lossy) {
            Ok(value) => {
                object.insert(names[i].clone(), value);
            },
            Err(error) => {
                proof {
                    row_failure_stays(all, held, lossy, i + 1);
                }
                return Err(error);
            },
        }
        i += 1;
    }
    proof {
        assert(all.take(i as int) =~= all);
    }
    Ok(object)
}

/// The rows of an answer.
pub open spec fn rows_views(rows: Seq<Vec<Cell>>) -> Seq<Seq<CellValue>> {
    Seq::new(rows.len(), |i: int| cell_views(rows[i]@))
}

/// The objects of an answer.
pub open spec fn objects_views(objects: Seq<Object>) -> Seq<Map<Seq<char>, Json>> {
    Seq::new(objects.len(), |i: int| objects[i]@)
}

/// An answer as objects, or why the first row that is refused is.
pub open spec fn answer_outcome(
    names: Seq<Seq<char>>,
    rows: Seq<Seq<CellValue>>,
    lossy: bool,
) -> Result<Seq<Map<Seq<char>, Json>>, Failure>
    decreases rows.len(),
{
    if rows.len() == 0 {
        Ok(Seq::empty())
    } else {
        match answer_outcome(names, rows.drop_last(), lossy) {
            Err(failure) => Err(failure),
            Ok(objects) => match row_outcome(names, rows.last(), lossy) {
                Err(failure) => Err(failure),
                Ok(object) => Ok(objects.push(object)),
            },
        }
    }
}

proof fn answer_failure_stays(
    names: Seq<Seq<char>>,
    rows: Seq<Seq<CellValue>>,
    lossy: bool,
    n: int,
)
    requires
        0 <= n <= rows.len(),
        answer_outcome(names, rows.take(n), lossy) is Err,
    ensures
        answer_outcome(names, rows, lossy) == answer_outcome(names, rows.take(n), lossy),
    decreases rows.len() - n,
{
    if n == rows.len() {
        assert(rows.take(n) =~= rows);
    } else {
        assert(rows.take(n + 1).drop_last() =~= rows.take(n));
        answer_failure_stays(names, rows, lossy, n + 1);
    }
}

/// The rows of an answer as JSON objects.
pub fn query_rows(names: &Vec<String>, rows: &Vec<Vec<Cell>>, lossy: bool) -> (objects: Result<
    Vec<Object>,
    Error,
>)
    requires
        forall|i: int| 0 <= i < rows@.len() ==> (#[trigger] rows@[i])@.len() == names@.len(),
    ensures
        match answer_outcome(text::views(names@), rows_views(rows@), lossy) {
            Ok(expected) => objects is Ok && objects_views(objects->Ok_0@) == expected,
            Err(failure) => objects is Err && objects->Err_0@ == failure,
        },
{
    let ghost columns = text::views(names@);
    let ghost all = rows_views(rows@);
    let mut objects: Vec<Object> = Vec::new();
    let mut i: usize = 0;
    proof {
        assert(all.take(0) =~= Seq::<Seq<CellValue>>::empty());
        assert(objects_views(objects@) =~= Seq::<Map<Seq<char>, Json>>::empty());
    }
    while i < rows.len()
        invariant
            columns == text::views(names@),
            all == rows_views(rows@),
            forall|k: int| 0 <= k < rows@.len() ==> (#[trigger] rows@[k])@.len() == names@.len(),
            i <= rows@.len(),
            answer_outcome(columns, all.take(i as int), lossy) == Ok::<
                Seq<Map<Seq<char>, Json>>,
                Failure,
            >(objects_views(objects@)),
        decreases rows@.len() - i,
    {
        proof {
            assert(all.take(i + 1).drop_last() =~= all.take(i as int));
            assert(all.take(i + 1).last() == cell_views(rows@[i as int]@));
        }
        let ghost had = objects_views(objects@);
        match row_to_json(names, &rows[i], lossy) {
            Ok(object) => {
                let ghost last = object@;
                objects.push(object);
                proof {
                    assert(objects_views(objects@) =~= had.push(last));
                }
            },
            Err(error) => {
                proof {
                    answer_failure_stays(columns, all, lossy, i + 1);
                }
                return Err(error);
            },
        }
        i += 1;
    }
    proof {
        assert(all.take(i as int) =~= all);
    }
    Ok(objects)
}

/// A lossy read refuses nothing: every cell becomes a value, and a cell that
/// has one becomes what a strict read makes of it.
pub proof fn lossy_reads_refuse_nothing(cell: CellValue, column: Seq<char>)
    ensures
        cell_outcome(cell, column, true) is Ok,
        cell_outcome(cell, column, false) is Ok ==> cell_outcome(cell, column, false)
            == cell_outcome(cell, column, true),
{
}

/// How a body that ran under the authorizer ended.
#[derive(Debug)]
pub enum Ran<T> {
    Answered(T),
    Failed(Error),
    /// It panicked, with the message where there was one.
    Panicked(Option<String>),
}

/// What a guarded call reports. An authorizer that could not be taken off
/// again outranks what the body did, because the connection then refuses every
/// write.
pub fn guarded<T>(uninstall_failure: Option<String>, ran: Ran<T>) -> (outcome: Result<T, Error>)
    ensures
        match uninstall_failure {
            Some(said) => outcome is Err && outcome->Err_0@ == Failure::Storage(
                "the authorizer could not be removed, so this connection now refuses every write: "@
                    + said@,
            ),
            None => match ran {
                Ran::Answered(value) => outcome == Ok::<T, Error>(value),
                Ran::Failed(error) => outcome is Err && outcome->Err_0@ == denial_mapped(error@),
                Ran::Panicked(message) => outcome is Err && outcome->Err_0@ == Failure::Storage(
                    "the statement panicked: "@ + (match message {
                        Some(message) => message@,
                        None => "unknown"@,
                    }),
                ),
            },
        },
{
    if let Some(said) = uninstall_failure {
        return Err(
            Error::storage(
                text::cat2(
                    "the authorizer could not be removed, so this connection now refuses every write: ",
                    said.as_str(),
                ),
            ),
        );
    }
    match ran {
        Ran::Answered(value) => Ok(value),
        Ran::Failed(error) => Err(map_denial(error)),
        Ran::Panicked(message) => {
            let said = match message {
                Some(message) => message,
                None => "unknown".to_owned(),
            };
            Err(Error::storage(text::cat2("the statement panicked: ", said.as_str())))
        },
    }
}

/// A body that is never run because the authorizer could not be put on.
pub fn not_guarded(said: &str) -> (error: Error)
    ensures
        error@ == Failure::Storage("could not install the authorizer: "@ + said@),
{
    Error::storage(text::cat2("could not install the authorizer: ", said))
}

/// What a parameter is bound as: `null` as nothing, a boolean as 1 or 0, an
/// integer as itself, any other number as that number, a string as it is, and
/// an array or an object as its text. Only an integer past the signed range is
/// refused.
pub proof fn parameters_are_bound_as_they_are(value: Json)
    ensures
        bind_outcome(value) is Err <==> value is Number && value->Number_0 is PosInt
            && value->Number_0->PosInt_0 > i64::MAX,
        bind_outcome(value) is Err ==> bind_outcome(value)->Err_0 is Validation,
        value is Null ==> bind_outcome(value) == Ok::<Bound, Failure>(Bound::Null),
        value is Bool ==> bind_outcome(value) == Ok::<Bound, Failure>(
            Bound::Integer(
                if value->Bool_0 {
                    1
                } else {
                    0
                },
            ),
        ),
        value matches Json::Number(Number::PosInt(n)) ==> (n <= i64::MAX ==> bind_outcome(value)
            == Ok::<Bound, Failure>(Bound::Integer(n as i64))),
        value matches Json::Number(Number::NegInt(n)) ==> bind_outcome(value) == Ok::<
            Bound,
            Failure,
        >(Bound::Integer(n.amount())),
        value matches Json::Number(Number::Real(n)) ==> bind_outcome(value) == Ok::<Bound, Failure>(
            Bound::Real(n),
        ),
        value is String ==> bind_outcome(value) == Ok::<Bound, Failure>(
            Bound::Text(value->String_0),
        ),
        value is Array || value is Object ==> bind_outcome(value) == Ok::<Bound, Failure>(
            Bound::Text(wire::rendered(value)),
        ),
{
}

/// Parameters are bound each on its own and in their order, and all of them or
/// none: the first that cannot be bound is the failure.
pub proof fn parameters_are_bound_in_order(values: Seq<Json>)
    ensures
        bind_all(values) is Ok <==> forall|i: int|
            0 <= i < values.len() ==> bind_outcome(#[trigger] values[i]) is Ok,
        bind_all(values) is Ok ==> {
            &&& bind_all(values)->Ok_0.len() == values.len()
            &&& forall|i: int|
                0 <= i < values.len() ==> bind_outcome(#[trigger] values[i]) == Ok::<
                    Bound,
                    Failure,
                >(bind_all(values)->Ok_0[i])
        },
        bind_all(values) is Err ==> exists|i: int|
            0 <= i < values.len() && bind_outcome(#[trigger] values[i]) is Err
                && bind_outcome(values[i])->Err_0 == bind_all(values)->Err_0 && forall|j: int|
                0 <= j < i ==> bind_outcome(#[trigger] values[j]) is Ok,
    decreases values.len(),
{
    if values.len() > 0 {
        let front = values.drop_last();
        let last = values.len() - 1;
        parameters_are_bound_in_order(front);
        if bind_all(front) is Ok {
            assert forall|i: int| 0 <= i < last implies bind_outcome(#[trigger] values[i]) == Ok::<
                Bound,
                Failure,
            >(bind_all(front)->Ok_0[i]) by {
                assert(front[i] == values[i]);
            }
            assert(values[last] == values.last());
            if bind_all(values) is Err {
                assert(bind_outcome(values[last]) is Err);
            }
        } else {
            let i = choose|i: int|
                0 <= i < front.len() && bind_outcome(#[trigger] front[i]) is Err
                    && bind_outcome(front[i])->Err_0 == bind_all(front)->Err_0 && forall|j: int|
                    0 <= j < i ==> bind_outcome(#[trigger] front[j]) is Ok;
            assert(values[i] == front[i]);
            assert forall|j: int| 0 <= j < i implies bind_outcome(#[trigger] values[j]) is Ok by {
                assert(front[j] == values[j]);
            }
        }
    }
}

proof fn supplied_exactly(declared: Seq<Option<Seq<char>>>, supplied: Seq<Seq<char>>)
    ensures
        unsupplied(declared, supplied) is None <==> forall|i: int|
            0 <= i < declared.len() ==> (#[trigger] declared[i]) is Some && supplied.contains(
                declared[i]->0,
            ),
    decreases declared.len(),
{
    if unsupplied(declared, supplied) is None {
        all_supplied(declared, supplied);
    } else if declared.len() > 0 {
        let front = declared.drop_last();
        supplied_exactly(front, supplied);
        if unsupplied(front, supplied) is Some {
            let i = choose|i: int|
                0 <= i < front.len() && !((#[trigger] front[i]) is Some && supplied.contains(
                    front[i]->0,
                ));
            assert(declared[i] == front[i]);
        } else {
            assert(declared[declared.len() - 1] == declared.last());
        }
    }
}

proof fn matched_exactly(declared: Seq<Option<Seq<char>>>, supplied: Seq<Seq<char>>)
    ensures
        unmatched(declared, supplied) is None <==> forall|i: int|
            0 <= i < supplied.len() ==> declared.contains(Some(#[trigger] supplied[i])),
    decreases supplied.len(),
{
    if unmatched(declared, supplied) is None {
        all_matched(declared, supplied);
    } else if supplied.len() > 0 {
        let front = supplied.drop_last();
        matched_exactly(declared, front);
        if unmatched(declared, front) is Some {
            let i = choose|i: int|
                0 <= i < front.len() && !declared.contains(Some(#[trigger] front[i]));
            assert(supplied[i] == front[i]);
        } else {
            assert(supplied[supplied.len() - 1] == supplied.last());
        }
    }
}

/// When a caller's statement is run: it only reads, each of its values can be
/// bound, and, bound by name, its placeholders and the names given are the
/// same; and then each value is bound where the caller put it.
pub proof fn statements_run_exactly_when_they_fit(
    readonly: bool,
    declared: Seq<Option<Seq<char>>>,
    params: Bindings,
)
    ensures
        !readonly ==> prepared(readonly, declared, params) is Err && prepared(
            readonly,
            declared,
            params,
        )->Err_0 is Unsupported,
        params matches Bindings::Positional(values) ==> {
            &&& prepared(readonly, declared, params) is Ok <==> readonly && forall|i: int|
                0 <= i < values.len() ==> bind_outcome(#[trigger] values[i]) is Ok
            &&& prepared(readonly, declared, params) is Ok ==> {
                let bound = prepared(readonly, declared, params)->Ok_0;
                &&& bound is Positional
                &&& bound->Positional_0.len() == values.len()
                &&& forall|i: int|
                    0 <= i < values.len() ==> bind_outcome(#[trigger] values[i]) == Ok::<
                        Bound,
                        Failure,
                    >(bound->Positional_0[i])
            }
        },
        params matches Bindings::Named(pairs) ==> {
            &&& prepared(readonly, declared, params) is Ok <==> {
                &&& readonly
                &&& forall|i: int|
                    0 <= i < pairs.len() ==> bind_outcome((#[trigger] pairs[i]).1) is Ok
                &&& forall|i: int|
                    0 <= i < declared.len() ==> (#[trigger] declared[i]) is Some && exists|k: int|
                        0 <= k < pairs.len() && (#[trigger] pairs[k]).0 == declared[i]->0
                &&& forall|i: int|
                    0 <= i < pairs.len() ==> declared.contains(Some((#[trigger] pairs[i]).0))
            }
            &&& prepared(readonly, declared, params) is Ok ==> {
                let bound = prepared(readonly, declared, params)->Ok_0;
                &&& bound is Named
                &&& bound->Named_0.len() == pairs.len()
                &&& forall|i: int|
                    0 <= i < pairs.len() ==> bound->Named_0[i].0 == (#[trigger] pairs[i]).0
                        && bind_outcome(pairs[i].1) == Ok::<Bound, Failure>(bound->Named_0[i].1)
            }
        },
{
    match params {
        Bindings::Positional(values) => {
            parameters_are_bound_in_order(values);
        },
        Bindings::Named(pairs) => {
            let values = pair_values(pairs);
            let names = pair_names(pairs);
            parameters_are_bound_in_order(values);
            supplied_exactly(declared, names);
            matched_exactly(declared, names);
            if forall|i: int| 0 <= i < values.len() ==> bind_outcome(#[trigger] values[i]) is Ok {
                assert forall|i: int| 0 <= i < pairs.len() implies bind_outcome(
                    (#[trigger] pairs[i]).1,
                ) is Ok by {
                    assert(values[i] == pairs[i].1);
                }
            }
            if forall|i: int| 0 <= i < pairs.len() ==> bind_outcome((#[trigger] pairs[i]).1) is Ok {
                assert forall|i: int| 0 <= i < values.len() implies bind_outcome(
                    #[trigger] values[i],
                ) is Ok by {
                    assert(values[i] == pairs[i].1);
                }
            }
            assert forall|name: Seq<char>| #[trigger] names.contains(name) <==> exists|k: int|
                0 <= k < pairs.len() && (#[trigger] pairs[k]).0 == name by {
                if names.contains(name) {
                    let k = choose|k: int| 0 <= k < names.len() && names[k] == name;
                    assert(pairs[k].0 == name);
                }
                if exists|k: int| 0 <= k < pairs.len() && (#[trigger] pairs[k]).0 == name {
                    let k = choose|k: int| 0 <= k < pairs.len() && (#[trigger] pairs[k]).0 == name;
                    assert(names[k] == name);
                }
            }
            if forall|i: int|
                0 <= i < names.len() ==> declared.contains(Some(#[trigger] names[i])) {
                assert forall|i: int| 0 <= i < pairs.len() implies declared.contains(
                    Some((#[trigger] pairs[i]).0),
                ) by {
                    assert(names[i] == pairs[i].0);
                }
            }
            if forall|i: int|
                0 <= i < pairs.len() ==> declared.contains(Some((#[trigger] pairs[i]).0)) {
                assert forall|i: int| 0 <= i < names.len() implies declared.contains(
                    Some(#[trigger] names[i]),
                ) by {
                    assert(names[i] == pairs[i].0);
                }
            }
            if prepared(readonly, declared, params) is Ok {
                let bound = prepared(readonly, declared, params)->Ok_0;
                assert forall|i: int| 0 <= i < pairs.len() implies bound->Named_0[i].0 == (
                #[trigger] pairs[i]).0 && bind_outcome(pairs[i].1) == Ok::<Bound, Failure>(
                    bound->Named_0[i].1,
                ) by {
                    assert(values[i] == pairs[i].1);
                }
            }
        },
    }
}

/// What a cell becomes: `NULL` as `null`, an integer and a finite real as
/// themselves, text as its characters; and, only where the caller takes
/// substitutes, an infinity as SQL writes it, broken text with its breaks
/// replaced, and bytes as their digits. A strict read refuses those three.
pub proof fn cells_become_what_they_hold(cell: CellValue, column: Seq<char>, lossy: bool)
    ensures
        cell is Null ==> cell_outcome(cell, column, lossy) == Ok::<Json, Failure>(Json::Null),
        cell matches CellValue::Integer(i) ==> cell_outcome(cell, column, lossy) is Ok
            && cell_outcome(cell, column, lossy)->Ok_0 is Number && cell_outcome(
            cell,
            column,
            lossy,
        )->Ok_0->Number_0.i64_value() == Some(i),
        cell matches CellValue::Real(number) ==> cell_outcome(cell, column, lossy) == Ok::<
            Json,
            Failure,
        >(Json::Number(Number::Real(number))),
        cell matches CellValue::Text(bytes) ==> (vstd::utf8::valid_utf8(bytes) ==> cell_outcome(
            cell,
            column,
            lossy,
        ) == Ok::<Json, Failure>(Json::String(vstd::utf8::decode_utf8(bytes)))),
        cell matches CellValue::Text(bytes) ==> (!vstd::utf8::valid_utf8(bytes) && lossy
            ==> cell_outcome(cell, column, lossy) == Ok::<Json, Failure>(
            Json::String(replaced_text(bytes)),
        )),
        cell matches CellValue::Infinite { negative } ==> (lossy ==> cell_outcome(
            cell,
            column,
            lossy,
        ) == Ok::<Json, Failure>(
            Json::String(
                if negative {
                    "-Inf"@
                } else {
                    "Inf"@
                },
            ),
        )),
        cell matches CellValue::Blob(bytes) ==> (lossy ==> cell_outcome(cell, column, lossy) == Ok::<
            Json,
            Failure,
        >(Json::String(hex_text(bytes)))),
        cell_outcome(cell, column, lossy) is Err <==> !lossy && (cell is Infinite || cell is Blob
            || (cell matches CellValue::Text(bytes) && !vstd::utf8::valid_utf8(bytes))),
        cell_outcome(cell, column, lossy) is Err ==> cell_outcome(cell, column, lossy)->Err_0 is
            Unsupported,
{
    if cell is Integer {
        crate::json::integers_have_values(cell->Integer_0);
    }
}

/// Bytes are written as two capital digits each, in order, the high one first.
pub proof fn bytes_are_written_as_digits(bytes: Seq<u8>, byte: u8, n: nat)
    ensures
        hex_text(Seq::empty()) == Seq::<char>::empty(),
        hex_text(bytes.push(byte)) == hex_text(bytes).push(capital((byte / 16) as nat)).push(
            capital((byte % 16) as nat),
        ),
        n < 10 ==> capital(n) as u32 == '0' as u32 + n,
        10 <= n < 16 ==> capital(n) as u32 == 'A' as u32 + n - 10,
{
    assert(bytes.push(byte).drop_last() =~= bytes);
    if n < 16 {
        assert(capital(n) as u32 == (if n < 10 {
            48 + n
        } else {
            55 + n
        }));
    }
}

/// A row becomes an object of its columns: it does exactly when each of its
/// cells does, its keys are the columns' names and no others, and a column's
/// cell stands under its name, the last one's where two columns share one.
pub proof fn rows_become_their_columns(
    names: Seq<Seq<char>>,
    cells: Seq<CellValue>,
    lossy: bool,
)
    requires
        cells.len() == names.len(),
    ensures
        row_outcome(names, cells, lossy) is Ok <==> forall|i: int|
            0 <= i < names.len() ==> cell_outcome(cells[i], #[trigger] names[i], lossy) is Ok,
        row_outcome(names, cells, lossy) is Ok ==> {
            let object = row_outcome(names, cells, lossy)->Ok_0;
            &&& forall|key: Seq<char>| #[trigger] object.contains_key(key) <==> names.contains(key)
            &&& forall|i: int|
                #![trigger names[i]]
                0 <= i < names.len() && (forall|j: int|
                    i < j < names.len() ==> #[trigger] names[j] != names[i]) ==> Ok::<
                    Json,
                    Failure,
                >(object[names[i]]) == cell_outcome(cells[i], names[i], lossy)
        },
    decreases names.len(),
{
    columns_of_a_row(names, cells, lossy);
}

proof fn columns_of_a_row(names: Seq<Seq<char>>, cells: Seq<CellValue>, lossy: bool)
    requires
        cells.len() >= names.len(),
    ensures
        row_outcome(names, cells, lossy) is Ok <==> forall|i: int|
            0 <= i < names.len() ==> cell_outcome(cells[i], #[trigger] names[i], lossy) is Ok,
        row_outcome(names, cells, lossy) is Ok ==> {
            let object = row_outcome(names, cells, lossy)->Ok_0;
            &&& forall|key: Seq<char>| #[trigger] object.contains_key(key) <==> names.contains(key)
            &&& forall|i: int|
                #![trigger names[i]]
                0 <= i < names.len() && (forall|j: int|
                    i < j < names.len() ==> #[trigger] names[j] != names[i]) ==> Ok::<
                    Json,
                    Failure,
                >(object[names[i]]) == cell_outcome(cells[i], names[i], lossy)
        },
    decreases names.len(),
{
    if names.len() > 0 {
        let front = names.drop_last();
        let last = names.len() - 1;
        columns_of_a_row(front, cells, lossy);
        assert(names[last] == names.last());
        if row_outcome(names, cells, lossy) is Ok {
            let before = row_outcome(front, cells, lossy)->Ok_0;
            let object = row_outcome(names, cells, lossy)->Ok_0;
            assert forall|i: int| 0 <= i < names.len() implies cell_outcome(
                cells[i],
                #[trigger] names[i],
                lossy,
            ) is Ok by {
                if i < last {
                    assert(front[i] == names[i]);
                }
            }
            assert forall|key: Seq<char>| #[trigger] object.contains_key(key) <==> names.contains(
                key,
            ) by {
                assert(before.contains_key(key) <==> front.contains(key));
                if front.contains(key) {
                    let i = choose|i: int| 0 <= i < front.len() && front[i] == key;
                    assert(names[i] == key);
                }
                if names.contains(key) && key != names[last] {
                    let i = choose|i: int| 0 <= i < names.len() && names[i] == key;
                    assert(front[i] == key);
                }
                if key == names[last] {
                    assert(names.contains(key));
                }
            }
            assert forall|i: int|
                #![trigger names[i]]
                0 <= i < names.len() && (forall|j: int|
                    i < j < names.len() ==> #[trigger] names[j] != names[i]) implies Ok::<
                Json,
                Failure,
            >(object[names[i]]) == cell_outcome(cells[i], names[i], lossy) by {
                if i < last {
                    assert(names[last] != names[i]);
                    assert(front[i] == names[i]);
                    assert forall|j: int| i < j < front.len() implies #[trigger] front[j]
                        != front[i] by {
                        assert(names[j] != names[i]);
                    }
                }
            }
        } else {
            if row_outcome(front, cells, lossy) is Err {
                let i = choose|i: int|
                    0 <= i < front.len() && !(cell_outcome(cells[i], #[trigger] front[i], lossy)
                        is Ok);
                assert(names[i] == front[i]);
            }
        }
    }
}

/// An answer is its rows, each an object, in their order: all of them, or the
/// failure of one.
pub proof fn answers_are_their_rows(
    names: Seq<Seq<char>>,
    rows: Seq<Seq<CellValue>>,
    lossy: bool,
)
    ensures
        answer_outcome(names, rows, lossy) is Ok <==> forall|i: int|
            0 <= i < rows.len() ==> row_outcome(names, #[trigger] rows[i], lossy) is Ok,
        answer_outcome(names, rows, lossy) is Ok ==> {
            let objects = answer_outcome(names, rows, lossy)->Ok_0;
            &&& objects.len() == rows.len()
            &&& forall|i: int|
                0 <= i < rows.len() ==> row_outcome(names, #[trigger] rows[i], lossy) == Ok::<
                    Map<Seq<char>, Json>,
                    Failure,
                >(objects[i])
        },
        answer_outcome(names, rows, lossy) is Err ==> exists|i: int|
            0 <= i < rows.len() && row_outcome(names, #[trigger] rows[i], lossy) is Err
                && row_outcome(names, rows[i], lossy)->Err_0 == answer_outcome(
                names,
                rows,
                lossy,
            )->Err_0 && forall|j: int|
                0 <= j < i ==> row_outcome(names, #[trigger] rows[j], lossy) is Ok,
    decreases rows.len(),
{
    if rows.len() > 0 {
        let front = rows.drop_last();
        let last = rows.len() - 1;
        answers_are_their_rows(names, front, lossy);
        assert(rows[last] == rows.last());
        if answer_outcome(names, front, lossy) is Ok {
            assert forall|i: int| 0 <= i < last implies row_outcome(
                names,
                #[trigger] rows[i],
                lossy,
            ) == Ok::<Map<Seq<char>, Json>, Failure>(
                answer_outcome(names, front, lossy)->Ok_0[i],
            ) by {
                assert(front[i] == rows[i]);
            }
            if answer_outcome(names, rows, lossy) is Err {
                assert(row_outcome(names, rows[last], lossy) is Err);
            }
        } else {
            let i = choose|i: int|
                0 <= i < front.len() && row_outcome(names, #[trigger] front[i], lossy) is Err
                    && row_outcome(names, front[i], lossy)->Err_0 == answer_outcome(
                    names,
                    front,
                    lossy,
                )->Err_0 && forall|j: int|
                    0 <= j < i ==> row_outcome(names, #[trigger] front[j], lossy) is Ok;
            assert(rows[i] == front[i]);
            assert forall|j: int| 0 <= j < i implies row_outcome(
                names,
                #[trigger] rows[j],
                lossy,
            ) is Ok by {
                assert(front[j] == rows[j]);
            }
        }
    }
}

/// A denial is told as one, and any other failure as what it was: only what the
/// storage said is looked at, and only for SQLite's own words.
pub proof fn denials_are_told_as_denials(failure: Failure)
    ensures
        failure matches Failure::Storage(message) ==> (text::occurs("not authorized"@, message)
            ==> denial_mapped(failure) == Failure::Unsupported(denial_text())),
        failure matches Failure::Storage(message) ==> (!text::occurs("not authorized"@, message)
            ==> denial_mapped(failure) == failure),
        !(failure is Storage) ==> denial_mapped(failure) == failure,
{
}

/// Cells, rows and parameters are viewed one by one, and each as what it holds.
pub proof fn cells_and_parameters_are_viewed_one_by_one(
    cell: Cell,
    cells: Seq<Cell>,
    rows: Seq<Vec<Cell>>,
    objects: Seq<Object>,
    declared: Seq<Option<String>>,
    bound: Seq<(String, SqlValue)>,
    params: BoundParams,
    pairs: Seq<(Seq<char>, Json)>,
    i: int,
)
    ensures
        cell is Null ==> cell@ is Null,
        cell matches Cell::Integer(n) ==> cell@ == CellValue::Integer(n),
        cell matches Cell::Real(n) ==> cell@ == CellValue::Real(n),
        cell matches Cell::Infinite { negative } ==> cell@ == (CellValue::Infinite { negative }),
        cell matches Cell::Text(bytes) ==> cell@ == CellValue::Text(bytes@),
        cell matches Cell::Blob(bytes) ==> cell@ == CellValue::Blob(bytes@),
        cell_views(cells).len() == cells.len(),
        0 <= i < cells.len() ==> cell_views(cells)[i] == cells[i]@,
        rows_views(rows).len() == rows.len(),
        0 <= i < rows.len() ==> rows_views(rows)[i] == cell_views(rows[i]@),
        objects_views(objects).len() == objects.len(),
        0 <= i < objects.len() ==> objects_views(objects)[i] == objects[i]@,
        declared_views(declared).len() == declared.len(),
        0 <= i < declared.len() ==> (declared_views(declared)[i] is Some <==> declared[i] is Some),
        0 <= i < declared.len() && declared[i] is Some ==> declared_views(declared)[i]->0
            == declared[i]->0@,
        supplied_names(bound).len() == bound.len(),
        0 <= i < bound.len() ==> supplied_names(bound)[i] == bound[i].0@,
        named_views(bound).len() == bound.len(),
        0 <= i < bound.len() ==> named_views(bound)[i] == (bound[i].0@, bound[i].1@),
        params matches BoundParams::Positional(values) ==> params@ == BoundSet::Positional(
            sql::bound_views(values@),
        ),
        params matches BoundParams::Named(named) ==> params@ == BoundSet::Named(
            named_views(named@),
        ),
        pair_values(pairs).len() == pairs.len() && pair_names(pairs).len() == pairs.len(),
        0 <= i < pairs.len() ==> pair_values(pairs)[i] == pairs[i].1 && pair_names(pairs)[i]
            == pairs[i].0,
{
}

/// A binding is what its outcome says, and a name's sigils are the marks it
/// begins with.
pub proof fn bindings_are_their_outcomes(
    result: Result<SqlValue, Error>,
    outcome: Result<Bound, Failure>,
    name: Seq<char>,
)
    ensures
        gave_bound(result, outcome) && outcome is Ok ==> result is Ok && result->Ok_0@
            == outcome->Ok_0,
        gave_bound(result, outcome) && outcome is Err ==> result is Err && result->Err_0@
            == outcome->Err_0,
        name.len() == 0 ==> without_sigils(name) == name,
        name.len() > 0 && (name[0] == ':' || name[0] == '@' || name[0] == '$' || name[0] == '?')
            ==> without_sigils(name) == without_sigils(name.drop_first()),
        name.len() > 0 && !(name[0] == ':' || name[0] == '@' || name[0] == '$' || name[0] == '?')
            ==> without_sigils(name) == name,
{
}

} // verus!
