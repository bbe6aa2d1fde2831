//! Statements: the SQL text the backend runs, and what is bound into it.
//!
//! A predicate is a list of [`Clause`]s. One function renders them, numbering
//! placeholders in the order the values are bound, and one spec function says
//! what each clause means of a row; so what a statement selects can be held
//! against what the caller asked for.

use vstd::prelude::*;
use vstd::string::*;

use crate::error::{Error, Failure};
use crate::json::{Json, Number, Real, Value};
use crate::position::Position;
use crate::text;

verus! {

/// A value bound into a statement.
#[derive(Debug, PartialEq, Eq)]
pub enum SqlValue {
    Null,
    Integer(i64),
    /// A number that is not an integer.
    Real(Real),
    /// An integer above the signed range, bound as the double nearest to it.
    Large(u64),
    Text(String),
}

/// What a [`SqlValue`] is.
pub ghost enum Bound {
    Null,
    Integer(i64),
    Real(Real),
    Large(u64),
    Text(Seq<char>),
}

impl SqlValue {
    pub open spec fn view(&self) -> Bound {
        match *self {
            SqlValue::Null => Bound::Null,
            SqlValue::Integer(i) => Bound::Integer(i),
            SqlValue::Real(number) => Bound::Real(number),
            SqlValue::Large(n) => Bound::Large(n),
            SqlValue::Text(s) => Bound::Text(s@),
        }
    }
}

impl Clone for SqlValue {
    fn clone(&self) -> (copy: Self)
        ensures
            copy@ == self@,
    {
        match self {
            SqlValue::Null => SqlValue::Null,
            SqlValue::Integer(i) => SqlValue::Integer(*i),
            SqlValue::Real(number) => SqlValue::Real(number.clone()),
            SqlValue::Large(n) => SqlValue::Large(*n),
            SqlValue::Text(s) => SqlValue::Text(s.clone()),
        }
    }
}

/// The views of a list of bound values.
pub open spec fn bound_views(params: Seq<SqlValue>) -> Seq<Bound> {
    Seq::new(params.len(), |i: int| params[i]@)
}

/// A statement and what is bound to `?1`, `?2` and so on.
#[derive(Debug, PartialEq, Eq)]
pub struct Statement {
    pub sql: String,
    pub params: Vec<SqlValue>,
}

/// What a [`Statement`] says.
#[verifier::ext_equal]
pub ghost struct Query {
    pub sql: Seq<char>,
    pub params: Seq<Bound>,
}

impl Statement {
    pub open spec fn view(&self) -> Query {
        Query { sql: self.sql@, params: bound_views(self.params@) }
    }

    /// A statement with nothing bound.
    pub fn plain(sql: &str) -> (statement: Self)
        ensures
            statement@ == (Query { sql: sql@, params: Seq::empty() }),
    {
        let params: Vec<SqlValue> = Vec::new();
        proof {
            assert(bound_views(params@) =~= Seq::<Bound>::empty());
        }
        Statement { sql: sql.to_owned(), params }
    }

    /// A statement with its values.
    pub fn with(sql: &str, params: Vec<SqlValue>) -> (statement: Self)
        ensures
            statement@ == (Query { sql: sql@, params: bound_views(params@) }),
    {
        Statement { sql: sql.to_owned(), params }
    }
}

/// A column a predicate speaks of.
#[derive(Debug, Clone, Copy, PartialEq, Eq, Structural)]
pub enum Column {
    Position,
    Stream,
    Sequence,
    EpochMs,
    Kind,
    Consumer,
    Id,
}

impl Column {
    /// The column's name.
    pub open spec fn spelled(self) -> Seq<char> {
        match self {
            Column::Position => "position"@,
            Column::Stream => "stream"@,
            Column::Sequence => "seq"@,
            Column::EpochMs => "epoch_ms"@,
            Column::Kind => "kind"@,
            Column::Consumer => "consumer"@,
            Column::Id => "id"@,
        }
    }

    pub fn name(self) -> (name: &'static str)
        ensures
            name@ == self.spelled(),
    {
        match self {
            Column::Position => "position",
            Column::Stream => "stream",
            Column::Sequence => "seq",
            Column::EpochMs => "epoch_ms",
            Column::Kind => "kind",
            Column::Consumer => "consumer",
            Column::Id => "id",
        }
    }
}

/// How a column is held against a value.
#[derive(Debug, Clone, Copy, PartialEq, Eq, Structural)]
pub enum Relation {
    Is,
    After,
    AtLeast,
    Below,
    AtMost,
}

impl Relation {
    /// The operator, with a space on each side.
    pub open spec fn spelled(self) -> Seq<char> {
        match self {
            Relation::Is => " = "@,
            Relation::After => " > "@,
            Relation::AtLeast => " >= "@,
            Relation::Below => " < "@,
            Relation::AtMost => " <= "@,
        }
    }

    pub fn operator(self) -> (operator: &'static str)
        ensures
            operator@ == self.spelled(),
    {
        match self {
            Relation::Is => " = ",
            Relation::After => " > ",
            Relation::AtLeast => " >= ",
            Relation::Below => " < ",
            Relation::AtMost => " <= ",
        }
    }

    /// Whether an integer stands in this relation to another.
    pub open spec fn of_integers(self, a: i64, b: i64) -> bool {
        match self {
            Relation::Is => a == b,
            Relation::After => a > b,
            Relation::AtLeast => a >= b,
            Relation::Below => a < b,
            Relation::AtMost => a <= b,
        }
    }

    /// Whether a text stands in this relation to another, by their bytes.
    pub open spec fn of_texts(self, a: Seq<char>, b: Seq<char>) -> bool {
        match self {
            Relation::Is => a == b,
            Relation::After => text::text_lt(b, a),
            Relation::AtLeast => !text::text_lt(a, b),
            Relation::Below => text::text_lt(a, b),
            Relation::AtMost => !text::text_lt(b, a),
        }
    }
}

/// The JSON type of a value, as far as a filter tells types apart.
#[derive(Debug, Clone, Copy, PartialEq, Eq, Structural)]
pub enum Shape {
    Null,
    Boolean,
    Number,
    Text,
    Array,
    Object,
}

/// The JSON type of a value.
pub open spec fn shape_of(value: Json) -> Shape {
    match value {
        Json::Null => Shape::Null,
        Json::Bool(_) => Shape::Boolean,
        Json::Number(_) => Shape::Number,
        Json::String(_) => Shape::Text,
        Json::Array(_) => Shape::Array,
        Json::Object(_) => Shape::Object,
    }
}

impl Shape {
    /// How a condition says that `json_type` answers this type.
    pub open spec fn spelled(self) -> Seq<char> {
        match self {
            Shape::Null => " = 'null'"@,
            Shape::Boolean => " IN ('true', 'false')"@,
            Shape::Number => " IN ('integer', 'real')"@,
            Shape::Text => " = 'text'"@,
            Shape::Array => " = 'array'"@,
            Shape::Object => " = 'object'"@,
        }
    }

    pub fn test(self) -> (test: &'static str)
        ensures
            test@ == self.spelled(),
    {
        match self {
            Shape::Null => " = 'null'",
            Shape::Boolean => " IN ('true', 'false')",
            Shape::Number => " IN ('integer', 'real')",
            Shape::Text => " = 'text'",
            Shape::Array => " = 'array'",
            Shape::Object => " = 'object'",
        }
    }

    /// The JSON type of a value.
    pub fn of(value: &Value) -> (shape: Self)
        ensures
            shape == shape_of(value@),
    {
        match value {
            Value::Null => Shape::Null,
            Value::Bool(_) => Shape::Boolean,
            Value::Number(_) => Shape::Number,
            Value::String(_) => Shape::Text,
            Value::Array(_) => Shape::Array,
            Value::Object(_) => Shape::Object,
        }
    }
}

/// One condition of a predicate.
#[derive(Debug, PartialEq, Eq)]
pub enum Clause {
    /// A column stands in a relation to a value.
    Compare(Column, Relation, SqlValue),
    /// A column holds one of these texts.
    OneOf(Column, Vec<String>),
    /// A key under `meta` holds a value of this JSON type. The type is asked
    /// for beside the value, because `true` and 1 are one SQL value.
    Meta(String, SqlValue, Shape),
    /// Nothing matches.
    Never,
}

/// What a [`Clause`] says.
pub ghost enum Condition {
    Compare(Column, Relation, Bound),
    OneOf(Column, Seq<Seq<char>>),
    Meta(Seq<char>, Bound, Shape),
    Never,
}

impl Clause {
    pub open spec fn view(&self) -> Condition {
        match *self {
            Clause::Compare(column, relation, value) => Condition::Compare(
                column,
                relation,
                value@,
            ),
            Clause::OneOf(column, texts) => Condition::OneOf(column, text::views(texts@)),
            Clause::Meta(key, value, shape) => Condition::Meta(key@, value@, shape),
            Clause::Never => Condition::Never,
        }
    }
}

/// The views of a list of clauses.
pub open spec fn clause_views(clauses: Seq<Clause>) -> Seq<Condition> {
    Seq::new(clauses.len(), |i: int| clauses[i]@)
}

/// A key as it is written in a quoted label of a JSON path that stands in a SQL
/// string literal: each backslash doubled for the label, and each single quote
/// for the literal.
pub open spec fn quoted(key: Seq<char>) -> Seq<char>
    decreases key.len(),
{
    if key.len() == 0 {
        Seq::empty()
    } else if key.last() == '\'' || key.last() == '\\' {
        quoted(key.drop_last()).push(key.last()).push(key.last())
    } else {
        quoted(key.drop_last()).push(key.last())
    }
}

/// The expression that reaches a key under `meta`.
pub open spec fn meta_text(key: Seq<char>) -> Seq<char> {
    "json_extract(meta, '$.\""@ + quoted(key) + "\"')"@
}

/// The expression for the JSON type of what a key under `meta` holds.
pub open spec fn meta_type_text(key: Seq<char>) -> Seq<char> {
    "json_type(meta, '$.\""@ + quoted(key) + "\"')"@
}

/// Why a `meta` key cannot be filtered on, if it cannot.
pub open spec fn meta_key_refusal(key: Seq<char>) -> Option<Seq<char>> {
    if key.len() == 0 {
        Some("a `meta` key to filter by must not be empty"@)
    } else if key.contains('"') {
        Some(
            "a `meta` key cannot be filtered on when it contains `\"`: SQLite's JSON path syntax has no way to write it (key `"@
                + key + "`)"@,
        )
    } else {
        None
    }
}

/// The placeholder with this number.
pub open spec fn hole(number: nat) -> Seq<char> {
    "?"@ + text::decimal_text(number)
}

/// The placeholders from `first`, `count` of them.
pub open spec fn holes(first: nat, count: nat) -> Seq<Seq<char>> {
    Seq::new(count, |i: int| hole((first + i) as nat))
}

/// The values a condition binds.
pub open spec fn condition_params(condition: Condition) -> Seq<Bound> {
    match condition {
        Condition::Compare(_, _, value) => seq![value],
        Condition::OneOf(_, texts) => Seq::new(texts.len(), |i: int| Bound::Text(texts[i])),
        Condition::Meta(_, value, _) => seq![value],
        Condition::Never => Seq::empty(),
    }
}

/// How a condition reads when its first placeholder has this number.
pub open spec fn condition_text(condition: Condition, first: nat) -> Seq<char> {
    match condition {
        Condition::Compare(column, relation, _) => column.spelled() + relation.spelled() + hole(
            first,
        ),
        Condition::OneOf(column, texts) => column.spelled() + " IN ("@ + text::joined(
            holes(first, texts.len()),
            ", "@,
        ) + ")"@,
        Condition::Meta(key, _, shape) => meta_text(key) + " = "@ + hole(first) + " AND "@
            + meta_type_text(key) + shape.spelled(),
        Condition::Never => "0"@,
    }
}

/// The values a predicate binds, in order.
pub open spec fn predicate_params(conditions: Seq<Condition>) -> Seq<Bound>
    decreases conditions.len(),
{
    if conditions.len() == 0 {
        Seq::empty()
    } else {
        predicate_params(conditions.drop_last()) + condition_params(conditions.last())
    }
}

/// How a predicate reads: its conditions joined by `AND`, placeholders
/// numbered from 1 through all of them.
pub open spec fn predicate_text(conditions: Seq<Condition>) -> Seq<char>
    decreases conditions.len(),
{
    if conditions.len() == 0 {
        Seq::empty()
    } else {
        let before = conditions.drop_last();
        let this = condition_text(conditions.last(), predicate_params(before).len() + 1);
        if before.len() == 0 {
            this
        } else {
            predicate_text(before) + " AND "@ + this
        }
    }
}

/// What is left open of how SQLite looks at a row.
pub ghost struct Engine {
    /// Whether two numbers, of which one at least is a double, are equal: 1 and
    /// 1.0 are, and so are two integers past the signed range with one double
    /// nearest to both.
    pub doubles: spec_fn(Bound, Bound) -> bool,
    /// What a key reaches under `meta` where that key or one of the row's holds
    /// a NUL, at which SQLite ends a key.
    pub cut: spec_fn(Seq<char>) -> Option<Json>,
}

impl Engine {
    /// For a row of which no `meta` is asked.
    pub open spec fn unasked() -> Engine {
        Engine { doubles: |a: Bound, b: Bound| false, cut: |key: Seq<char>| None }
    }
}

/// A row a predicate is held against: its columns, and what is under `meta`.
pub ghost struct Row {
    pub cells: spec_fn(Column) -> Bound,
    pub meta: Map<Seq<char>, Json>,
    pub engine: Engine,
}

/// Whether SQLite compares a key whole.
pub open spec fn whole_key(key: Seq<char>) -> bool {
    !key.contains('\0')
}

/// What a key reaches under the `meta` of a row.
pub open spec fn reached(row: Row, key: Seq<char>) -> Option<Json> {
    if whole_key(key) && forall|other: Seq<char>| #[trigger]
        row.meta.contains_key(other) ==> whole_key(other) {
        if row.meta.contains_key(key) {
            Some(row.meta[key])
        } else {
            None
        }
    } else {
        (row.engine.cut)(key)
    }
}

/// A number as a SQL value: an integer where it fits one, a double otherwise.
pub open spec fn number_bound(number: Number) -> Bound {
    match number {
        Number::PosInt(n) => if n <= i64::MAX {
            Bound::Integer(n as i64)
        } else {
            Bound::Large(n)
        },
        Number::NegInt(n) => Bound::Integer(n.amount()),
        Number::Real(n) => Bound::Real(n),
    }
}

/// A JSON scalar as the SQL value `json_extract` makes of it: booleans as 1 and
/// 0, integers where they fit one, and reals otherwise.
pub open spec fn scalar_bound(value: Json) -> Bound {
    match value {
        Json::String(s) => Bound::Text(s),
        Json::Bool(b) => Bound::Integer(
            if b {
                1
            } else {
                0
            },
        ),
        Json::Number(number) => number_bound(number),
        _ => Bound::Null,
    }
}

/// Whether a value is a number that is held as a double.
pub open spec fn is_double(value: Bound) -> bool {
    value is Real || value is Large
}

/// Whether two values are equal to SQL. Nothing equals `NULL`, a value equals
/// itself, and a double may equal another number, as `doubles` has it.
pub open spec fn equals(a: Bound, b: Bound, doubles: spec_fn(Bound, Bound) -> bool) -> bool {
    if a is Null || b is Null || a is Text || b is Text {
        !(a is Null) && a == b
    } else {
        a == b || ((is_double(a) || is_double(b)) && doubles(a, b))
    }
}

/// Whether a row meets a condition. A `meta` key that reaches nothing is `NULL`
/// to `json_extract`, and meets none.
pub open spec fn holds(condition: Condition, row: Row) -> bool {
    match condition {
        Condition::Compare(column, relation, value) => match ((row.cells)(column), value) {
            (Bound::Integer(a), Bound::Integer(b)) => relation.of_integers(a, b),
            (Bound::Text(a), Bound::Text(b)) => relation.of_texts(a, b),
            _ => false,
        },
        Condition::OneOf(column, texts) => match (row.cells)(column) {
            Bound::Text(s) => texts.contains(s),
            _ => false,
        },
        Condition::Meta(key, value, shape) => match reached(row, key) {
            Some(held) => shape_of(held) == shape && equals(
                scalar_bound(held),
                value,
                row.engine.doubles,
            ),
            None => false,
        },
        Condition::Never => false,
    }
}

/// Whether a row meets every condition of a predicate.
pub open spec fn meets(conditions: Seq<Condition>, row: Row) -> bool {
    forall|i: int| 0 <= i < conditions.len() ==> holds(#[trigger] conditions[i], row)
}

/// A key as it is written in a path label: each backslash and each single
/// quote doubled.
fn quote(key: &str) -> (literal: String)
    ensures
        literal@ == quoted(key@),
{
    let chars: Vec<char> = text::chars_of(key);
    let mut literal = String::new();
    let mut i: usize = 0;
    proof {
        assert(chars@.take(0) =~= Seq::<char>::empty());
    }
    while i < chars.len()
        invariant
            chars@ == key@,
            i <= chars@.len(),
            literal@ == quoted(chars@.take(i as int)),
        decreases chars@.len() - i,
    {
        proof {
            assert(chars@.take(i + 1).drop_last() =~= chars@.take(i as int));
        }
        if chars[i] == '\'' || chars[i] == '\\' {
            literal.push(chars[i]);
        }
        literal.push(chars[i]);
        i += 1;
    }
    proof {
        assert(chars@.take(i as int) =~= chars@);
    }
    literal
}

/// Whether a text holds a double quote.
fn has_double_quote(key: &str) -> (found: bool)
    ensures
        found == key@.contains('"'),
{
    let chars: Vec<char> = text::chars_of(key);
    let mut i: usize = 0;
    while i < chars.len()
        invariant
            chars@ == key@,
            i <= chars@.len(),
            forall|j: int| 0 <= j < i ==> chars@[j] != '"',
        decreases chars@.len() - i,
    {
        if chars[i] == '"' {
            proof {
                assert(key@[i as int] == '"');
            }
            return true;
        }
        i += 1;
    }
    false
}

/// The expression that reaches a key under `meta`: one spelling, for the
/// predicate and the index alike.
fn meta_path(key: &str) -> (expression: String)
    ensures
        expression@ == meta_text(key@),
{
    text::cat3("json_extract(meta, '$.\"", quote(key).as_str(), "\"')")
}

/// The expression for the JSON type of what a key under `meta` holds.
fn meta_type_path(key: &str) -> (expression: String)
    ensures
        expression@ == meta_type_text(key@),
{
    text::cat3("json_type(meta, '$.\"", quote(key).as_str(), "\"')")
}

/// The one spelling of "this `meta` key", shared by the predicate and the
/// index so that SQLite can see they are the same expression.
///
/// The key is a quoted JSON path label, so `.` and `[` in it name the key. A
/// key that contains `"` has no spelling in that syntax and is refused; a
/// backslash is doubled, because the label reads it as an escape, and a `'` for
/// the SQL string literal around the path.
pub fn meta_expr(key: &str) -> (expression: Result<String, Error>)
    ensures
        expression is Ok <==> meta_key_refusal(key@) is None,
        expression is Ok ==> expression->Ok_0@ == meta_text(key@),
        expression is Err ==> expression->Err_0@ == Failure::Validation(
            meta_key_refusal(key@)->0,
        ),
{
    if key.is_empty() {
        return Err(Error::validation("a `meta` key to filter by must not be empty".to_owned()));
    }
    if has_double_quote(key) {
        return Err(
            Error::validation(
                text::cat3(
                    "a `meta` key cannot be filtered on when it contains `\"`: SQLite's JSON path syntax has no way to write it (key `",
                    key,
                    "`)",
                ),
            ),
        );
    }
    Ok(meta_path(key))
}

/// A filter value as the SQL value `json_extract` produces for it.
pub fn meta_param(value: &Value) -> (param: SqlValue)
    ensures
        param@ == scalar_bound(value@),
{
    match value {
        Value::String(s) => SqlValue::Text(s.clone()),
        Value::Bool(b) => SqlValue::Integer(
            if *b {
                1
            } else {
                0
            },
        ),
        Value::Number(number) => match number {
            Number::PosInt(n) => if *n <= i64::MAX as u64 {
                SqlValue::Integer(*n as i64)
            } else {
                SqlValue::Large(*n)
            },
            Number::NegInt(n) => SqlValue::Integer(n.get()),
            Number::Real(n) => SqlValue::Real(n.clone()),
        },
        _ => SqlValue::Null,
    }
}

/// The placeholder for the last value bound.
fn last_hole(params: &Vec<SqlValue>) -> (placeholder: String)
    ensures
        placeholder@ == hole(params@.len()),
{
    text::cat2("?", text::decimal(params.len() as u64).as_str())
}

/// Adds one condition to a statement under construction.
fn render_clause(clause: &Clause, sql: &mut String, params: &mut Vec<SqlValue>)
    ensures
        final(sql)@ == old(sql)@ + condition_text(clause@, bound_views(old(params)@).len() + 1),
        bound_views(final(params)@) == bound_views(old(params)@) + condition_params(clause@),
{
    let ghost had = bound_views(params@);
    let ghost said = sql@;
    match clause {
        Clause::Compare(column, relation, value) => {
            params.push(value.clone());
            sql.append(column.name());
            sql.append(relation.operator());
            sql.append(last_hole(params).as_str());
            proof {
                assert(bound_views(params@) =~= had + seq![value@]);
                assert(sql@ =~= said + condition_text(clause@, had.len() + 1));
            }
        },
        Clause::OneOf(column, texts) => {
            sql.append(column.name());
            sql.append(" IN (");
            let ghost front = sql@;
            let ghost want = holes(had.len() + 1, texts@.len());
            let mut i: usize = 0;
            proof {
                assert(want.take(0) =~= Seq::<Seq<char>>::empty());
                assert(front + text::joined(want.take(0), ", "@) =~= front);
                assert(bound_views(params@) =~= had);
            }
            while i < texts.len()
                invariant
                    i <= texts@.len(),
                    params@.len() == had.len() + i,
                    want == holes(had.len() + 1, texts@.len()),
                    sql@ == front + text::joined(want.take(i as int), ", "@),
                    forall|j: int| 0 <= j < had.len() ==> (#[trigger] params@[j])@ == had[j],
                    forall|k: int|
                        had.len() <= k < params@.len() ==> (#[trigger] params@[k])@ == Bound::Text(
                            texts@[k - had.len()]@,
                        ),
                decreases texts@.len() - i,
            {
                proof {
                    assert(want.take(i + 1).drop_last() =~= want.take(i as int));
                    assert(want.take(i + 1).last() == want[i as int]);
                }
                let ghost before = sql@;
                params.push(SqlValue::Text(texts[i].clone()));
                if i > 0 {
                    sql.append(", ");
                }
                sql.append(last_hole(params).as_str());
                proof {
                    assert(want[i as int] == hole(params@.len()));
                    assert(sql@ =~= front + text::joined(want.take(i + 1), ", "@));
                }
                i += 1;
            }
            sql.append(")");
            proof {
                assert(want.take(i as int) =~= want);
                assert(bound_views(params@) =~= had + condition_params(clause@));
                assert(sql@ =~= said + condition_text(clause@, had.len() + 1));
            }
        },
        Clause::Meta(key, value, shape) => {
            params.push(value.clone());
            sql.append(meta_path(key.as_str()).as_str());
            sql.append(" = ");
            sql.append(last_hole(params).as_str());
            sql.append(" AND ");
            sql.append(meta_type_path(key.as_str()).as_str());
            sql.append(shape.test());
            proof {
                assert(bound_views(params@) =~= had + seq![value@]);
                assert(sql@ =~= said + condition_text(clause@, had.len() + 1));
            }
        },
        Clause::Never => {
            sql.append("0");
            proof {
                assert(bound_views(params@) =~= had + Seq::<Bound>::empty());
            }
        },
    }
}

/// Renders a predicate: `head`, then the conditions joined by `AND`, with the
/// values they bind in order.
pub fn render_where(head: &str, clauses: &Vec<Clause>) -> (statement: Statement)
    ensures
        statement@ == (Query {
            sql: head@ + predicate_text(clause_views(clauses@)),
            params: predicate_params(clause_views(clauses@)),
        }),
{
    let ghost all = clause_views(clauses@);
    let mut sql = head.to_owned();
    let mut params: Vec<SqlValue> = Vec::new();
    let mut i: usize = 0;
    proof {
        assert(all.take(0) =~= Seq::<Condition>::empty());
        assert(bound_views(params@) =~= Seq::<Bound>::empty());
        assert(sql@ =~= head@ + predicate_text(all.take(0)));
    }
    while i < clauses.len()
        invariant
            all == clause_views(clauses@),
            i <= clauses@.len(),
            sql@ == head@ + predicate_text(all.take(i as int)),
            bound_views(params@) == predicate_params(all.take(i as int)),
        decreases clauses@.len() - i,
    {
        proof {
            assert(all.take(i + 1).drop_last() =~= all.take(i as int));
            assert(all.take(i + 1).last() == clauses@[i as int]@);
        }
        let ghost before = sql@;
        if i > 0 {
            sql.append(" AND ");
        }
        render_clause(&clauses[i], &mut sql, &mut params);
        proof {
            assert(sql@ =~= head@ + predicate_text(all.take(i + 1)));
        }
        i += 1;
    }
    proof {
        assert(all.take(i as int) =~= all);
    }
    Statement { sql, params }
}

/// Two keys are reached by one expression only if they are one key.
pub proof fn keys_are_told_by_their_expressions(a: Seq<char>, b: Seq<char>)
    requires
        meta_text(a) == meta_text(b),
    ensures
        a == b,
{
    let head = "json_extract(meta, '$.\""@;
    let tail = "\"')"@;
    assert(quoted(a) =~= meta_text(a).subrange(
        head.len() as int,
        meta_text(a).len() - tail.len(),
    ));
    assert(quoted(b) =~= meta_text(b).subrange(
        head.len() as int,
        meta_text(b).len() - tail.len(),
    ));
    quoting_is_injective(a, b);
}

proof fn quoting_is_injective(a: Seq<char>, b: Seq<char>)
    requires
        quoted(a) == quoted(b),
    ensures
        a == b,
    decreases a.len(),
{
    if a.len() == 0 || b.len() == 0 {
        if a.len() > 0 {
            assert(quoted(a).last() == a.last());
            assert(quoted(a).len() > 0);
        }
        if b.len() > 0 {
            assert(quoted(b).last() == b.last());
            assert(quoted(b).len() > 0);
        }
        assert(a =~= b);
    } else {
        assert(quoted(a).last() == a.last());
        assert(quoted(b).last() == b.last());
        let shared = quoted(a);
        let n = if a.last() == '\'' || a.last() == '\\' {
            2
        } else {
            1int
        };
        assert(quoted(a.drop_last()) =~= shared.take(shared.len() - n));
        assert(quoted(b.drop_last()) =~= shared.take(shared.len() - n));
        quoting_is_injective(a.drop_last(), b.drop_last());
        assert(a =~= a.drop_last().push(a.last()));
        assert(b =~= b.drop_last().push(b.last()));
    }
}

/// A statement with `tail` and one more placeholder after it.
pub open spec fn closed_with(query: Query, tail: Seq<char>, value: Bound) -> Query {
    Query {
        sql: query.sql + tail + hole(query.params.len() + 1),
        params: query.params.push(value),
    }
}

/// Ends a statement with `tail` and one more bound value.
pub fn close_with(statement: Statement, tail: &str, value: SqlValue) -> (closed: Statement)
    ensures
        closed@ == closed_with(statement@, tail@, value@),
{
    let ghost had = bound_views(statement.params@);
    let ghost held = value@;
    let mut sql = statement.sql;
    let mut params = statement.params;
    params.push(value);
    sql.append(tail);
    sql.append(last_hole(&params).as_str());
    proof {
        assert(bound_views(params@) =~= had.push(held));
    }
    Statement { sql, params }
}

/// A row limit as SQLite takes it: a negative one means no limit, which is
/// what a limit beyond the signed range asks for.
pub open spec fn limit_value(limit: usize) -> i64 {
    if limit <= i64::MAX {
        limit as i64
    } else {
        -1i64
    }
}

pub fn clamp_limit(limit: usize) -> (value: i64)
    ensures
        value == limit_value(limit),
{
    if limit as u64 <= i64::MAX as u64 {
        limit as i64
    } else {
        -1
    }
}

/// SQLite's ceiling on bound parameters in one statement.
pub const MAX_PLACEHOLDERS: usize = 32766;

/// Why this many values cannot be bound, if they cannot.
pub open spec fn placeholder_refusal(count: nat, what: Seq<char>) -> Option<Seq<char>> {
    if count > MAX_PLACEHOLDERS {
        Some(
            text::decimal_text(count) + " "@ + what
                + " in one statement, over SQLite's limit of 32766; narrow the filter, or run it in batches"@,
        )
    } else {
        None
    }
}

/// Refuses a list too long to bind, rather than letting it arrive as a
/// storage failure about variable numbers.
pub fn check_placeholders(count: usize, what: &str) -> (checked: Result<(), Error>)
    ensures
        checked is Ok <==> placeholder_refusal(count as nat, what@) is None,
        checked is Err ==> checked->Err_0@ == Failure::Unsupported(
            placeholder_refusal(count as nat, what@)->0,
        ),
{
    if count > MAX_PLACEHOLDERS {
        return Err(
            Error::Unsupported(
                text::cat4(
                    text::decimal(count as u64).as_str(),
                    " ",
                    what,
                    " in one statement, over SQLite's limit of 32766; narrow the filter, or run it in batches",
                ),
            ),
        );
    }
    Ok(())
}

/// Why a position cannot be bound, if it cannot.
pub open spec fn position_refusal(position: Position) -> Option<Seq<char>> {
    if position.stored() is None {
        Some(
            "position "@ + text::decimal_text(position.0 as nat)
                + " is beyond the range SQLite stores; a position assigned by this store is always in range"@,
        )
    } else {
        None
    }
}

/// A position as SQLite stores it, refusing rather than wrapping.
pub fn stored_position(position: Position) -> (stored: Result<i64, Error>)
    ensures
        stored is Ok <==> position_refusal(position) is None,
        stored is Ok ==> stored->Ok_0 == position.0,
        stored is Err ==> stored->Err_0@ == Failure::Validation(position_refusal(position)->0),
{
    match position.as_stored() {
        Some(stored) => Ok(stored),
        None => Err(
            Error::validation(
                text::cat3(
                    "position ",
                    position.to_string().as_str(),
                    " is beyond the range SQLite stores; a position assigned by this store is always in range",
                ),
            ),
        ),
    }
}

/// A relation is written as the operator it is.
pub proof fn relations_are_their_operators(
    relation: Relation,
    a: i64,
    b: i64,
    x: Seq<char>,
    y: Seq<char>,
)
    ensures
        relation is Is ==> relation.spelled() == " = "@ && relation.of_integers(a, b) == (a == b)
            && relation.of_texts(x, y) == (x == y),
        relation is After ==> relation.spelled() == " > "@ && relation.of_integers(a, b) == (a > b)
            && relation.of_texts(x, y) == text::text_lt(y, x),
        relation is AtLeast ==> relation.spelled() == " >= "@ && relation.of_integers(a, b) == (a
            >= b) && relation.of_texts(x, y) == !text::text_lt(x, y),
        relation is Below ==> relation.spelled() == " < "@ && relation.of_integers(a, b) == (a < b)
            && relation.of_texts(x, y) == text::text_lt(x, y),
        relation is AtMost ==> relation.spelled() == " <= "@ && relation.of_integers(a, b) == (a
            <= b) && relation.of_texts(x, y) == !text::text_lt(y, x),
{
}

/// A column is written as its name.
pub proof fn columns_are_their_names(column: Column)
    ensures
        column is Position ==> column.spelled() == "position"@,
        column is Stream ==> column.spelled() == "stream"@,
        column is Sequence ==> column.spelled() == "seq"@,
        column is EpochMs ==> column.spelled() == "epoch_ms"@,
        column is Kind ==> column.spelled() == "kind"@,
        column is Consumer ==> column.spelled() == "consumer"@,
        column is Id ==> column.spelled() == "id"@,
{
}

/// A condition has a placeholder for each value it binds, numbered from the
/// first on, and binds them in the order they are written: a list one for each
/// of its texts, a `meta` key its value with its type asked for beside it.
pub proof fn conditions_bind_what_they_write(
    column: Column,
    relation: Relation,
    value: Bound,
    texts: Seq<Seq<char>>,
    key: Seq<char>,
    shape: Shape,
    first: nat,
    i: int,
)
    ensures
        condition_text(Condition::Compare(column, relation, value), first) == column.spelled()
            + relation.spelled() + "?"@ + text::decimal_text(first),
        condition_params(Condition::Compare(column, relation, value)) == seq![value],
        condition_text(Condition::OneOf(column, texts), first) == column.spelled() + " IN ("@
            + text::joined(holes(first, texts.len()), ", "@) + ")"@,
        holes(first, texts.len()).len() == texts.len(),
        condition_params(Condition::OneOf(column, texts)).len() == texts.len(),
        0 <= i < texts.len() ==> holes(first, texts.len())[i] == "?"@ + text::decimal_text(
            (first + i) as nat,
        ) && condition_params(Condition::OneOf(column, texts))[i] == Bound::Text(texts[i]),
        condition_text(Condition::Meta(key, value, shape), first) == "json_extract(meta, '$.\""@
            + quoted(key) + "\"')"@ + " = "@ + "?"@ + text::decimal_text(first) + " AND "@
            + "json_type(meta, '$.\""@ + quoted(key) + "\"')"@ + shape.spelled(),
        condition_params(Condition::Meta(key, value, shape)) == seq![value],
        condition_text(Condition::Never, first) == "0"@,
        condition_params(Condition::Never).len() == 0,
{
    assert(column.spelled() + relation.spelled() + ("?"@ + text::decimal_text(first))
        =~= column.spelled() + relation.spelled() + "?"@ + text::decimal_text(first));
    let asked = "json_extract(meta, '$.\""@ + quoted(key) + "\"')"@;
    let typed = "json_type(meta, '$.\""@ + quoted(key) + "\"')"@;
    assert(asked + " = "@ + ("?"@ + text::decimal_text(first)) + " AND "@ + typed + shape.spelled()
        =~= asked + " = "@ + "?"@ + text::decimal_text(first) + " AND "@ + "json_type(meta, '$.\""@
        + quoted(key) + "\"')"@ + shape.spelled());
}

/// A predicate is its conditions joined by `AND`, each numbering on from the
/// one before it, and binds their values one after the other.
pub proof fn predicates_join_their_conditions(conditions: Seq<Condition>, condition: Condition)
    ensures
        predicate_params(Seq::empty()).len() == 0,
        predicate_params(conditions.push(condition)) == predicate_params(conditions)
            + condition_params(condition),
        conditions.len() == 0 ==> predicate_text(conditions.push(condition)) == condition_text(
            condition,
            1,
        ),
        conditions.len() > 0 ==> predicate_text(conditions.push(condition)) == predicate_text(
            conditions,
        ) + " AND "@ + condition_text(condition, predicate_params(conditions).len() + 1),
{
    assert(conditions.push(condition).drop_last() =~= conditions);
}

/// A key is written character by character, a single quote and a backslash
/// twice and any other as it is.
pub proof fn keys_are_written_character_by_character(key: Seq<char>, c: char)
    ensures
        quoted(Seq::empty()) == Seq::<char>::empty(),
        c == '\'' || c == '\\' ==> quoted(key.push(c)) == quoted(key).push(c).push(c),
        c != '\'' && c != '\\' ==> quoted(key.push(c)) == quoted(key).push(c),
{
    assert(key.push(c).drop_last() =~= key);
}

/// A `meta` key can be asked for unless it is empty or holds a double quote.
pub proof fn keys_that_can_be_asked_for(key: Seq<char>)
    ensures
        meta_key_refusal(key) is None <==> key.len() > 0 && !key.contains('"'),
        key.len() == 0 ==> meta_key_refusal(key) == Some(
            "a `meta` key to filter by must not be empty"@,
        ),
{
}

/// What is bound for a filter's value: a string as it is, a boolean as 1 or 0,
/// an integer as itself where it fits a signed one, and any other number as
/// that number; and the type asked for is the value's own.
pub proof fn filter_values_are_bound_as_they_are(value: Json)
    ensures
        value is String ==> scalar_bound(value) == Bound::Text(value->String_0) && shape_of(value)
            is Text,
        value is Bool ==> scalar_bound(value) == Bound::Integer(
            if value->Bool_0 {
                1
            } else {
                0
            },
        ) && shape_of(value) is Boolean,
        value is Number ==> shape_of(value) is Number,
        value matches Json::Number(Number::PosInt(n)) ==> scalar_bound(value) == (if n <= i64::MAX {
            Bound::Integer(n as i64)
        } else {
            Bound::Large(n)
        }),
        value matches Json::Number(Number::NegInt(n)) ==> scalar_bound(value) == Bound::Integer(
            n.amount(),
        ),
        value matches Json::Number(Number::Real(n)) ==> scalar_bound(value) == Bound::Real(n),
        Shape::Text.spelled() == " = 'text'"@,
        Shape::Boolean.spelled() == " IN ('true', 'false')"@,
        Shape::Number.spelled() == " IN ('integer', 'real')"@,
{
}

/// Ending a statement adds its tail and the next placeholder, and binds one
/// more value there.
pub proof fn statements_end_with_one_more(query: Query, tail: Seq<char>, value: Bound)
    ensures
        closed_with(query, tail, value).sql == query.sql + tail + "?"@ + text::decimal_text(
            query.params.len() + 1,
        ),
        closed_with(query, tail, value).params == query.params.push(value),
{
    assert(query.sql + tail + ("?"@ + text::decimal_text(query.params.len() + 1)) =~= query.sql
        + tail + "?"@ + text::decimal_text(query.params.len() + 1));
}

/// A limit is that many rows, and none where it is past what SQLite counts; a
/// list is refused past the number of values a statement takes; and a position
/// past what SQLite stores.
pub proof fn limits_are_kept(limit: usize, count: nat, what: Seq<char>, position: Position)
    ensures
        limit <= i64::MAX ==> limit_value(limit) == limit,
        limit > i64::MAX ==> limit_value(limit) < 0,
        placeholder_refusal(count, what) is None <==> count <= 32766,
        position_refusal(position) is None <==> position.0 <= i64::MAX,
{
}

/// A statement says its text and binds its values, each as it is and in order.
pub proof fn statements_say_what_they_hold(
    value: SqlValue,
    statement: Statement,
    clause: Clause,
    clauses: Seq<Clause>,
    i: int,
)
    ensures
        value is Null ==> value@ is Null,
        value matches SqlValue::Integer(n) ==> value@ == Bound::Integer(n),
        value matches SqlValue::Real(n) ==> value@ == Bound::Real(n),
        value matches SqlValue::Large(n) ==> value@ == Bound::Large(n),
        value matches SqlValue::Text(s) ==> value@ == Bound::Text(s@),
        statement@.sql == statement.sql@,
        statement@.params.len() == statement.params@.len(),
        0 <= i < statement.params@.len() ==> statement@.params[i] == statement.params@[i]@,
        clause matches Clause::Compare(column, relation, bound) ==> clause@ == Condition::Compare(
            column,
            relation,
            bound@,
        ),
        clause matches Clause::OneOf(column, texts) ==> clause@ == Condition::OneOf(
            column,
            text::views(texts@),
        ),
        clause matches Clause::Meta(key, bound, shape) ==> clause@ == Condition::Meta(
            key@,
            bound@,
            shape,
        ),
        clause is Never ==> clause@ is Never,
        clause_views(clauses).len() == clauses.len(),
        0 <= i < clauses.len() ==> clause_views(clauses)[i] == clauses[i]@,
{
}

} // verus!
