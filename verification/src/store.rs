//! What a caller may claim about a stream's head, and what a store that is
//! asked for more than it can do answers.

use vstd::prelude::*;

use crate::error::{Error, Failure};
use crate::text;
use crate::upcast::Current;

verus! {

/// What a caller believes a stream's head to be, as of when it last looked.
///
/// Two claims and no more: nothing was ever appended, or the last append has
/// this sequence number. The empty case has a name rather than a number.
#[derive(Debug, Clone, Copy, PartialEq, Eq, Structural)]
#[non_exhaustive]
pub enum Expected {
    /// Nothing has ever been appended to this stream. A stream that retention
    /// has emptied is not unwritten: its counter still stands.
    Unwritten,
    /// The last event appended to this stream has this `seq`.
    Last(u64),
}

impl Expected {
    /// How the claim reads in a message.
    pub open spec fn spoken(self) -> Seq<char> {
        match self {
            Expected::Unwritten => "Unwritten"@,
            Expected::Last(n) => "Seq("@ + text::decimal_text(n as nat) + ")"@,
        }
    }

    /// The head a stream stands at, given the sequence number its next event
    /// will have.
    pub open spec fn head_before(next: u64) -> Expected {
        if next == 1 {
            Expected::Unwritten
        } else {
            Expected::Last((next - 1) as u64)
        }
    }

    pub fn describe(&self) -> (spoken: String)
        ensures
            spoken@ == self.spoken(),
    {
        match *self {
            Expected::Unwritten => "Unwritten".to_owned(),
            Expected::Last(n) => text::cat3("Seq(", text::decimal(n).as_str(), ")"),
        }
    }
}

/// What a store or a log need not be able to do.
#[derive(Debug, Clone, Copy, PartialEq, Eq, Structural)]
pub enum Ability {
    AppendAt,
    AppendExpecting,
    DetachAppend,
    Query,
    QueryTimeout,
    Export,
    Import,
}

/// How declining reads.
pub open spec fn declined(ability: Ability) -> Seq<char> {
    match ability {
        Ability::AppendAt => "this store cannot record an event at a time other than now"@,
        Ability::AppendExpecting => "this store cannot make a head check and an append one write"@,
        Ability::DetachAppend => "this store cannot accept a write it is not awaited for"@,
        Ability::Query => "this store is not a database and cannot answer SQL"@,
        Ability::QueryTimeout => "this store cannot bound how long a statement runs"@,
        Ability::Export => "this log cannot hand over its stored events"@,
        Ability::Import => "this log cannot take in exported events as one write"@,
    }
}

/// What a backend that cannot do something answers: a refusal, rather than an
/// imitation that does something else.
pub fn decline(ability: Ability) -> (error: Error)
    ensures
        error@ == Failure::Unsupported(declined(ability)),
{
    let message = match ability {
        Ability::AppendAt => "this store cannot record an event at a time other than now",
        Ability::AppendExpecting => "this store cannot make a head check and an append one write",
        Ability::DetachAppend => "this store cannot accept a write it is not awaited for",
        Ability::Query => "this store is not a database and cannot answer SQL",
        Ability::QueryTimeout => "this store cannot bound how long a statement runs",
        Ability::Export => "this log cannot hand over its stored events",
        Ability::Import => "this log cannot take in exported events as one write",
    };
    Error::Unsupported(message.to_owned())
}

/// The last `n` of a whole stream, in order: a read from the end, for a
/// backend that can only read forward.
pub fn tail(all: Vec<Current>, n: usize) -> (last: Vec<Current>)
    ensures
        last@ == (if all@.len() > n {
            all@.skip(all@.len() - n)
        } else {
            all@
        }),
{
    let mut all = all;
    let count: usize = all.len();
    if count > n {
        all.split_off(count - n)
    } else {
        all
    }
}

/// The head before a stream's next number: unwritten before the first, and the
/// number before it otherwise.
pub proof fn heads_stand_before_the_next(next: u64)
    requires
        next >= 1,
    ensures
        Expected::head_before(next) is Unwritten <==> next == 1,
        next > 1 ==> Expected::head_before(next) == Expected::Last((next - 1) as u64),
        forall|n: u64| #[trigger] Expected::Last(n).spoken() == "Seq("@ + text::decimal_text(
            n as nat,
        ) + ")"@,
        Expected::Unwritten.spoken() == "Unwritten"@,
{
}

/// What cannot be done is said to be what it is.
pub proof fn declining_says_what_cannot_be_done(ability: Ability)
    ensures
        ability is AppendAt ==> declined(ability)
            == "this store cannot record an event at a time other than now"@,
        ability is AppendExpecting ==> declined(ability)
            == "this store cannot make a head check and an append one write"@,
        ability is DetachAppend ==> declined(ability)
            == "this store cannot accept a write it is not awaited for"@,
        ability is Query ==> declined(ability)
            == "this store is not a database and cannot answer SQL"@,
        ability is QueryTimeout ==> declined(ability)
            == "this store cannot bound how long a statement runs"@,
        ability is Export ==> declined(ability) == "this log cannot hand over its stored events"@,
        ability is Import ==> declined(ability)
            == "this log cannot take in exported events as one write"@,
{
}

} // verus!
