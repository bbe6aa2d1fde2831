//! What an operator is shown: which refusals are worth a warning, and how much
//! of a statement is.

use vstd::prelude::*;

use crate::error::{Error, Failure};
use crate::text;

verus! {

/// How much of a statement is shown, in characters.
pub const SQL_LIMIT: usize = 256;

/// The refusals an operator wants to see, by name: those where the store
/// declines because doing what it was asked would produce a wrong answer.
pub open spec fn refusal_name(failure: Failure) -> Option<Seq<char>> {
    match failure {
        Failure::Truncated { .. } => Some("truncated"@),
        Failure::NotExported { .. } => Some("not_exported"@),
        Failure::ConsumerBehind { .. } => Some("consumer_behind"@),
        Failure::Unsupported(message) => if "not authorized inside the hatch"@.is_prefix_of(
            message,
        ) {
            Some("denied"@)
        } else {
            None
        },
        _ => None,
    }
}

/// The name of a refusal, or `None` for a failure that is not one.
pub fn refused(error: &Error) -> (name: Option<&'static str>)
    ensures
        name is Some <==> refusal_name(error@) is Some,
        name is Some ==> name->0@ == refusal_name(error@)->0,
{
    match error {
        Error::Truncated { .. } => Some("truncated"),
        Error::NotExported { .. } => Some("not_exported"),
        Error::ConsumerBehind { .. } => Some("consumer_behind"),
        Error::Unsupported(message) => {
            if text::begins_with(message.as_str(), "not authorized inside the hatch") {
                Some("denied")
            } else {
                None
            }
        },
        _ => None,
    }
}

/// The first characters of a statement, marked when there were more.
pub open spec fn clip(sql: Seq<char>) -> Seq<char> {
    if sql.len() <= SQL_LIMIT {
        sql
    } else {
        sql.take(SQL_LIMIT as int).push('…')
    }
}

/// The first characters of a statement, marked when there were more. By
/// characters rather than bytes, because the text is the caller's.
pub fn clipped(sql: &str) -> (shown: String)
    ensures
        shown@ == clip(sql@),
{
    let chars: Vec<char> = text::chars_of(sql);
    let kept: usize = if chars.len() <= SQL_LIMIT {
        chars.len()
    } else {
        SQL_LIMIT
    };
    let mut shown = String::new();
    let mut i: usize = 0;
    while i < kept
        invariant
            chars@ == sql@,
            kept <= chars@.len(),
            i <= kept,
            shown@ == sql@.take(i as int),
        decreases kept - i,
    {
        shown.push(chars[i]);
        proof {
            assert(sql@.take(i + 1) =~= sql@.take(i as int).push(sql@[i as int]));
        }
        i += 1;
    }
    proof {
        assert(sql@.len() <= SQL_LIMIT ==> sql@.take(kept as int) =~= sql@);
    }
    if chars.len() > SQL_LIMIT {
        shown.push('…');
    }
    shown
}

/// The refusals that are told, and no others: a fold over removed history, a
/// removal no export covers or that would overrun a consumer, and what the
/// hatch denied.
pub proof fn refusals_are_told(failure: Failure)
    ensures
        failure is Truncated ==> refusal_name(failure) == Some("truncated"@),
        failure is NotExported ==> refusal_name(failure) == Some("not_exported"@),
        failure is ConsumerBehind ==> refusal_name(failure) == Some("consumer_behind"@),
        failure matches Failure::Unsupported(message) ==> refusal_name(failure) == (
        if "not authorized inside the hatch"@.is_prefix_of(message) {
            Some("denied"@)
        } else {
            None
        }),
        failure is Validation || failure is Busy || failure is Timeout || failure is Storage
            || failure is Corruption || failure is HeadMismatch ==> refusal_name(failure) is None,
{
}

/// A short statement is shown whole, and a long one by its first characters and
/// a mark.
pub proof fn statements_are_shown_from_the_front(sql: Seq<char>, i: int)
    ensures
        sql.len() <= 256 ==> clip(sql) == sql,
        sql.len() > 256 ==> clip(sql).len() == 257 && clip(sql)[256] == '…',
        0 <= i < 256 && i < sql.len() ==> clip(sql)[i] == sql[i],
{
}

} // verus!
