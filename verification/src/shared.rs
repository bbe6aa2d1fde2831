//! What the log and every stream handle have in common: how a failure of the
//! database is told, when a write is tried again, which connection a read goes
//! to, and what subscribers are woken with.

use vstd::prelude::*;

use crate::error::{Error, Failure};
use crate::position::Position;

verus! {

/// What SQLite said of a statement that failed.
#[derive(Debug, Clone, Copy, PartialEq, Eq, Structural)]
pub enum Code {
    Busy,
    Locked,
    Interrupted,
    Other,
}

/// A failure of a statement. Contention is worth another call; an interrupted
/// statement is the caller's own deadline arriving; everything else is the
/// database failing.
pub open spec fn classified(code: Code, message: Seq<char>) -> Failure {
    match code {
        Code::Busy => Failure::Busy(message),
        Code::Locked => Failure::Busy(message),
        Code::Interrupted => Failure::Timeout(message),
        Code::Other => Failure::Storage(message),
    }
}

/// Which class a failure of a statement belongs to.
pub fn classify(code: Code, message: String) -> (error: Error)
    ensures
        error@ == classified(code, message@),
{
    match code {
        Code::Busy | Code::Locked => Error::Busy(message),
        Code::Interrupted => Error::Timeout(message),
        Code::Other => Error::Storage(message),
    }
}

/// Whether a failure is contention.
pub fn is_contention(code: Code) -> (yes: bool)
    ensures
        yes == (code is Busy || code is Locked),
        yes <==> forall|message: Seq<char>| #[trigger] classified(code, message) is Busy,
{
    let yes = matches!(code, Code::Busy | Code::Locked);
    proof {
        assert(classified(code, Seq::empty()) is Busy == yes);
    }
    yes
}

/// A failure of the thread a connection lives on, rather than of the SQL it
/// ran.
#[derive(Debug)]
pub enum ThreadFailure {
    Sqlite(Code, String),
    /// Its own deadline passed.
    Timeout,
    /// It has shut down.
    Closed,
    /// Anything else, with whether it says it is busy.
    Other { busy: bool, message: String },
}

/// How a failure of the thread is told.
pub open spec fn thread_failure(failure: ThreadFailure) -> Failure {
    match failure {
        ThreadFailure::Sqlite(code, message) => classified(code, message@),
        ThreadFailure::Timeout => Failure::Timeout("the isle reported a deadline"@),
        ThreadFailure::Closed => Failure::Storage("store is closed"@),
        ThreadFailure::Other { busy, message } => if busy {
            Failure::Busy(message@)
        } else {
            Failure::Storage(message@)
        },
    }
}

/// Which class a failure of the thread belongs to.
pub fn map_isle(failure: ThreadFailure) -> (error: Error)
    ensures
        error@ == thread_failure(failure),
{
    match failure {
        ThreadFailure::Sqlite(code, message) => classify(code, message),
        ThreadFailure::Timeout => Error::Timeout("the isle reported a deadline".to_owned()),
        ThreadFailure::Closed => Error::Storage("store is closed".to_owned()),
        ThreadFailure::Other { busy, message } => {
            if busy {
                Error::Busy(message)
            } else {
                Error::Storage(message)
            }
        },
    }
}

/// How many times a write is tried again when it loses the lock race.
pub const MAX_BUSY_RETRIES: u32 = 4;

/// Two to a power.
pub open spec fn power_of_two(n: nat) -> nat
    decreases n,
{
    if n == 0 {
        1
    } else {
        2 * power_of_two((n - 1) as nat)
    }
}

/// The milliseconds before a retry, counted from 1: five, doubled each time,
/// and never more than fit.
pub open spec fn backoff_ms(attempt: u32) -> u64 {
    let ms = 5 * power_of_two(attempt as nat);
    if power_of_two(attempt as nat) > u64::MAX || ms > u64::MAX {
        u64::MAX
    } else {
        ms as u64
    }
}

proof fn powers_grow(n: nat, m: nat)
    requires
        n <= m,
    ensures
        power_of_two(n) <= power_of_two(m),
        power_of_two(n) >= 1,
    decreases m,
{
    if n < m {
        powers_grow(n, (m - 1) as nat);
    } else if n > 0 {
        powers_grow((n - 1) as nat, (n - 1) as nat);
    }
}

/// The milliseconds to wait before retry `attempt`.
pub fn backoff(attempt: u32) -> (ms: u64)
    ensures
        ms == backoff_ms(attempt),
{
    let mut power: u64 = 1;
    let mut i: u32 = 0;
    while i < attempt
        invariant
            i <= attempt,
            power == power_of_two(i as nat),
        decreases attempt - i,
    {
        proof {
            powers_grow((i + 1) as nat, attempt as nat);
        }
        power = match power.checked_mul(2) {
            Some(power) => power,
            None => {
                return u64::MAX;
            },
        };
        i += 1;
    }
    match power.checked_mul(5) {
        Some(ms) => ms,
        None => u64::MAX,
    }
}

/// When a write that came back is tried again: on contention, and only so many
/// times. Gives the milliseconds to wait first.
pub fn retry_after(attempts: u32, busy: bool) -> (wait: Option<u64>)
    ensures
        wait is Some <==> busy && attempts < MAX_BUSY_RETRIES,
        wait is Some ==> wait->0 == backoff_ms((attempts + 1) as u32),
{
    if busy && attempts < MAX_BUSY_RETRIES {
        Some(backoff(attempts + 1))
    } else {
        None
    }
}

/// A write that stays contended gives up: the waits are 10, 20, 40 and 80
/// milliseconds, and then the failure is the caller's.
pub proof fn retries_end(attempts: u32)
    ensures
        MAX_BUSY_RETRIES == 4,
        backoff_ms(0) == 5,
        attempts == 0 ==> backoff_ms((attempts + 1) as u32) == 10,
        attempts == 1 ==> backoff_ms((attempts + 1) as u32) == 20,
        attempts == 2 ==> backoff_ms((attempts + 1) as u32) == 40,
        attempts == 3 ==> backoff_ms((attempts + 1) as u32) == 80,
{
    reveal_with_fuel(power_of_two, 5);
}

/// Which of the reading connections a read goes to, in turn, or `None` where
/// there is none and it goes to the writer.
pub fn reader(turn: usize, readers: usize) -> (reader: Option<usize>)
    ensures
        reader is None <==> readers == 0,
        reader is Some ==> reader->0 == turn % readers && reader->0 < readers,
{
    if readers == 0 {
        None
    } else {
        Some(turn % readers)
    }
}

/// What the newest committed position becomes when a commit is announced, or
/// `None` where it stays: it never goes back.
pub fn publish(current: Position, position: Position) -> (published: Option<Position>)
    ensures
        published is Some <==> position.0 > current.0,
        published is Some ==> published->0 == position,
        current.later(position) == (if published is Some {
            published->0
        } else {
            current
        }),
{
    if position.get() > current.get() {
        Some(position)
    } else {
        None
    }
}

/// How failures are told: contention as busy, an interrupted statement as the
/// deadline it is, and anything else as the storage's; with what was said.
pub proof fn failures_are_told_as_what_they_are(code: Code, message: Seq<char>)
    ensures
        code is Busy || code is Locked ==> classified(code, message) == Failure::Busy(message),
        code is Interrupted ==> classified(code, message) == Failure::Timeout(message),
        code is Other ==> classified(code, message) == Failure::Storage(message),
{
}

/// How a failure of the thread is told: what SQLite said as SQLite's, a
/// deadline as one, a thread that is gone as a closed store, and anything else
/// as busy exactly where it says so.
pub proof fn thread_failures_are_told_as_what_they_are(failure: ThreadFailure)
    ensures
        failure matches ThreadFailure::Sqlite(code, message) ==> thread_failure(failure)
            == classified(code, message@),
        failure is Timeout ==> thread_failure(failure) is Timeout,
        failure is Closed ==> thread_failure(failure) == Failure::Storage("store is closed"@),
        failure matches ThreadFailure::Other { busy, message } ==> thread_failure(failure) == (
        if busy {
            Failure::Busy(message@)
        } else {
            Failure::Storage(message@)
        }),
{
}

/// Each wait is twice the one before it, until it is as long as can be told.
pub proof fn waits_double(attempt: u32)
    requires
        attempt < u32::MAX,
    ensures
        2 * backoff_ms(attempt) <= u64::MAX ==> backoff_ms((attempt + 1) as u32) == 2 * backoff_ms(
            attempt,
        ),
        2 * backoff_ms(attempt) > u64::MAX ==> backoff_ms((attempt + 1) as u32) == u64::MAX,
{
    assert(power_of_two((attempt + 1) as nat) == 2 * power_of_two(attempt as nat));
    powers_grow(0, attempt as nat);
}

} // verus!
