//! The error a store call can fail with.
//!
//! The variants are split by what a caller can do about them: contention is
//! worth another call, a wrong event is not, a failing disk is worth paging
//! someone about, and bytes that do not decode are worth stopping for.

use vstd::prelude::*;

use crate::store::Expected;
use crate::text;

verus! {

#[derive(Debug)]
#[non_exhaustive]
pub enum Error {
    /// The event did not satisfy the envelope contract. The message names the
    /// offending key and says what belongs there instead.
    Validation(String),
    /// The write could not take the lock in time. Another call is worth making.
    Busy(String),
    /// A deadline the caller set was reached. Repeating the call unchanged
    /// will take just as long.
    Timeout(String),
    /// Somewhere the bytes had to go or come from failed.
    Storage(String),
    /// The read succeeded and the bytes do not mean what they should: a
    /// stored column that will not parse, or an event that does not read as
    /// one after the upcaster chain ran.
    Corruption(String),
    /// The request is well-formed and this backend cannot serve it.
    Unsupported(String),
    /// Retention removed events at or below `removed_up_to`, and a fold
    /// starting at `requested` would be missing them.
    Truncated { requested: u64, removed_up_to: u64 },
    /// The head the caller expected is not the head the write found, so
    /// nothing was appended.
    HeadMismatch { expected: Expected, actual: Expected },
    /// Retention would have removed events a registered consumer has not seen.
    ConsumerBehind { consumer: String, cursor: u64, up_to: u64 },
    /// Retention would have removed events no confirmed export covers.
    NotExported { up_to: u64, exported_through: u64 },
}

/// What an [`Error`] says.
pub ghost enum Failure {
    Validation(Seq<char>),
    Busy(Seq<char>),
    Timeout(Seq<char>),
    Storage(Seq<char>),
    Corruption(Seq<char>),
    Unsupported(Seq<char>),
    Truncated { requested: u64, removed_up_to: u64 },
    HeadMismatch { expected: Expected, actual: Expected },
    ConsumerBehind { consumer: Seq<char>, cursor: u64, up_to: u64 },
    NotExported { up_to: u64, exported_through: u64 },
}

/// The text a failure is reported with.
pub open spec fn failure_text(failure: Failure) -> Seq<char> {
    match failure {
        Failure::Validation(message) => "invalid event: "@ + message,
        Failure::Busy(message) => "store busy: "@ + message,
        Failure::Timeout(message) => "exceeded the deadline: "@ + message,
        Failure::Storage(message) => "storage failure: "@ + message,
        Failure::Corruption(message) => "stored data does not decode: "@ + message,
        Failure::Unsupported(message) => "unsupported by this backend: "@ + message,
        Failure::Truncated { requested, removed_up_to } => "history at or below position "@
            + text::decimal_text(removed_up_to as nat) + " has been removed; reading from "@
            + text::decimal_text(requested as nat) + " would be incomplete"@,
        Failure::HeadMismatch { expected, actual } => "stream head is "@ + actual.spoken()
            + ", not the expected "@ + expected.spoken(),
        Failure::ConsumerBehind { consumer, cursor, up_to } =>
            "retention would remove up to position "@ + text::decimal_text(up_to as nat)
            + ", past consumer `"@ + consumer + "` at "@ + text::decimal_text(cursor as nat),
        Failure::NotExported { up_to, exported_through } =>
            "retention would remove up to position "@ + text::decimal_text(up_to as nat)
            + ", but confirmed exports reach only "@ + text::decimal_text(exported_through as nat),
    }
}

impl Error {
    pub open spec fn view(&self) -> Failure {
        match *self {
            Error::Validation(message) => Failure::Validation(message@),
            Error::Busy(message) => Failure::Busy(message@),
            Error::Timeout(message) => Failure::Timeout(message@),
            Error::Storage(message) => Failure::Storage(message@),
            Error::Corruption(message) => Failure::Corruption(message@),
            Error::Unsupported(message) => Failure::Unsupported(message@),
            Error::Truncated { requested, removed_up_to } => Failure::Truncated {
                requested,
                removed_up_to,
            },
            Error::HeadMismatch { expected, actual } => Failure::HeadMismatch { expected, actual },
            Error::ConsumerBehind { consumer, cursor, up_to } => Failure::ConsumerBehind {
                consumer: consumer@,
                cursor,
                up_to,
            },
            Error::NotExported { up_to, exported_through } => Failure::NotExported {
                up_to,
                exported_through,
            },
        }
    }

    /// Whether another attempt at the same call is worth making. Contention
    /// only: a deadline that was reached is not contention.
    pub fn is_busy(&self) -> (yes: bool)
        ensures
            yes == (self@ is Busy),
    {
        matches!(self, Error::Busy(_))
    }

    /// Whether a deadline was reached.
    pub fn is_timeout(&self) -> (yes: bool)
        ensures
            yes == (self@ is Timeout),
    {
        matches!(self, Error::Timeout(_))
    }

    /// Whether the bytes read back are the problem, rather than the reading.
    pub fn is_corruption(&self) -> (yes: bool)
        ensures
            yes == (self@ is Corruption),
    {
        matches!(self, Error::Corruption(_))
    }

    pub fn validation(message: String) -> (error: Self)
        ensures
            error@ == Failure::Validation(message@),
    {
        Error::Validation(message)
    }

    pub fn storage(message: String) -> (error: Self)
        ensures
            error@ == Failure::Storage(message@),
    {
        Error::Storage(message)
    }

    pub fn corruption(message: String) -> (error: Self)
        ensures
            error@ == Failure::Corruption(message@),
    {
        Error::Corruption(message)
    }

    /// The text the failure is reported with.
    pub fn to_string(&self) -> (message: String)
        ensures
            message@ == failure_text(self@),
    {
        match self {
            Error::Validation(message) => text::cat2("invalid event: ", message.as_str()),
            Error::Busy(message) => text::cat2("store busy: ", message.as_str()),
            Error::Timeout(message) => text::cat2("exceeded the deadline: ", message.as_str()),
            Error::Storage(message) => text::cat2("storage failure: ", message.as_str()),
            Error::Corruption(message) => text::cat2(
                "stored data does not decode: ",
                message.as_str(),
            ),
            Error::Unsupported(message) => text::cat2(
                "unsupported by this backend: ",
                message.as_str(),
            ),
            Error::Truncated { requested, removed_up_to } => text::cat5(
                "history at or below position ",
                text::decimal(*removed_up_to).as_str(),
                " has been removed; reading from ",
                text::decimal(*requested).as_str(),
                " would be incomplete",
            ),
            Error::HeadMismatch { expected, actual } => text::cat4(
                "stream head is ",
                actual.describe().as_str(),
                ", not the expected ",
                expected.describe().as_str(),
            ),
            Error::ConsumerBehind { consumer, cursor, up_to } => {
                let front = text::cat4(
                    "retention would remove up to position ",
                    text::decimal(*up_to).as_str(),
                    ", past consumer `",
                    consumer.as_str(),
                );
                text::cat3(front.as_str(), "` at ", text::decimal(*cursor).as_str())
            },
            Error::NotExported { up_to, exported_through } => text::cat4(
                "retention would remove up to position ",
                text::decimal(*up_to).as_str(),
                ", but confirmed exports reach only ",
                text::decimal(*exported_through).as_str(),
            ),
        }
    }
}

/// A failure is of the class its error is of, with what the error says.
pub proof fn errors_are_of_their_class(error: Error)
    ensures
        error matches Error::Validation(message) ==> error@ == Failure::Validation(message@),
        error matches Error::Busy(message) ==> error@ == Failure::Busy(message@),
        error matches Error::Timeout(message) ==> error@ == Failure::Timeout(message@),
        error matches Error::Storage(message) ==> error@ == Failure::Storage(message@),
        error matches Error::Corruption(message) ==> error@ == Failure::Corruption(message@),
        error matches Error::Unsupported(message) ==> error@ == Failure::Unsupported(message@),
        error matches Error::Truncated { requested, removed_up_to } ==> error@ == (
        Failure::Truncated { requested, removed_up_to }),
        error matches Error::HeadMismatch { expected, actual } ==> error@ == (
        Failure::HeadMismatch { expected, actual }),
        error matches Error::ConsumerBehind { consumer, cursor, up_to } ==> error@ == (
        Failure::ConsumerBehind { consumer: consumer@, cursor, up_to }),
        error matches Error::NotExported { up_to, exported_through } ==> error@ == (
        Failure::NotExported { up_to, exported_through }),
{
}

/// A failure is reported by its class and with all it knows: the message, or
/// the positions, the heads and the consumer.
pub proof fn failures_are_reported_in_full(failure: Failure)
    ensures
        failure matches Failure::Validation(message) ==> failure_text(failure) == "invalid event: "@
            + message,
        failure matches Failure::Busy(message) ==> failure_text(failure) == "store busy: "@
            + message,
        failure matches Failure::Timeout(message) ==> failure_text(failure)
            == "exceeded the deadline: "@ + message,
        failure matches Failure::Storage(message) ==> failure_text(failure) == "storage failure: "@
            + message,
        failure matches Failure::Corruption(message) ==> failure_text(failure)
            == "stored data does not decode: "@ + message,
        failure matches Failure::Unsupported(message) ==> failure_text(failure)
            == "unsupported by this backend: "@ + message,
        failure matches Failure::Truncated { requested, removed_up_to } ==> failure_text(failure)
            == "history at or below position "@ + text::decimal_text(removed_up_to as nat)
            + " has been removed; reading from "@ + text::decimal_text(requested as nat)
            + " would be incomplete"@,
        failure matches Failure::HeadMismatch { expected, actual } ==> failure_text(failure)
            == "stream head is "@ + actual.spoken() + ", not the expected "@ + expected.spoken(),
        failure matches Failure::ConsumerBehind { consumer, cursor, up_to } ==> failure_text(failure)
            == "retention would remove up to position "@ + text::decimal_text(up_to as nat)
            + ", past consumer `"@ + consumer + "` at "@ + text::decimal_text(cursor as nat),
        failure matches Failure::NotExported { up_to, exported_through } ==> failure_text(failure)
            == "retention would remove up to position "@ + text::decimal_text(up_to as nat)
            + ", but confirmed exports reach only "@ + text::decimal_text(exported_through as nat),
{
}

} // verus!
