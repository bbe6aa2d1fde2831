//! A consistent physical copy of the file: what each way of not getting one is
//! reported as.

use vstd::prelude::*;

use crate::error::{Error, Failure};
use crate::text;

verus! {

/// What came of taking the destination path.
#[derive(Debug)]
pub enum Claim {
    Taken,
    AlreadyExists,
    Failed(String),
}

/// The destination must not exist: a path that already holds anything is
/// refused rather than overwritten.
pub fn claim(destination: &str, outcome: Claim) -> (claimed: Result<(), Error>)
    ensures
        claimed is Ok <==> outcome is Taken,
        outcome is AlreadyExists ==> claimed is Err && claimed->Err_0@ == Failure::Validation(
            "`"@ + destination@
                + "` already exists, so the backup was not taken. The destination is a path this call creates: overwriting one would destroy whatever is there, and a previous backup is the likeliest thing to be there. Name a path that is free, or remove this one first"@,
        ),
        outcome matches Claim::Failed(said) ==> claimed is Err && claimed->Err_0@
            == Failure::Storage("could not create `"@ + destination@ + "` for the backup: "@ + said@),
{
    match outcome {
        Claim::Taken => Ok(()),
        Claim::AlreadyExists => Err(
            Error::validation(
                text::cat3(
                    "`",
                    destination,
                    "` already exists, so the backup was not taken. The destination is a path this call creates: overwriting one would destroy whatever is there, and a previous backup is the likeliest thing to be there. Name a path that is free, or remove this one first",
                ),
            ),
        ),
        Claim::Failed(said) => Err(
            Error::storage(
                text::cat4("could not create `", destination, "` for the backup: ", said.as_str()),
            ),
        ),
    }
}

/// What came of asking for every remaining page in one step.
#[derive(Debug)]
pub enum Copied {
    Done,
    Busy,
    Locked,
    /// Anything else, as SQLite answered it.
    Unfinished(String),
}

/// A copy is one step under one read transaction. One that did not finish is
/// reported rather than carried on.
pub fn copy_pages(destination: &str, outcome: Copied) -> (copied: Result<(), Error>)
    ensures
        copied is Ok <==> outcome is Done,
        outcome is Busy || outcome is Locked ==> copied is Err && copied->Err_0@ == Failure::Busy(
            "the backup to `"@ + destination@ + "` could not take a lock"@,
        ),
        outcome matches Copied::Unfinished(answer) ==> copied is Err && copied->Err_0@
            == Failure::Storage(
            "the backup to `"@ + destination@
                + "` asked for every remaining page and SQLite answered "@ + answer@,
        ),
{
    match outcome {
        Copied::Done => Ok(()),
        Copied::Busy | Copied::Locked => Err(
            Error::Busy(
                text::cat3("the backup to `", destination, "` could not take a lock"),
            ),
        ),
        Copied::Unfinished(answer) => Err(
            Error::storage(
                text::cat4(
                    "the backup to `",
                    destination,
                    "` asked for every remaining page and SQLite answered ",
                    answer.as_str(),
                ),
            ),
        ),
    }
}

} // verus!
