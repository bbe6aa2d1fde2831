//! Projections: read models built from the log, exactly once.
//!
//! A batch either applies and moves the cursor or does neither, because both
//! are one transaction. What is decided here is where the cursor moves to, and
//! when a fold is refused because part of its input is gone.

use vstd::prelude::*;

use crate::error::{Error, Failure};
use crate::log::{Axes, Filter};
use crate::page;
use crate::position::Position;
use crate::read::Recorded;
use crate::retention;
use crate::text;

verus! {

/// How many events a runner applies per transaction unless told otherwise.
pub const DEFAULT_BATCH: usize = 256;

/// How many events one transaction covers: at least one.
pub fn with_batch(batch: usize) -> (size: usize)
    ensures
        size == (if batch == 0 {
            1
        } else {
            batch
        }),
{
    if batch == 0 {
        1
    } else {
        batch
    }
}

/// What a projection reads: the kinds it folds, in every stream.
pub fn filter_for(kinds: Option<Vec<String>>) -> (filter: Filter)
    ensures
        filter@ == (Axes {
            kinds: match kinds {
                Some(kinds) => Some(text::views(kinds@)),
                None => None,
            },
            ..Axes::everything()
        }),
        filter@.streams is None && filter@.stream_prefix is None && filter@.meta is None,
{
    let mut filter = Filter::all();
    filter.kinds = kinds;
    filter
}

/// Refuses a fold that would be missing some of its input, unless the
/// projection says it does not depend on it.
pub fn check_complete(tolerates_truncation: bool, from: Position, watermark: Position) -> (checked: Result<
    (),
    Error,
>)
    ensures
        checked is Ok <==> tolerates_truncation || from.0 >= watermark.0,
        checked is Err ==> checked->Err_0@ == (Failure::Truncated {
            requested: from.0,
            removed_up_to: watermark.0,
        }),
{
    if tolerates_truncation {
        return Ok(());
    }
    retention::require_complete_from(from, watermark)
}

/// Where a rebuild puts the cursor, once the model was emptied in the same
/// transaction. Refused before anything is emptied where the front of the log
/// is gone: replaying what is left would make another model.
pub fn rebuild(tolerates_truncation: bool, watermark: Position) -> (cursor: Result<Position, Error>)
    ensures
        cursor is Ok <==> tolerates_truncation || watermark.0 == 0,
        cursor is Ok ==> cursor->Ok_0.0 == 0,
        cursor is Err ==> cursor->Err_0@ == (Failure::Truncated {
            requested: 0,
            removed_up_to: watermark.0,
        }),
{
    match check_complete(tolerates_truncation, Position::beginning(), watermark) {
        Ok(()) => Ok(Position::beginning()),
        Err(error) => Err(error),
    }
}

/// How far a projection has seen after a batch. A short batch means the
/// filtered range is exhausted, so everything up to the head has been offered;
/// a full one says nothing about what lies beyond it.
pub open spec fn seen_through(
    cursor: Position,
    head: Position,
    events: Seq<Recorded>,
    batch: usize,
) -> Position {
    let last = page::last_of(events, cursor);
    if events.len() == batch {
        last
    } else {
        last.later(head)
    }
}

/// The cursor to save after a batch was applied, in the same transaction, or
/// `None` where it stays. The head was read before the batch.
pub fn run_once(cursor: Position, head: Position, events: &[Recorded], batch: usize) -> (save: Option<
    Position,
>)
    ensures
        save is Some <==> seen_through(cursor, head, events@, batch).0 > cursor.0,
        save is Some ==> save->0 == seen_through(cursor, head, events@, batch),
        ({
            let last = if events@.len() > 0 {
                events@[events@.len() - 1].position.0
            } else {
                cursor.0
            };
            let seen = if events@.len() != batch && head.0 > last {
                head.0
            } else {
                last
            };
            &&& seen > cursor.0 ==> save == Some(Position(seen))
            &&& seen <= cursor.0 ==> save is None
        }),
{
    let count: usize = events.len();
    let last = if count > 0 {
        events[count - 1].position
    } else {
        cursor
    };
    let seen = if count == batch {
        last
    } else {
        last.max_of(head)
    };
    if seen.get() > cursor.get() {
        Some(seen)
    } else {
        None
    }
}

/// Whether a run of batches goes on: until one applies nothing.
pub fn catch_up(total: usize, applied: usize) -> (next: Option<usize>)
    requires
        total + applied <= usize::MAX,
    ensures
        next is None <==> applied == 0,
        next is Some ==> next->0 == total + applied,
{
    if applied == 0 {
        None
    } else {
        Some(total + applied)
    }
}

/// Whether a batch is the page after a cursor of the events a projection
/// folds.
pub open spec fn is_page(log: Seq<u64>, cursor: Position, events: Seq<Recorded>, batch: usize) -> bool {
    let page = page::page_after(log, cursor.0, batch as nat);
    &&& events.len() == page.len()
    &&& forall|i: int| 0 <= i < page.len() ==> (#[trigger] events[i]).position.0 == page[i]
}

/// How far a projection has seen: to the last event of a full batch and no
/// further; after a short one to the head as well, since nothing it folds is
/// left before that.
pub proof fn seen_is_what_was_offered(
    cursor: Position,
    head: Position,
    events: Seq<Recorded>,
    batch: usize,
)
    ensures
        ({
            let last = if events.len() > 0 {
                events[events.len() - 1].position.0
            } else {
                cursor.0
            };
            let seen = seen_through(cursor, head, events, batch).0;
            &&& events.len() == batch ==> seen == last
            &&& events.len() != batch ==> seen >= last && seen >= head.0 && (seen == last || seen
                == head.0)
        }),
        DEFAULT_BATCH == 256,
{
}

/// Each event is folded exactly once: after a batch, what is at or before the
/// new cursor was folded before it or is in the batch, and what is in the
/// batch is at or before the new cursor and past the old one, so that it is
/// not offered again.
pub proof fn folded_exactly_once(
    log: Seq<u64>,
    cursor: Position,
    head: Position,
    events: Seq<Recorded>,
    batch: usize,
    at: int,
)
    requires
        page::ascending(log),
        batch > 0,
        is_page(log, cursor, events, batch),
        0 <= at < log.len(),
    ensures
        ({
            let seen = seen_through(cursor, head, events, batch);
            &&& seen.0 >= cursor.0
            &&& log[at] <= seen.0 && log[at] > cursor.0 ==> exists|i: int|
                0 <= i < events.len() && (#[trigger] events[i]).position.0 == log[at]
            &&& (exists|i: int|
                0 <= i < events.len() && (#[trigger] events[i]).position.0 == log[at])
                ==> log[at] <= seen.0 && log[at] > cursor.0
        }),
{
    let rest = page::after(log, cursor.0);
    let n = page::after_is_a_tail(log, cursor.0);
    let page = page::page_after(log, cursor.0, batch as nat);
    let seen = seen_through(cursor, head, events, batch);
    assert forall|i: int| 0 <= i < page.len() implies #[trigger] page[i] == log[n + i] by {}
    if page.len() > 0 {
        let k = page.len() - 1;
        assert(events[k].position.0 == page[k]);
        assert(page[k] == log[n + k]);
        assert(log[n + k] > cursor.0);
    }
    if log[at] > cursor.0 && log[at] <= seen.0 {
        assert(at >= n);
        if at - n < page.len() {
            assert(events[at - n].position.0 == page[at - n]);
        } else {
            assert(page.len() == batch);
            assert(log[n + page.len() - 1] < log[at]);
        }
    }
    if exists|i: int| 0 <= i < events.len() && (#[trigger] events[i]).position.0 == log[at] {
        let i = choose|i: int| 0 <= i < events.len() && (#[trigger] events[i]).position.0
            == log[at];
        assert(page[i] == log[n + i]);
        if i < page.len() - 1 {
            assert(log[n + i] < log[n + page.len() - 1]);
        }
    }
}

/// Where the cursor stands after a page of these positions.
pub open spec fn cursor_past(page: Seq<u64>, head: u64, batch: nat) -> u64 {
    if page.len() == batch || head <= page.last() {
        page.last()
    } else {
        head
    }
}

/// What a run of batches folds, each read from the cursor the one before it
/// saved, until one holds nothing.
pub open spec fn caught_up(log: Seq<u64>, cursor: u64, head: u64, batch: nat) -> Seq<u64>
    decreases page::after(log, cursor).len(),
    when batch > 0 && page::ascending(log)
    via runs_end
{
    let page = page::page_after(log, cursor, batch);
    if page.len() == 0 {
        page
    } else {
        page + caught_up(log, cursor_past(page, head, batch), head, batch)
    }
}

#[via_fn]
proof fn runs_end(log: Seq<u64>, cursor: u64, head: u64, batch: nat) {
    let page = page::page_after(log, cursor, batch);
    if page.len() > 0 {
        cursor_moves_past(log, cursor, head, batch);
    }
}

/// What is left after a page is what it did not hold.
proof fn cursor_moves_past(log: Seq<u64>, cursor: u64, head: u64, batch: nat)
    requires
        page::ascending(log),
        batch > 0,
        page::page_after(log, cursor, batch).len() > 0,
    ensures
        ({
            let page = page::page_after(log, cursor, batch);
            let left = page::after(log, cursor_past(page, head, batch));
            &&& left == page::after(log, cursor).skip(page.len() as int)
            &&& left.len() < page::after(log, cursor).len()
        }),
{
    let rest = page::after(log, cursor);
    let page = page::page_after(log, cursor, batch);
    if page.len() == batch {
        page::carries_on(log, cursor, batch);
    } else {
        let n = page::after_is_a_tail(log, cursor);
        let seen = cursor_past(page, head, batch);
        let m = page::after_is_a_tail(log, seen);
        assert(page.last() == log[log.len() - 1]);
        if m < log.len() {
            assert(log[log.len() - 1] > seen);
        }
        assert(log.skip(m) =~= rest.skip(page.len() as int));
    }
}

/// Catching up folds everything after the cursor, each event once and in
/// order, however the batches fall and wherever the head stands.
pub proof fn catching_up_folds_everything(log: Seq<u64>, cursor: u64, head: u64, batch: nat)
    requires
        page::ascending(log),
        batch > 0,
    ensures
        caught_up(log, cursor, head, batch) == page::after(log, cursor),
    decreases page::after(log, cursor).len(),
{
    let rest = page::after(log, cursor);
    let page = page::page_after(log, cursor, batch);
    if page.len() > 0 {
        cursor_moves_past(log, cursor, head, batch);
        catching_up_folds_everything(log, cursor_past(page, head, batch), head, batch);
        assert(page + rest.skip(page.len() as int) =~= rest);
    } else {
        assert(page =~= rest);
    }
}

/// The cursor of a run is the one [`run_once`] saves: it moves as
/// [`cursor_past`] says over the positions of the batch.
pub proof fn runs_move_as_batches_do(
    log: Seq<u64>,
    cursor: Position,
    head: Position,
    events: Seq<Recorded>,
    batch: usize,
)
    requires
        is_page(log, cursor, events, batch),
        events.len() > 0,
    ensures
        seen_through(cursor, head, events, batch).0 == cursor_past(
            page::page_after(log, cursor.0, batch as nat),
            head.0,
            batch as nat,
        ),
{
    let page = page::page_after(log, cursor.0, batch as nat);
    assert(events[events.len() - 1].position.0 == page[page.len() - 1]);
}

/// The names of the projections that are being run. Two runners of one name
/// would share one cursor, each moving it past events the other had not
/// folded.
#[derive(Debug)]
pub struct LiveRunners {
    names: Vec<String>,
}

impl LiveRunners {
    #[verifier::type_invariant]
    spec fn distinct(self) -> bool {
        text::views(self.names@).no_duplicates()
    }

    /// The names.
    pub closed spec fn live(&self) -> Set<Seq<char>> {
        text::views(self.names@).to_set()
    }

    pub fn new() -> (runners: Self)
        ensures
            runners.live() == Set::<Seq<char>>::empty(),
    {
        let runners = LiveRunners { names: Vec::new() };
        proof {
            assert(runners.live() =~= Set::<Seq<char>>::empty());
        }
        runners
    }

    /// Takes a name for a runner, refusing one that is taken.
    pub fn claim(&mut self, name: &str) -> (claimed: Result<(), Error>)
        ensures
            claimed is Ok <==> !old(self).live().contains(name@),
            claimed is Ok ==> final(self).live() == old(self).live().insert(name@),
            claimed is Err ==> final(self).live() == old(self).live(),
            claimed is Err ==> claimed->Err_0@ == Failure::Unsupported(
                "a runner for the projection `"@ + name@
                    + "` is already live; drop it before making another"@,
            ),
    {
        proof {
            use_type_invariant(&*self);
        }
        let ghost was = text::views(self.names@);
        let mut i: usize = 0;
        while i < self.names.len()
            invariant
                self.names@ == old(self).names@,
                was == text::views(self.names@),
                i <= self.names@.len(),
                forall|j: int| 0 <= j < i ==> was[j] != name@,
            decreases self.names@.len() - i,
        {
            if text::same(self.names[i].as_str(), name) {
                proof {
                    assert(was[i as int] == name@);
                    assert(was.contains(name@));
                }
                return Err(
                    Error::Unsupported(
                        text::cat3(
                            "a runner for the projection `",
                            name,
                            "` is already live; drop it before making another",
                        ),
                    ),
                );
            }
            i += 1;
        }
        let mut names: Vec<String> = Vec::new();
        std::mem::swap(&mut self.names, &mut names);
        names.push(name.to_owned());
        proof {
            let now = text::views(names@);
            assert(now =~= was.push(name@));
            assert forall|s: Seq<char>| #[trigger] now.to_set().contains(s)
                <==> was.to_set().insert(name@).contains(s) by {
                if now.contains(s) {
                    let k = choose|k: int| 0 <= k < now.len() && now[k] == s;
                    if k < was.len() {
                        assert(was[k] == s);
                    }
                }
                if was.contains(s) {
                    let k = choose|k: int| 0 <= k < was.len() && was[k] == s;
                    assert(now[k] == s);
                }
                if s == name@ {
                    assert(now[was.len() as int] == s);
                }
            }
            assert(now.to_set() =~= was.to_set().insert(name@));
        }
        self.names = names;
        Ok(())
    }

    /// Gives a name back when its runner is dropped.
    pub fn release(&mut self, name: &str)
        ensures
            final(self).live() == old(self).live().remove(name@),
    {
        proof {
            use_type_invariant(&*self);
        }
        let ghost was = text::views(self.names@);
        let mut i: usize = 0;
        while i < self.names.len() && !text::same(self.names[i].as_str(), name)
            invariant
                self.names@ == old(self).names@,
                was == text::views(self.names@),
                i <= self.names@.len(),
                forall|j: int| 0 <= j < i ==> was[j] != name@,
            decreases self.names@.len() - i,
        {
            i += 1;
        }
        if i < self.names.len() {
            let mut names: Vec<String> = Vec::new();
            std::mem::swap(&mut self.names, &mut names);
            let _ = names.remove(i);
            proof {
                let now = text::views(names@);
                assert(now =~= was.remove(i as int));
                assert forall|s: Seq<char>| #[trigger] now.to_set().contains(s)
                    <==> was.to_set().remove(name@).contains(s) by {
                    if now.contains(s) {
                        let k = choose|k: int| 0 <= k < now.len() && now[k] == s;
                        let m = if k < i {
                            k
                        } else {
                            k + 1
                        };
                        assert(was[m] == s);
                        assert(was[m] != was[i as int]);
                    }
                    if was.contains(s) && s != name@ {
                        let k = choose|k: int| 0 <= k < was.len() && was[k] == s;
                        let m = if k < i {
                            k
                        } else {
                            k - 1
                        };
                        assert(now[m] == s);
                    }
                }
                assert(now.to_set() =~= was.to_set().remove(name@));
            }
            self.names = names;
        } else {
            proof {
                assert(!was.contains(name@));
                assert(was.to_set().remove(name@) =~= was.to_set());
            }
        }
    }
}

/// What a runner reports whose projection did not come back from a call.
pub fn lost() -> (error: Error)
    ensures
        error@ == Failure::Storage(
            "the runner's projection was dropped by a failed call and cannot be used again"@,
        ),
{
    Error::storage(
        "the runner's projection was dropped by a failed call and cannot be used again".to_owned(),
    )
}

} // verus!
