//! The one loop behind a replay and a subscription.
//!
//! A page is read, its events are handed out and the cursor moves to the last
//! of them. A full page is followed by another at once; a short one means the
//! range is exhausted as of that read, which ends a replay and is where a
//! subscription waits.

use vstd::prelude::*;

use crate::position::Position;
use crate::read::Recorded;

verus! {

/// How many events a replay or a subscription reads per page.
pub const BATCH: usize = 256;

/// What a paged read does when a page comes back short.
#[derive(Debug, Clone, Copy, PartialEq, Eq, Structural)]
pub enum Exhausted {
    /// Wait for a commit or the poll interval, then read again: a subscription.
    Wait,
    /// Return: a replay.
    End,
}

/// What to do after a page.
#[derive(Debug, Clone, Copy, PartialEq, Eq, Structural)]
pub enum Next {
    /// Still behind: read another page at once.
    Read,
    /// Caught up: wait, then read.
    Wait,
    /// The end.
    End,
}

/// Where a paged read stands.
#[derive(Debug, Clone, Copy, PartialEq, Eq, Structural)]
pub struct Pager {
    pub cursor: Position,
    pub on_exhausted: Exhausted,
}

/// The position of the last event of a page, or the cursor it was read with.
pub open spec fn last_of(page: Seq<Recorded>, cursor: Position) -> Position {
    if page.len() == 0 {
        cursor
    } else {
        page.last().position
    }
}

/// Where a paged read stands after a page that was read with the log's head at
/// `head`.
pub open spec fn cursor_after(
    cursor: Position,
    page: Seq<Recorded>,
    head: Option<Position>,
) -> Position {
    let last = last_of(page, cursor);
    if page.len() == BATCH {
        last
    } else {
        match head {
            Some(head) => last.later(head),
            None => last,
        }
    }
}

/// What a paged read does after a page.
pub open spec fn next_after(page: Seq<Recorded>, head: Option<Position>) -> Next {
    if page.len() == BATCH {
        Next::Read
    } else if head is None {
        Next::End
    } else {
        Next::Wait
    }
}

impl Pager {
    pub fn new(from: Position, on_exhausted: Exhausted) -> (pager: Self)
        ensures
            pager == (Pager { cursor: from, on_exhausted }),
    {
        Pager { cursor: from, on_exhausted }
    }

    /// Whether the log's head is to be read before the next page. A replay
    /// never moves past what it read, so it never asks.
    pub fn wants_head(&self) -> (wants: bool)
        ensures
            wants == (self.on_exhausted is Wait),
    {
        matches!(self.on_exhausted, Exhausted::Wait)
    }

    /// Takes the page just read, and the head that was read before it where
    /// one was asked for, and says what comes next.
    pub fn after_page(&mut self, page: &[Recorded], head: Option<Position>) -> (next: Next)
        ensures
            final(self).cursor == cursor_after(old(self).cursor, page@, head),
            final(self).on_exhausted == old(self).on_exhausted,
            next == next_after(page@, head),
            head is Some ==> !(next is End),
            next is Read <==> page@.len() == BATCH,
            next is Wait <==> page@.len() != BATCH && head is Some,
    {
        let count: usize = page.len();
        if count > 0 {
            self.cursor = page[count - 1].position;
        }
        if count == BATCH {
            return Next::Read;
        }
        match head {
            None => Next::End,
            Some(head) => {
                self.cursor = self.cursor.max_of(head);
                Next::Wait
            },
        }
    }
}

/// A subscription never ends by itself: with a head that was read, a full page
/// is followed by another read and a short one by a wait, whatever the page
/// holds and wherever the head stands. Only where no head was asked for is a
/// short page the end.
pub proof fn subscriptions_never_end(page: Seq<Recorded>, head: Option<Position>)
    ensures
        head is Some ==> !(next_after(page, head) is End),
        next_after(page, head) is Read <==> page.len() == BATCH,
        next_after(page, head) is Wait <==> page.len() != BATCH && head is Some,
        next_after(page, head) is End <==> page.len() != BATCH && head is None,
        BATCH == 256,
{
}

/// A cursor moves to what was handed out, and, once a subscription has caught
/// up, on to the head where that is further: never back behind either, and
/// never to anywhere else.
pub proof fn cursors_move_to_what_was_seen(
    cursor: Position,
    page: Seq<Recorded>,
    head: Option<Position>,
)
    ensures
        ({
            let last = if page.len() > 0 {
                page[page.len() - 1].position.0
            } else {
                cursor.0
            };
            let to = cursor_after(cursor, page, head).0;
            &&& page.len() == BATCH || head is None ==> to == last
            &&& page.len() != BATCH && head is Some ==> to >= last && to >= (head->0).0 && (to
                == last || to == (head->0).0)
        }),
{
}

/// Positions in strictly increasing order, as the log hands them out.
pub open spec fn ascending(log: Seq<u64>) -> bool {
    forall|i: int, j: int| 0 <= i < j < log.len() ==> #[trigger] log[i] < #[trigger] log[j]
}

/// The events after a cursor.
pub open spec fn after(log: Seq<u64>, cursor: u64) -> Seq<u64>
    decreases log.len(),
{
    if log.len() == 0 || log[0] > cursor {
        log
    } else {
        after(log.drop_first(), cursor)
    }
}

/// The first page after a cursor.
pub open spec fn page_after(log: Seq<u64>, cursor: u64, batch: nat) -> Seq<u64> {
    let rest = after(log, cursor);
    if rest.len() <= batch {
        rest
    } else {
        rest.take(batch as int)
    }
}

/// What a replay hands out, page after page, each read from the last position
/// of the one before it.
pub open spec fn replayed(log: Seq<u64>, cursor: u64, batch: nat) -> Seq<u64>
    decreases after(log, cursor).len(),
    when batch > 0 && ascending(log)
    via replay_ends
{
    let page = page_after(log, cursor, batch);
    if page.len() == batch {
        page + replayed(log, page.last(), batch)
    } else {
        page
    }
}

#[via_fn]
proof fn replay_ends(log: Seq<u64>, cursor: u64, batch: nat) {
    let page = page_after(log, cursor, batch);
    if page.len() == batch {
        carries_on(log, cursor, batch);
    }
}

/// What is after a cursor is a tail of the log.
pub proof fn after_is_a_tail(log: Seq<u64>, cursor: u64) -> (n: int)
    requires
        ascending(log),
    ensures
        0 <= n <= log.len(),
        after(log, cursor) == log.skip(n),
        forall|i: int| 0 <= i < n ==> #[trigger] log[i] <= cursor,
        forall|i: int| n <= i < log.len() ==> #[trigger] log[i] > cursor,
    decreases log.len(),
{
    if log.len() == 0 || log[0] > cursor {
        assert(log.skip(0) =~= log);
        assert forall|i: int| 0 <= i < log.len() implies #[trigger] log[i] > cursor by {
            if i > 0 {
                assert(log[0] < log[i]);
            }
        }
        0
    } else {
        let rest = log.drop_first();
        assert(ascending(rest)) by {
            assert forall|i: int, j: int| 0 <= i < j < rest.len() implies #[trigger] rest[i]
                < #[trigger] rest[j] by {
                assert(log[i + 1] < log[j + 1]);
            }
        }
        let n = after_is_a_tail(rest, cursor);
        assert(rest.skip(n) =~= log.skip(n + 1));
        assert forall|i: int| 0 <= i < n + 1 implies #[trigger] log[i] <= cursor by {
            if i > 0 {
                assert(rest[i - 1] == log[i]);
            }
        }
        assert forall|i: int| n + 1 <= i < log.len() implies #[trigger] log[i] > cursor by {
            assert(rest[i - 1] == log[i]);
        }
        n + 1
    }
}

/// A page holds what stands next after the cursor: as much as the batch allows
/// and no more, each past the cursor, and nothing between them left out.
pub proof fn pages_hold_what_is_next(log: Seq<u64>, cursor: u64, batch: nat, p: u64)
    requires
        ascending(log),
    ensures
        page_after(log, cursor, batch).len() <= batch,
        after(log, cursor).contains(p) <==> log.contains(p) && p > cursor,
        page_after(log, cursor, batch).contains(p) ==> log.contains(p) && p > cursor,
        log.contains(p) && p > cursor && !page_after(log, cursor, batch).contains(p) ==> {
            &&& page_after(log, cursor, batch).len() == batch
            &&& forall|i: int|
                0 <= i < batch ==> #[trigger] page_after(log, cursor, batch)[i] < p
        },
{
    let n = after_is_a_tail(log, cursor);
    let rest = after(log, cursor);
    let page = page_after(log, cursor, batch);
    if rest.contains(p) {
        let i = choose|i: int| 0 <= i < rest.len() && rest[i] == p;
        assert(log[n + i] == p);
    }
    if log.contains(p) && p > cursor {
        let k = choose|k: int| 0 <= k < log.len() && log[k] == p;
        if k < n {
            assert(log[k] <= cursor);
        }
        assert(rest[k - n] == p);
        if !page.contains(p) {
            if k - n < page.len() {
                assert(page[k - n] == p);
            }
            assert forall|i: int| 0 <= i < batch implies #[trigger] page[i] < p by {
                assert(page[i] == log[n + i]);
                assert(log[n + i] < log[k]);
            }
        }
    }
    if page.contains(p) {
        let i = choose|i: int| 0 <= i < page.len() && page[i] == p;
        assert(rest[i] == p);
        assert(log[n + i] == p);
    }
}

/// The page after a full page begins where it ended.
pub proof fn carries_on(log: Seq<u64>, cursor: u64, batch: nat)
    requires
        ascending(log),
        batch > 0,
        page_after(log, cursor, batch).len() == batch,
    ensures
        after(log, page_after(log, cursor, batch).last()) == after(log, cursor).skip(batch as int),
        after(log, page_after(log, cursor, batch).last()).len() < after(log, cursor).len(),
{
    let page = page_after(log, cursor, batch);
    let n = after_is_a_tail(log, cursor);
    let last = page.last();
    assert(last == log[n + batch - 1]);
    let m = after_is_a_tail(log, last);
    if m < n + batch {
        assert(log[n + batch - 1] > last);
    }
    if m > n + batch {
        assert(log[n + batch] <= last);
        assert(log[n + batch - 1] < log[n + batch]);
    }
    assert(log.skip(m) =~= after(log, cursor).skip(batch as int));
}

/// Page boundaries neither repeat nor skip: a replay hands out every event
/// after where it started, each once, in order.
pub proof fn replay_is_everything(log: Seq<u64>, cursor: u64, batch: nat)
    requires
        ascending(log),
        batch > 0,
    ensures
        replayed(log, cursor, batch) == after(log, cursor),
    decreases after(log, cursor).len(),
{
    let page = page_after(log, cursor, batch);
    let rest = after(log, cursor);
    if page.len() == batch {
        carries_on(log, cursor, batch);
        replay_is_everything(log, page.last(), batch);
        assert(page =~= rest.take(batch as int));
        assert(page + rest.skip(batch as int) =~= rest);
    }
}

/// The positions of the events of a page.
pub open spec fn positions(page: Seq<Recorded>) -> Seq<u64> {
    Seq::new(page.len(), |i: int| page[i].position.0)
}

/// Where a cursor moves after a page of these positions, with the head that
/// was read before it where one was.
pub open spec fn moved(cursor: u64, page: Seq<u64>, head: Option<u64>) -> u64 {
    let last = if page.len() == 0 {
        cursor
    } else {
        page.last()
    };
    match head {
        Some(head) => if page.len() < BATCH && head > last {
            head
        } else {
            last
        },
        None => last,
    }
}

/// The [`Pager`]'s cursor moves as [`moved`] says over the positions of its
/// pages.
pub proof fn pagers_move_by_positions(cursor: Position, page: Seq<Recorded>, head: Option<Position>)
    requires
        page.len() <= BATCH,
    ensures
        cursor_after(cursor, page, head).0 == moved(
            cursor.0,
            positions(page),
            match head {
                Some(head) => Some(head.0),
                None => None,
            },
        ),
{
}

/// A replay is what the [`Pager`] hands out: the page it was given, and then,
/// where it says to read on, the replay from the cursor it moved to. Where it
/// does not, that was the end.
pub proof fn pagers_replay(log: Seq<u64>, cursor: Position, page: Seq<Recorded>)
    requires
        ascending(log),
        positions(page) == page_after(log, cursor.0, BATCH as nat),
    ensures
        next_after(page, None) is Read || next_after(page, None) is End,
        next_after(page, None) is Read ==> replayed(log, cursor.0, BATCH as nat) == positions(page)
            + replayed(log, cursor_after(cursor, page, None).0, BATCH as nat),
        next_after(page, None) is End ==> replayed(log, cursor.0, BATCH as nat) == positions(page),
{
    if page.len() == BATCH {
        assert(positions(page).last() == page.last().position.0);
    }
}

/// One look of a subscription at the log: the head it read, and then what the
/// log held that its filter selects.
pub ghost struct Look {
    pub head: u64,
    pub log: Seq<u64>,
}

/// Looks at a log that only grows: what a later look finds in addition was
/// committed after the head of the earlier one.
pub open spec fn growing(looks: Seq<Look>) -> bool {
    &&& forall|i: int| 0 <= i < looks.len() ==> ascending((#[trigger] looks[i]).log)
    &&& forall|i: int, j: int|
        0 <= i < j < looks.len() ==> (#[trigger] looks[i]).log.is_prefix_of(
            (#[trigger] looks[j]).log,
        )
    &&& forall|i: int, j: int, k: int|
        0 <= i < j < looks.len() && looks[i].log.len() <= k < looks[j].log.len() ==> (
        #[trigger] looks[i]).head < #[trigger] looks[j].log[k]
}

/// Where a subscription from `start` stands after these looks.
pub open spec fn followed_to(looks: Seq<Look>, start: u64) -> u64
    decreases looks.len(),
{
    if looks.len() == 0 {
        start
    } else {
        let cursor = followed_to(looks.drop_last(), start);
        moved(
            cursor,
            page_after(looks.last().log, cursor, BATCH as nat),
            Some(looks.last().head),
        )
    }
}

/// What a subscription from `start` handed out in these looks.
pub open spec fn followed(looks: Seq<Look>, start: u64) -> Seq<u64>
    decreases looks.len(),
{
    if looks.len() == 0 {
        Seq::empty()
    } else {
        followed(looks.drop_last(), start) + page_after(
            looks.last().log,
            followed_to(looks.drop_last(), start),
            BATCH as nat,
        )
    }
}

/// What comes after a cursor in a log that grew by events past the cursor.
proof fn after_grows(log: Seq<u64>, longer: Seq<u64>, cursor: u64)
    requires
        ascending(longer),
        log.is_prefix_of(longer),
        forall|k: int| log.len() <= k < longer.len() ==> #[trigger] longer[k] > cursor,
    ensures
        after(longer, cursor) == after(log, cursor) + longer.skip(log.len() as int),
{
    assert(longer.take(log.len() as int) =~= log);
    assert(ascending(log)) by {
        assert forall|i: int, j: int| 0 <= i < j < log.len() implies #[trigger] log[i]
            < #[trigger] log[j] by {
            assert(longer.take(log.len() as int)[i] == longer[i]);
            assert(longer.take(log.len() as int)[j] == longer[j]);
        }
    }
    let n = after_is_a_tail(log, cursor);
    let m = after_is_a_tail(longer, cursor);
    assert forall|i: int| 0 <= i < log.len() implies #[trigger] log[i] == longer[i] by {
        assert(longer.take(log.len() as int)[i] == longer[i]);
    }
    if m < n {
        assert(log[m] <= cursor);
        assert(longer[m] > cursor);
    }
    if m > n {
        assert(longer[n] <= cursor);
        if n < log.len() {
            assert(log[n] > cursor);
        }
    }
    assert(longer.skip(m) =~= log.skip(n) + longer.skip(log.len() as int));
}

/// What is known of a subscription after each look: what it handed out and
/// what is still past its cursor are together what is past its start; and the
/// cursor is where it started, or an event it passed, or a head it read.
proof fn following(looks: Seq<Look>, start: u64)
    requires
        growing(looks),
        looks.len() > 0,
    ensures
        ({
            let log = looks.last().log;
            let cursor = followed_to(looks, start);
            &&& followed(looks, start) + after(log, cursor) == after(log, start)
            &&& cursor >= start
            &&& cursor == start ==> followed(looks, start).len() == 0
            &&& cursor == start || log.contains(cursor) || exists|i: int|
                0 <= i < looks.len() && (#[trigger] looks[i]).head == cursor
            &&& page_after(log, followed_to(looks.drop_last(), start), BATCH as nat).len() < BATCH
                ==> after(log, cursor).len() == 0
        }),
    decreases looks.len(),
{
    let before = looks.drop_last();
    let log = looks.last().log;
    let head = looks.last().head;
    let from = followed_to(before, start);
    let given = followed(before, start);
    assert(looks[looks.len() - 1] == looks.last());
    assert(ascending(log));
    assert(given + after(log, from) == after(log, start) && from >= start && (from == start
        ==> given.len() == 0) && (from == start || log.contains(from) || exists|i: int|
        0 <= i < looks.len() && (#[trigger] looks[i]).head == from)) by {
        if before.len() == 0 {
            assert(given + after(log, from) =~= after(log, start));
        } else {
            assert(growing(before)) by {
                assert forall|i: int| 0 <= i < before.len() implies ascending(
                    (#[trigger] before[i]).log,
                ) by {
                    assert(before[i] == looks[i]);
                }
                assert forall|i: int, j: int| 0 <= i < j < before.len() implies (
                #[trigger] before[i]).log.is_prefix_of((#[trigger] before[j]).log) by {
                    assert(looks[i].log.is_prefix_of(looks[j].log));
                }
                assert forall|i: int, j: int, k: int|
                    0 <= i < j < before.len() && before[i].log.len() <= k
                        < before[j].log.len() implies (#[trigger] before[i]).head
                    < #[trigger] before[j].log[k] by {
                    assert(looks[i].head < looks[j].log[k]);
                }
            }
            following(before, start);
            let last = before.len() - 1;
            let shorter = before.last().log;
            assert(before.last() == looks[last]);
            assert(looks[last].log.is_prefix_of(looks[looks.len() - 1].log));
            assert(log.take(shorter.len() as int) =~= shorter);
            if shorter.contains(from) {
                let k = choose|k: int| 0 <= k < shorter.len() && shorter[k] == from;
                assert(log.take(shorter.len() as int)[k] == log[k]);
                assert(log.contains(from));
            }
            if from == start {
                assert(given + after(log, from) =~= after(log, start));
            } else {
                assert forall|k: int| shorter.len() <= k < log.len() implies #[trigger] log[k]
                    > from by {
                    if shorter.contains(from) {
                        let l = choose|l: int| 0 <= l < shorter.len() && shorter[l] == from;
                        assert(log.take(shorter.len() as int)[l] == log[l]);
                        assert(log[l] < log[k]);
                    } else {
                        let i = choose|i: int|
                            0 <= i < before.len() && (#[trigger] before[i]).head == from;
                        assert(before[i] == looks[i]);
                        if i < last {
                            assert(looks[i].log.is_prefix_of(looks[last].log));
                        }
                        assert(looks[i].head < looks[looks.len() - 1].log[k]);
                    }
                }
                after_grows(shorter, log, from);
                after_grows(shorter, log, start);
                let rest = log.skip(shorter.len() as int);
                assert(given + (after(shorter, from) + rest) =~= (given + after(shorter, from))
                    + rest);
                if !(shorter.contains(from)) {
                    let i = choose|i: int|
                        0 <= i < before.len() && (#[trigger] before[i]).head == from;
                    assert(looks[i] == before[i]);
                    assert(looks[i].head == from);
                }
            }
        }
    }
    let page = page_after(log, from, BATCH as nat);
    let rest = after(log, from);
    let n = after_is_a_tail(log, from);
    let cursor = followed_to(looks, start);
    if page.len() > 0 {
        let k = n + page.len() - 1;
        assert(page.last() == log[k]);
        assert(log[k] > from);
        assert(log.contains(page.last()));
    }
    if page.len() == BATCH {
        carries_on(log, from, BATCH as nat);
        assert(page + rest.skip(BATCH as int) =~= rest);
        assert(given + page + after(log, cursor) =~= given + rest);
    } else {
        assert(page == rest);
        let m = after_is_a_tail(log, cursor);
        if m < log.len() {
            assert(log[m] > cursor);
            assert(log[log.len() - 1] >= log[m]);
            if m < n {
                assert(log[m] <= from);
            } else {
                assert(page.len() > 0);
                assert(page.last() == log[log.len() - 1]);
            }
        }
        assert(after(log, cursor) =~= Seq::<u64>::empty());
        assert(given + page + after(log, cursor) =~= given + rest);
        if cursor == head && cursor != start {
            assert(looks[looks.len() - 1].head == cursor);
        }
    }
}

/// A subscription skips nothing and repeats nothing, across pages and across
/// waits: what it handed out is, in order, the beginning of what the log now
/// holds past where it started; and all of that once a page came back short.
pub proof fn following_hands_out_everything(looks: Seq<Look>, start: u64)
    requires
        growing(looks),
        looks.len() > 0,
    ensures
        followed(looks, start).is_prefix_of(after(looks.last().log, start)),
        ascending(followed(looks, start)),
        page_after(
            looks.last().log,
            followed_to(looks.drop_last(), start),
            BATCH as nat,
        ).len() < BATCH ==> followed(looks, start) == after(looks.last().log, start),
{
    following(looks, start);
    let log = looks.last().log;
    assert(looks[looks.len() - 1] == looks.last());
    let given = followed(looks, start);
    let left = after(log, followed_to(looks, start));
    let n = after_is_a_tail(log, start);
    assert((given + left).take(given.len() as int) =~= given);
    assert forall|i: int, j: int| 0 <= i < j < given.len() implies #[trigger] given[i]
        < #[trigger] given[j] by {
        assert(given[i] == (given + left)[i]);
        assert(given[j] == (given + left)[j]);
        assert(given + left == log.skip(n));
        assert((given + left).len() == log.len() - n);
        assert(log.skip(n)[i] == log[n + i]);
        assert(log.skip(n)[j] == log[n + j]);
        assert(log[n + i] < log[n + j]);
    }
    if left.len() == 0 {
        assert(given + left =~= given);
    }
}

/// Whether a position is past a look: past its head and all it found.
pub open spec fn newer(look: Look, position: u64) -> bool {
    look.head < position && forall|k: int| 0 <= k < look.log.len() ==> #[trigger] look.log[k]
        < position
}

/// Looks at a log that events are added to and removed from: what a look finds
/// that the one before it did not was committed since, at a position no
/// earlier look had reached. Positions are never reused.
pub open spec fn successive(looks: Seq<Look>) -> bool {
    &&& forall|i: int| 0 <= i < looks.len() ==> ascending((#[trigger] looks[i]).log)
    &&& forall|i: int, j: int, k: int|
        0 <= i < j < looks.len() && 0 <= k < looks[j].log.len() && !looks[j - 1].log.contains(
            looks[j].log[k],
        ) ==> newer(#[trigger] looks[i], #[trigger] looks[j].log[k])
}

/// Whether a position is one a look could move a cursor to.
spec fn seen_by(look: Look, position: u64) -> bool {
    look.head == position || look.log.contains(position)
}

/// A page, and where the cursor is after it: the page is what the log holds
/// between the two.
proof fn page_is_what_is_passed(look: Look, from: u64)
    requires
        ascending(look.log),
    ensures
        ({
            let page = page_after(look.log, from, BATCH as nat);
            let to = moved(from, page, Some(look.head));
            &&& to >= from
            &&& to == from || seen_by(look, to)
            &&& ascending(page)
            &&& forall|p: u64| #[trigger]
                page.contains(p) <==> look.log.contains(p) && from < p <= to
            &&& page.len() < BATCH ==> forall|p: u64| #[trigger]
                look.log.contains(p) ==> p <= to
        }),
{
    let log = look.log;
    let page = page_after(log, from, BATCH as nat);
    let to = moved(from, page, Some(look.head));
    let n = after_is_a_tail(log, from);
    assert forall|i: int| 0 <= i < page.len() implies #[trigger] page[i] == log[n + i] by {}
    if page.len() > 0 {
        assert(page.last() == log[n + page.len() - 1]);
        assert(log.contains(page.last()));
    }
    assert forall|i: int, j: int| 0 <= i < j < page.len() implies #[trigger] page[i]
        < #[trigger] page[j] by {
        assert(log[n + i] < log[n + j]);
    }
    assert forall|p: u64| #[trigger] page.contains(p) implies log.contains(p) && from < p <= to by {
        let i = choose|i: int| 0 <= i < page.len() && page[i] == p;
        assert(log[n + i] == p);
        if i < page.len() - 1 {
            assert(page[i] < page[page.len() - 1]);
        }
    }
    assert forall|p: u64| #[trigger] log.contains(p) && from < p <= to implies page.contains(p) by {
        let k = choose|k: int| 0 <= k < log.len() && log[k] == p;
        if k < n {
            assert(log[k] <= from);
        }
        if k - n < page.len() {
            assert(page[k - n] == p);
        } else {
            assert(page.len() == BATCH);
            assert(log[n + page.len() - 1] < log[k]);
        }
    }
    if page.len() < BATCH {
        assert forall|p: u64| #[trigger] log.contains(p) implies p <= to by {
            let k = choose|k: int| 0 <= k < log.len() && log[k] == p;
            if k < n {
                assert(log[k] <= from);
            } else {
                assert(page[k - n] == p);
                if k - n < page.len() - 1 {
                    assert(page[k - n] < page[page.len() - 1]);
                }
            }
        }
    }
}

proof fn fewer_looks_are_successive(looks: Seq<Look>)
    requires
        successive(looks),
        looks.len() > 0,
    ensures
        successive(looks.drop_last()),
{
    let before = looks.drop_last();
    assert forall|i: int| 0 <= i < before.len() implies ascending((#[trigger] before[i]).log) by {
        assert(before[i] == looks[i]);
    }
    assert forall|i: int, j: int, k: int|
        0 <= i < j < before.len() && 0 <= k < before[j].log.len() && !before[j - 1].log.contains(
            before[j].log[k],
        ) implies newer(#[trigger] before[i], #[trigger] before[j].log[k]) by {
        assert(before[j - 1] == looks[j - 1]);
        assert(newer(looks[i], looks[j].log[k]));
    }
}

/// A subscription is safe under removal. Over any number of looks, with events
/// added and removed between them, what it hands out is strictly increasing
/// and past its start; each event of it was there in one of the looks; every
/// event the last look finds at or before the cursor was handed out, so none
/// was skipped; and a last page that came back short leaves none of them.
pub proof fn following_is_safe_under_removal(looks: Seq<Look>, start: u64)
    requires
        successive(looks),
        looks.len() > 0,
    ensures
        ({
            let given = followed(looks, start);
            let cursor = followed_to(looks, start);
            let log = looks.last().log;
            &&& ascending(given)
            &&& cursor >= start
            &&& forall|p: u64| #[trigger] given.contains(p) ==> start < p <= cursor
            &&& forall|p: u64| #[trigger]
                given.contains(p) ==> exists|i: int|
                    0 <= i < looks.len() && (#[trigger] looks[i]).log.contains(p)
            &&& forall|p: u64| #[trigger]
                log.contains(p) && start < p <= cursor ==> given.contains(p)
            &&& page_after(log, followed_to(looks.drop_last(), start), BATCH as nat).len() < BATCH
                ==> forall|p: u64| #[trigger] log.contains(p) && start < p ==> given.contains(p)
        }),
    decreases looks.len(),
{
    cursor_was_seen(looks, start);
    let before = looks.drop_last();
    let last = looks.len() - 1;
    let look = looks[last];
    assert(look == looks.last());
    let from = followed_to(before, start);
    let earlier = followed(before, start);
    let page = page_after(look.log, from, BATCH as nat);
    let given = followed(looks, start);
    let cursor = followed_to(looks, start);
    page_is_what_is_passed(look, from);
    if before.len() > 0 {
        fewer_looks_are_successive(looks);
        following_is_safe_under_removal(before, start);
        cursor_was_seen(before, start);
    }
    assert forall|i: int| 0 <= i < earlier.len() implies start < #[trigger] earlier[i] <= from by {
        assert(earlier.contains(earlier[i]));
    }
    assert forall|i: int| 0 <= i < page.len() implies from < #[trigger] page[i] <= cursor by {
        assert(page.contains(page[i]));
    }
    assert forall|i: int, j: int| 0 <= i < j < given.len() implies #[trigger] given[i]
        < #[trigger] given[j] by {
        if j < earlier.len() {
            assert(given[i] == earlier[i] && given[j] == earlier[j]);
        } else if i >= earlier.len() {
            assert(given[i] == page[i - earlier.len()] && given[j] == page[j - earlier.len()]);
        } else {
            assert(given[i] == earlier[i] && given[j] == page[j - earlier.len()]);
        }
    }
    assert forall|p: u64| #[trigger] given.contains(p) implies start < p <= cursor && exists|i: int|
        0 <= i < looks.len() && (#[trigger] looks[i]).log.contains(p) by {
        let k = choose|k: int| 0 <= k < given.len() && given[k] == p;
        if k < earlier.len() {
            assert(earlier[k] == p);
            assert(earlier.contains(p));
            let i = choose|i: int|
                0 <= i < before.len() && (#[trigger] before[i]).log.contains(p);
            assert(looks[i] == before[i]);
        } else {
            assert(page[k - earlier.len()] == p);
            assert(page.contains(p));
            assert(looks[last].log.contains(p));
        }
    }
    assert forall|p: u64| #[trigger]
        look.log.contains(p) && start < p <= cursor implies given.contains(p) by {
        if p > from {
            assert(page.contains(p));
            let k = choose|k: int| 0 <= k < page.len() && page[k] == p;
            assert(given[earlier.len() + k] == p);
        } else {
            assert(before.len() > 0);
            let previous = looks[last - 1];
            assert(previous == before.last());
            if !previous.log.contains(p) {
                let k = choose|k: int| 0 <= k < look.log.len() && look.log[k] == p;
                let i = choose|i: int|
                    0 <= i < before.len() && seen_by(#[trigger] before[i], from);
                assert(looks[i] == before[i]);
                assert(newer(looks[i], looks[last].log[k]));
                if looks[i].log.contains(from) {
                    let l = choose|l: int| 0 <= l < looks[i].log.len() && looks[i].log[l] == from;
                    assert(looks[i].log[l] < p);
                }
                assert(false);
            }
            assert(earlier.contains(p));
            let k = choose|k: int| 0 <= k < earlier.len() && earlier[k] == p;
            assert(given[k] == p);
        }
    }
}

/// Where a subscription stands is where it started, or a head or an event that
/// one of its looks found.
proof fn cursor_was_seen(looks: Seq<Look>, start: u64)
    requires
        successive(looks),
    ensures
        followed_to(looks, start) == start || exists|i: int|
            0 <= i < looks.len() && seen_by(#[trigger] looks[i], followed_to(looks, start)),
    decreases looks.len(),
{
    if looks.len() > 0 {
        let before = looks.drop_last();
        let from = followed_to(before, start);
        fewer_looks_are_successive(looks);
        cursor_was_seen(before, start);
        assert(looks[looks.len() - 1] == looks.last());
        assert(ascending(looks[looks.len() - 1].log));
        page_is_what_is_passed(looks.last(), from);
        if followed_to(looks, start) == from && from != start {
            let i = choose|i: int| 0 <= i < before.len() && seen_by(#[trigger] before[i], from);
            assert(looks[i] == before[i]);
        } else if followed_to(looks, start) != from {
            assert(seen_by(looks[looks.len() - 1], followed_to(looks, start)));
        }
    }
}

/// A subscription that moves its cursor to the head skips nothing: when a page
/// comes back short, every event of the range it was read from that is at or
/// before the new cursor was at or before the old one, or is in the page.
pub proof fn waiting_skips_nothing(
    log: Seq<u64>,
    cursor: Position,
    page: Seq<Recorded>,
    head: Position,
    at: int,
)
    requires
        ascending(log),
        page.len() < BATCH,
        page.len() == page_after(log, cursor.0, BATCH as nat).len(),
        forall|i: int|
            0 <= i < page.len() ==> (#[trigger] page[i]).position.0 == page_after(
                log,
                cursor.0,
                BATCH as nat,
            )[i],
        0 <= at < log.len(),
        log[at] <= cursor_after(cursor, page, Some(head)).0,
    ensures
        log[at] <= cursor.0 || exists|i: int|
            0 <= i < page.len() && (#[trigger] page[i]).position.0 == log[at],
        cursor_after(cursor, page, Some(head)).0 >= cursor.0,
{
    let n = after_is_a_tail(log, cursor.0);
    if log[at] > cursor.0 {
        assert(at >= n);
        assert(page[at - n].position.0 == log[at]);
    }
    if page.len() > 0 {
        let k = page.len() - 1;
        assert(page[k].position.0 == log[n + k]);
        assert(log[n + k] > cursor.0);
    }
}

} // verus!
