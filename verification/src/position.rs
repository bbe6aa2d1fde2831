//! Coordinates: where an event sits in its stream, and in the database.
//!
//! `seq` counts within one stream and stays a bare `u64`; [`Position`] counts
//! across every stream of one database and is a type of its own, so that one
//! cannot be passed where the other belongs.

use std::cmp::Ordering;

use vstd::prelude::*;
use vstd::std_specs::cmp::{PartialOrdSpec, PartialOrdSpecImpl};

use crate::text;

verus! {

/// A global coordinate: the order an event was committed in, across every
/// stream of one database.
#[derive(Debug, Clone, Copy, PartialEq, Eq, Ord, Hash, Default, Structural)]
pub struct Position(pub u64);

impl PartialOrd for Position {
    fn partial_cmp(&self, other: &Position) -> (order: Option<Ordering>) {
        if self.0 < other.0 {
            Some(Ordering::Less)
        } else if self.0 > other.0 {
            Some(Ordering::Greater)
        } else {
            Some(Ordering::Equal)
        }
    }
}

impl PartialOrdSpecImpl for Position {
    open spec fn obeys_partial_cmp_spec() -> bool {
        true
    }

    open spec fn partial_cmp_spec(&self, other: &Position) -> Option<Ordering> {
        if self.0 < other.0 {
            Some(Ordering::Less)
        } else if self.0 > other.0 {
            Some(Ordering::Greater)
        } else {
            Some(Ordering::Equal)
        }
    }
}

/// Whether one position is before another: what `<` says of two positions.
pub open spec fn before(a: Position, b: Position) -> bool {
    PartialOrdSpec::partial_cmp_spec(&a, &b) == Some(Ordering::Less)
}

/// Positions are ordered as their numbers are, and the beginning is before
/// every other.
pub proof fn positions_are_ordered_by_number(a: Position, b: Position)
    ensures
        before(a, b) <==> a.0 < b.0,
        before(a, b) || a == b || before(b, a),
        !before(a, Position(0)),
{
}

impl Position {
    /// Before the first event. Where a consumer with no checkpoint starts.
    pub fn beginning() -> (position: Self)
        ensures
            position == Position(0),
    {
        Position(0)
    }

    pub fn new(value: u64) -> (position: Self)
        ensures
            position == Position(value),
    {
        Position(value)
    }

    pub fn get(self) -> (value: u64)
        ensures
            value == self.0,
    {
        self.0
    }

    /// The value as SQLite stores it, or `None` when it does not fit.
    pub open spec fn stored(self) -> Option<i64> {
        if self.0 <= i64::MAX {
            Some(self.0 as i64)
        } else {
            None
        }
    }

    /// The value as SQLite stores it, or `None` when it does not fit.
    ///
    /// A value above the signed range would bind as a negative number and
    /// turn "read after the end" into "read everything", so a caller that
    /// binds a position refuses one instead.
    pub fn as_stored(self) -> (stored: Option<i64>)
        ensures
            stored == self.stored(),
    {
        if self.0 <= i64::MAX as u64 {
            Some(self.0 as i64)
        } else {
            None
        }
    }

    /// The position as it is written out.
    pub fn to_string(&self) -> (digits: String)
        ensures
            digits@ == text::decimal_text(self.0 as nat),
    {
        text::decimal(self.0)
    }

    /// The later of two positions.
    pub open spec fn later(self, other: Position) -> Position {
        if other.0 > self.0 {
            other
        } else {
            self
        }
    }

    /// The later of two positions.
    pub fn max_of(self, other: Position) -> (later: Position)
        ensures
            later == self.later(other),
    {
        if other.0 > self.0 {
            other
        } else {
            self
        }
    }
}

/// What a write returned: the coordinates the store assigned it.
#[derive(Debug, Clone, Copy, PartialEq, Eq, Structural)]
pub struct Committed {
    /// Per-stream sequence, from 1.
    pub seq: u64,
    /// The time coordinate the event was stamped with.
    pub epoch_ms: u64,
    /// Global coordinate, or `None` from a backend that keeps one stream and
    /// has no database-wide order to place the event in.
    pub position: Option<Position>,
}

/// A position is stored as its number where that fits, and the later of two is
/// the one further on.
pub proof fn positions_are_stored_and_compared(a: Position, b: Position)
    ensures
        a.stored() is Some <==> a.0 <= i64::MAX,
        a.stored() is Some ==> a.stored()->0 == a.0,
        a.later(b).0 >= a.0 && a.later(b).0 >= b.0,
        a.later(b) == a || a.later(b) == b,
{
}

} // verus!
