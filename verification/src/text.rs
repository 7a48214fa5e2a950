//! Text selection ranges.

use vstd::prelude::*;

use crate::types::CharIndex;

verus! {

/// `a` comes no later than `b` in document order: page first, then
/// character within the page.
pub open spec fn index_le(a: CharIndex, b: CharIndex) -> bool {
    a.page.0 < b.page.0 || (a.page.0 == b.page.0 && a.char <= b.char)
}

/// A half-open range of characters spanning one or more pages: `[start, end)`.
///
/// Always normalized so `start` comes before `end` in document order
/// (i.e. `start.page < end.page`, or `start.page == end.page && start.char <= end.char`).
#[derive(Debug, Clone, Copy, PartialEq, Eq, Structural)]
pub struct SelectionRange {
    /// First character (inclusive).
    pub start: CharIndex,
    /// One past the last character (exclusive).
    pub end: CharIndex,
}

impl SelectionRange {
    /// The normalized range between two character positions.
    pub open spec fn between(a: CharIndex, b: CharIndex) -> SelectionRange {
        if index_le(a, b) {
            SelectionRange { start: a, end: b }
        } else {
            SelectionRange { start: b, end: a }
        }
    }

    /// `start` does not come after `end`.
    pub open spec fn normalized(self) -> bool {
        index_le(self.start, self.end)
    }

    /// Create a normalized selection range.
    pub fn new(a: CharIndex, b: CharIndex) -> (range: SelectionRange)
        ensures
            range == SelectionRange::between(a, b),
            range.normalized(),
    {
        if a.page.0 < b.page.0 || (a.page.0 == b.page.0 && a.char <= b.char) {
            SelectionRange { start: a, end: b }
        } else {
            SelectionRange { start: b, end: a }
        }
    }

    /// Return true if the selection is empty (start == end).
    pub fn is_empty(&self) -> (empty: bool)
        ensures
            empty == (self.start == self.end),
    {
        self.start == self.end
    }
}

/// The range between two positions does not depend on the order in which
/// they are given, and its ends are exactly the two positions.
pub proof fn lemma_between_symmetric(a: CharIndex, b: CharIndex)
    ensures
        SelectionRange::between(a, b) == SelectionRange::between(b, a),
        SelectionRange::between(a, b).normalized(),
        (SelectionRange::between(a, b).start == a && SelectionRange::between(a, b).end == b) || (
        SelectionRange::between(a, b).start == b && SelectionRange::between(a, b).end == a),
{
}

/// A range built from two positions is empty exactly when they are the same
/// position.
pub proof fn lemma_between_empty(a: CharIndex, b: CharIndex)
    ensures
        (SelectionRange::between(a, b).start == SelectionRange::between(a, b).end) == (a == b),
{
}

/// Normalizing an already normalized range changes nothing.
pub proof fn lemma_between_idempotent(r: SelectionRange)
    requires
        r.normalized(),
    ensures
        SelectionRange::between(r.start, r.end) == r,
{
}

} // verus!
