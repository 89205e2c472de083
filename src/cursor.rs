//! The backfill cursor: the one progress marker that the tip tracker moves
//! forward and the backfill worker moves back.

use vstd::prelude::*;

verus! {

/// The cursor after `advance_if_greater(candidate)`: the candidate when the
/// cursor is unset or the candidate is greater, else unchanged.
pub open spec fn advanced(cursor: Option<u64>, candidate: u64) -> Option<u64> {
    match cursor {
        None => Some(candidate),
        Some(current) => if candidate > current {
            Some(candidate)
        } else {
            cursor
        },
    }
}

/// The cursor after `retreat_by(chunk)`: lowered by `chunk`, stopping at zero.
/// An unset cursor stays unset.
pub open spec fn retreated(cursor: Option<u64>, chunk: u64) -> Option<u64> {
    match cursor {
        None => None,
        Some(current) => Some(if current >= chunk { (current - chunk) as u64 } else { 0 }),
    }
}

/// The cursor after advancing by each candidate in turn.
pub open spec fn advanced_all(cursor: Option<u64>, candidates: Seq<u64>) -> Option<u64>
    decreases candidates.len(),
{
    if candidates.len() == 0 {
        cursor
    } else {
        advanced(advanced_all(cursor, candidates.drop_last()), candidates.last())
    }
}

/// The highest slot from which the backward sweep proceeds; unset until the
/// first tip is observed.
pub struct SlotCursor {
    slot: Option<u64>,
}

impl View for SlotCursor {
    type V = Option<u64>;

    closed spec fn view(&self) -> Option<u64> {
        self.slot
    }
}

impl SlotCursor {
    /// An unset cursor.
    pub fn new() -> (r: SlotCursor)
        ensures
            r@ is None,
    {
        SlotCursor { slot: None }
    }

    /// The current value.
    pub fn snapshot(&self) -> (r: Option<u64>)
        ensures
            r == self@,
    {
        self.slot
    }

    /// Sets the cursor to `candidate` when it is unset or `candidate` is
    /// greater than its value; returns whether it changed.
    pub fn advance_if_greater(&mut self, candidate: u64) -> (changed: bool)
        ensures
            final(self)@ == advanced(old(self)@, candidate),
            changed == (final(self)@ != old(self)@),
    {
        match self.slot {
            None => {
                self.slot = Some(candidate);
                true
            },
            Some(current) => {
                if candidate > current {
                    self.slot = Some(candidate);
                    true
                } else {
                    false
                }
            },
        }
    }

    /// Lowers the cursor by `chunk`, saturating at zero. An unset cursor stays
    /// unset.
    pub fn retreat_by(&mut self, chunk: u64)
        ensures
            final(self)@ == retreated(old(self)@, chunk),
    {
        if let Some(current) = self.slot {
            self.slot = Some(current.saturating_sub(chunk));
        }
    }
}

/// Advancing never lowers the cursor: after any sequence of candidates, a set
/// cursor is at least its starting value and at least every candidate.
pub proof fn lemma_advance_never_decreases(cursor: Option<u64>, candidates: Seq<u64>)
    ensures
        cursor is Some ==> advanced_all(cursor, candidates) is Some
            && advanced_all(cursor, candidates)->Some_0 >= cursor->Some_0,
        candidates.len() > 0 ==> advanced_all(cursor, candidates) is Some,
        forall|i: int|
            0 <= i < candidates.len() ==> advanced_all(cursor, candidates)->Some_0
                >= #[trigger] candidates[i],
    decreases candidates.len(),
{
    if candidates.len() > 0 {
        let prev = candidates.drop_last();
        lemma_advance_never_decreases(cursor, prev);
        assert forall|i: int| 0 <= i < candidates.len() implies advanced_all(cursor, candidates)->Some_0
            >= #[trigger] candidates[i] by {
            if i < candidates.len() - 1 {
                assert(candidates[i] == prev[i]);
            }
        }
    }
}

/// Retreating lowers a set cursor by `chunk` and stops at zero: the new value
/// is the larger of zero and the difference.
pub proof fn lemma_retreat_saturates(current: u64, chunk: u64)
    ensures
        retreated(Some(current), chunk) is Some,
        retreated(Some(current), chunk)->Some_0 as int == if current as int - chunk as int > 0 {
            current as int - chunk as int
        } else {
            0
        },
{
}

} // verus!
