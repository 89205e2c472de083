//! The decisions of the tip tracker, the backfill worker and the confirmation
//! oracle. Each takes what a remote call returned as an argument; the caller
//! makes the call, outside any lock, and sleeps between cycles.

use vstd::prelude::*;
use crate::cache::{Cache, CacheModel, lemma_insert_preserves_wf};
use crate::cursor::{SlotCursor, advanced, retreated};
use crate::error::SolanaError;

verus! {

/// Pause of the tip tracker between two polls, in milliseconds.
pub const SOLANA_GET_SLOT_THROTTLE_MS: u64 = 450;

/// Pause of the backfill worker between two cycles, in milliseconds.
pub const SOLANA_GET_BLOCKS_THROTTLE_MS: u64 = 150;

/// Number of slots that one backfill fetch covers.
pub const GET_BLOCKS_CHUNK_SIZE: u64 = 10;

/// First slot of the window below `cursor`: `cursor - chunk`, or zero.
pub open spec fn window_start(cursor: u64, chunk: u64) -> u64 {
    if cursor >= chunk { (cursor - chunk) as u64 } else { 0 }
}

/// Last slot of the window below `cursor`: `cursor - 1`, or zero.
pub open spec fn window_end(cursor: u64) -> u64 {
    if cursor == 0 { 0 } else { (cursor - 1) as u64 }
}

/// What the backfill worker does in one cycle.
#[derive(Debug, Clone, Copy, PartialEq, Eq)]
pub enum BackfillStep {
    /// Nothing to fetch: the cursor is unset, or it has reached slot zero and
    /// the worker idles until the tip tracker moves it up again.
    Wait,
    /// Fetch the confirmed slots of the inclusive range.
    Fetch { start: u64, end: u64 },
}

/// The step for a cursor value.
pub open spec fn backfill_step(cursor: Option<u64>, chunk: u64) -> BackfillStep {
    match cursor {
        Some(c) => if c > 0 {
            BackfillStep::Fetch { start: window_start(c, chunk), end: window_end(c) }
        } else {
            BackfillStep::Wait
        },
        None => BackfillStep::Wait,
    }
}

/// The cache after inserting, in order, each slot that is not cached at the
/// moment its turn comes, with the slot as its value.
pub open spec fn cache_new_slots(m: CacheModel, slots: Seq<u64>) -> CacheModel
    decreases slots.len(),
{
    if slots.len() == 0 {
        m
    } else {
        let prev = cache_new_slots(m, slots.drop_last());
        if prev.entries.contains_key(slots.last()) {
            prev
        } else {
            prev.insert(slots.last(), slots.last())
        }
    }
}

/// Whether a live range fetch for `slot` confirms it: the fetch succeeded
/// and its result holds the slot.
pub open spec fn remote_confirms(slot: u64, fetched: Result<Vec<u64>, SolanaError>) -> bool {
    fetched is Ok && fetched->Ok_0@.contains(slot)
}

/// What the oracle does for a query.
#[derive(Debug, Clone, Copy, PartialEq, Eq)]
pub enum ConfirmationStep {
    /// The slot is cached: it is confirmed, with no remote call.
    Confirmed,
    /// Ask the remote for the confirmed slots of the inclusive range, once.
    FetchRange { start: u64, end: u64 },
}

/// The oracle's step for `slot` against the cache.
pub open spec fn confirmation_step(m: CacheModel, slot: u64) -> ConfirmationStep {
    if m.entries.contains_key(slot) {
        ConfirmationStep::Confirmed
    } else {
        ConfirmationStep::FetchRange { start: slot, end: slot }
    }
}

/// One cycle of the tip tracker, given what the tip query returned: a tip
/// advances the cursor if greater, and the result says whether it moved; an
/// error is handed up and leaves the cursor as it was.
pub fn observe_tip(cursor: &mut SlotCursor, fetched: Result<u64, SolanaError>) -> (r: Result<bool, SolanaError>)
    ensures
        fetched is Ok ==> r is Ok && final(cursor)@ == advanced(old(cursor)@, fetched->Ok_0)
            && r->Ok_0 == (final(cursor)@ != old(cursor)@),
        fetched is Err ==> r is Err && r->Err_0 == fetched->Err_0 && final(cursor)@ == old(cursor)@,
{
    match fetched {
        Ok(tip) => Ok(cursor.advance_if_greater(tip)),
        Err(e) => Err(e),
    }
}

/// The step of the backfill worker for the current cursor.
pub fn plan_backfill(cursor: &SlotCursor, chunk_size: u64) -> (r: BackfillStep)
    ensures
        r == backfill_step(cursor@, chunk_size),
{
    match cursor.snapshot() {
        Some(c) => {
            if c > 0 {
                let start = c.saturating_sub(chunk_size);
                let end = c - 1;
                BackfillStep::Fetch { start, end }
            } else {
                BackfillStep::Wait
            }
        },
        None => BackfillStep::Wait,
    }
}

/// Completes a backfill cycle with what the range fetch returned. On success
/// each fetched slot not yet cached is inserted, and only then the cursor
/// retreats by `chunk_size`; an error is handed up and changes nothing.
pub fn apply_backfill(
    cache: &mut Cache,
    cursor: &mut SlotCursor,
    chunk_size: u64,
    fetched: Result<Vec<u64>, SolanaError>,
) -> (r: Result<(), SolanaError>)
    requires
        old(cache).wf(),
    ensures
        final(cache).wf(),
        fetched is Ok ==> r is Ok && final(cache)@ == cache_new_slots(old(cache)@, fetched->Ok_0@)
            && final(cursor)@ == retreated(old(cursor)@, chunk_size),
        fetched is Err ==> r is Err && r->Err_0 == fetched->Err_0 && final(cache)@ == old(cache)@
            && final(cursor)@ == old(cursor)@,
{
    let blocks = match fetched {
        Ok(blocks) => blocks,
        Err(e) => return Err(e),
    };
    let ghost start = cache@;
    let mut i: usize = 0;
    while i < blocks.len()
        invariant
            i <= blocks.len(),
            cache.wf(),
            cache@ == cache_new_slots(start, blocks@.take(i as int)),
        decreases blocks.len() - i,
    {
        let slot = blocks[i];
        proof {
            assert(blocks@.take(i + 1).drop_last() =~= blocks@.take(i as int));
            assert(blocks@.take(i + 1).last() == slot);
        }
        if !cache.contains(&slot) {
            let _ = cache.insert(slot, slot);
        }
        i += 1;
    }
    proof {
        assert(blocks@.take(i as int) =~= blocks@);
    }
    cursor.retreat_by(chunk_size);
    Ok(())
}

/// The oracle's first step: a cached slot is confirmed at once, otherwise the
/// single-slot range is to be fetched.
pub fn begin_confirmation(cache: &Cache, slot: u64) -> (r: ConfirmationStep)
    ensures
        r == confirmation_step(cache@, slot),
{
    if cache.contains(&slot) {
        ConfirmationStep::Confirmed
    } else {
        ConfirmationStep::FetchRange { start: slot, end: slot }
    }
}

/// The oracle's answer from a live fetch: confirmed when the fetch succeeded
/// and holds the slot. A remote error counts as not confirmed.
pub fn confirmed_by_remote(slot: u64, fetched: &Result<Vec<u64>, SolanaError>) -> (r: bool)
    ensures
        r == remote_confirms(slot, *fetched),
{
    match fetched {
        Ok(blocks) => {
            let mut i: usize = 0;
            while i < blocks.len()
                invariant
                    i <= blocks.len(),
                    fetched is Ok && fetched->Ok_0@ == blocks@,
                    forall|j: int| 0 <= j < i ==> blocks@[j] != slot,
                decreases blocks.len() - i,
            {
                if blocks[i] == slot {
                    assert(blocks@[i as int] == slot);
                    return true;
                }
                i += 1;
            }
            false
        },
        Err(_) => false,
    }
}

/// The slots `start..=end`, ascending: what a range fetch returns when every
/// slot of the range is confirmed.
pub open spec fn slot_range(start: u64, end: u64) -> Seq<u64> {
    if start <= end {
        Seq::new((end - start + 1) as nat, |i: int| (start + i) as u64)
    } else {
        Seq::empty()
    }
}

/// Caching new slots into a cache with room for all of them evicts nothing:
/// present keys keep their values and each new slot maps to itself.
proof fn lemma_cache_new_slots_with_room(m: CacheModel, slots: Seq<u64>)
    requires
        m.wf(),
        m.len() + slots.len() <= m.capacity,
    ensures
        cache_new_slots(m, slots).wf(),
        cache_new_slots(m, slots).capacity == m.capacity,
        cache_new_slots(m, slots).len() <= m.len() + slots.len(),
        cache_new_slots(m, slots).entries == Map::new(|x: u64| slots.contains(x), |x: u64| x).union_prefer_right(
            m.entries,
        ),
    decreases slots.len(),
{
    if slots.len() > 0 {
        let prev_slots = slots.drop_last();
        let k = slots.last();
        lemma_cache_new_slots_with_room(m, prev_slots);
        let prev = cache_new_slots(m, prev_slots);
        assert forall|x: u64| #[trigger] slots.contains(x) <==> prev_slots.contains(x) || x == k by {
            if slots.contains(x) && x != k {
                let i = choose|i: int| 0 <= i < slots.len() && slots[i] == x;
                assert(prev_slots[i] == x);
            }
            if prev_slots.contains(x) {
                let i = choose|i: int| 0 <= i < prev_slots.len() && prev_slots[i] == x;
                assert(slots[i] == x);
            }
            if x == k {
                assert(slots[slots.len() - 1] == x);
            }
        }
        if !prev.entries.contains_key(k) {
            lemma_insert_preserves_wf(prev, k, k);
        }
        assert(cache_new_slots(m, slots).entries =~= Map::new(|x: u64| slots.contains(x), |x: u64| x).union_prefer_right(
            m.entries,
        ));
    }
}

/// One backfill cycle from cursor `s >= chunk`, where the range fetch returns
/// every slot of the window, into a cache with room for the window: it fetches
/// `s - chunk ..= s - 1`, caches exactly the slots `s - chunk .. s` beside what
/// was there, and leaves the cursor at `s - chunk`. A cursor at zero has an
/// empty window, and the worker waits.
pub proof fn lemma_backfill_iteration_fills_window(m: CacheModel, s: u64, chunk: u64)
    requires
        m.wf(),
        s >= chunk,
        m.len() + chunk <= m.capacity,
    ensures
        backfill_step(Some(s), chunk) == (if s > 0 {
            (BackfillStep::Fetch { start: (s - chunk) as u64, end: (s - 1) as u64 })
        } else {
            BackfillStep::Wait
        }),
        s > 0 ==> cache_new_slots(m, slot_range((s - chunk) as u64, (s - 1) as u64)).entries
            == Map::new(|x: u64| s - chunk <= x < s, |x: u64| x).union_prefer_right(m.entries),
        s > 0 ==> retreated(Some(s), chunk) == Some((s - chunk) as u64),
        s == 0 ==> chunk == 0,
{
    if s > 0 {
        let start = (s - chunk) as u64;
        let end = (s - 1) as u64;
        let r = slot_range(start, end);
        assert(r.len() == chunk);
        lemma_cache_new_slots_with_room(m, r);
        assert forall|x: u64| #[trigger] r.contains(x) <==> s - chunk <= x < s by {
            if s - chunk <= x < s {
                assert(r[x - start] == x);
            }
        }
        assert(Map::new(|x: u64| r.contains(x), |x: u64| x) =~= Map::new(
            |x: u64| s - chunk <= x < s,
            |x: u64| x,
        ));
    }
}

/// The oracle answers a cached slot at once, with no remote call; for a slot
/// that is not cached it fetches the single-slot range, and a failed fetch
/// means not confirmed.
pub proof fn lemma_oracle_answers(m: CacheModel, slot: u64, e: SolanaError)
    ensures
        m.entries.contains_key(slot) ==> confirmation_step(m, slot) == ConfirmationStep::Confirmed,
        !m.entries.contains_key(slot) ==> confirmation_step(m, slot) == (ConfirmationStep::FetchRange {
            start: slot,
            end: slot,
        }),
        !remote_confirms(slot, Err(e)),
{
}

} // verus!
