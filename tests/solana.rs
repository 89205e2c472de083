use slot_cache::cache::Cache;
use slot_cache::cursor::SlotCursor;
use slot_cache::error::SolanaError;
use slot_cache::solana::{
    apply_backfill, begin_confirmation, confirmed_by_remote, observe_tip, plan_backfill,
    BackfillStep, ConfirmationStep,
};
use slot_cache::web::slot_status;

/// A remote whose range fetch confirms every slot of the range.
fn all_confirmed(start: u64, end: u64) -> Result<Vec<u64>, SolanaError> {
    Ok((start..=end).collect())
}

/// Runs one backfill cycle against `all_confirmed`; returns the step taken.
fn backfill_cycle(cache: &mut Cache, cursor: &mut SlotCursor, chunk: u64) -> BackfillStep {
    let step = plan_backfill(cursor, chunk);
    if let BackfillStep::Fetch { start, end } = step {
        apply_backfill(cache, cursor, chunk, all_confirmed(start, end)).unwrap();
    }
    step
}

#[test]
fn test_contiguously_get_confirmed_blocks() {
    let mut cache = Cache::new(1000);
    let mut cursor = SlotCursor::new();
    observe_tip(&mut cursor, Ok(10)).unwrap();

    let mut cycles = 0;
    while backfill_cycle(&mut cache, &mut cursor, 5) != BackfillStep::Wait {
        cycles += 1;
        assert!(cycles < 10);
    }

    assert_eq!(cache.len(), 10);
    assert!(cache.contains(&5));
    assert!(cache.contains(&6));
    assert!(cache.contains(&7));
    assert!(cache.contains(&8));
    assert!(cache.contains(&9));
}

#[test]
fn backfill_iteration_fills_window_and_retreats() {
    let mut cache = Cache::new(100);
    let mut cursor = SlotCursor::new();
    cursor.advance_if_greater(20);
    let step = backfill_cycle(&mut cache, &mut cursor, 4);
    assert_eq!(step, BackfillStep::Fetch { start: 16, end: 19 });
    let mut keys = cache.keys();
    keys.sort();
    assert_eq!(keys, vec![16, 17, 18, 19]);
    assert_eq!(cache.get(&18), Some(18));
    assert_eq!(cursor.snapshot(), Some(16));
}

#[test]
fn end_to_end_tip_then_one_backfill() {
    let mut cache = Cache::new(1000);
    let mut cursor = SlotCursor::new();
    assert_eq!(observe_tip(&mut cursor, Ok(10)), Ok(true));
    assert_eq!(cursor.snapshot(), Some(10));
    backfill_cycle(&mut cache, &mut cursor, 5);
    let mut keys = cache.keys();
    keys.sort();
    assert_eq!(keys, vec![5, 6, 7, 8, 9]);
    assert_eq!(cache.len(), 5);
    assert_eq!(cursor.snapshot(), Some(5));
}

#[test]
fn backfill_waits_for_first_tip() {
    let cursor = SlotCursor::new();
    assert_eq!(plan_backfill(&cursor, 5), BackfillStep::Wait);
}

#[test]
fn backfill_idles_at_slot_zero() {
    let mut cache = Cache::new(10);
    let mut cursor = SlotCursor::new();
    cursor.advance_if_greater(3);
    assert_eq!(backfill_cycle(&mut cache, &mut cursor, 5), BackfillStep::Fetch { start: 0, end: 2 });
    assert_eq!(cursor.snapshot(), Some(0));
    assert_eq!(plan_backfill(&cursor, 5), BackfillStep::Wait);
    assert_eq!(cache.len(), 3);
    observe_tip(&mut cursor, Ok(8)).unwrap();
    assert_eq!(plan_backfill(&cursor, 5), BackfillStep::Fetch { start: 3, end: 7 });
}

#[test]
fn backfill_window_of_one_chunk() {
    let mut cursor = SlotCursor::new();
    cursor.advance_if_greater(1);
    assert_eq!(plan_backfill(&cursor, 10), BackfillStep::Fetch { start: 0, end: 0 });
}

#[test]
fn backfill_error_changes_nothing() {
    let mut cache = Cache::new(10);
    let mut cursor = SlotCursor::new();
    cursor.advance_if_greater(50);
    let err = SolanaError::ClientError("timed out".to_string());
    let r = apply_backfill(&mut cache, &mut cursor, 5, Err(SolanaError::ClientError("timed out".to_string())));
    assert_eq!(r, Err(err));
    assert_eq!(cursor.snapshot(), Some(50));
    assert_eq!(cache.len(), 0);
}

#[test]
fn backfill_keeps_cached_slots() {
    let mut cache = Cache::new(10);
    cache.insert(17, 999).unwrap();
    let mut cursor = SlotCursor::new();
    cursor.advance_if_greater(20);
    backfill_cycle(&mut cache, &mut cursor, 4);
    assert_eq!(cache.get(&17), Some(999));
    assert_eq!(cache.get(&16), Some(16));
    assert_eq!(cache.len(), 4);
}

#[test]
fn backfill_inserts_only_returned_slots() {
    let mut cache = Cache::new(10);
    let mut cursor = SlotCursor::new();
    cursor.advance_if_greater(30);
    apply_backfill(&mut cache, &mut cursor, 10, Ok(vec![21, 24, 29])).unwrap();
    let mut keys = cache.keys();
    keys.sort();
    assert_eq!(keys, vec![21, 24, 29]);
    assert_eq!(cursor.snapshot(), Some(20));
}

#[test]
fn backfill_into_small_cache_evicts_oldest() {
    let mut cache = Cache::new(3);
    let mut cursor = SlotCursor::new();
    cursor.advance_if_greater(5);
    backfill_cycle(&mut cache, &mut cursor, 5);
    let mut keys = cache.keys();
    keys.sort();
    assert_eq!(keys, vec![2, 3, 4]);
}

#[test]
fn tip_error_is_handed_up() {
    let mut cursor = SlotCursor::new();
    cursor.advance_if_greater(9);
    let r = observe_tip(&mut cursor, Err(SolanaError::RpcError("bad".to_string())));
    assert_eq!(r, Err(SolanaError::RpcError("bad".to_string())));
    assert_eq!(cursor.snapshot(), Some(9));
}

#[test]
fn lower_tip_does_not_move_cursor() {
    let mut cursor = SlotCursor::new();
    observe_tip(&mut cursor, Ok(12)).unwrap();
    assert_eq!(observe_tip(&mut cursor, Ok(11)), Ok(false));
    assert_eq!(cursor.snapshot(), Some(12));
}

#[test]
fn test_slot_get_found_in_cache() {
    let mut cache = Cache::new(1000);
    cache.insert(10, 10).unwrap();
    assert_eq!(begin_confirmation(&cache, 10), ConfirmationStep::Confirmed);
    assert_eq!(slot_status(true), 200);
}

#[test]
fn test_slot_get_confirmed_by_solana() {
    let cache = Cache::new(1000);
    let step = begin_confirmation(&cache, 10);
    assert_eq!(step, ConfirmationStep::FetchRange { start: 10, end: 10 });
    let confirmed = confirmed_by_remote(10, &Ok(vec![10]));
    assert!(confirmed);
    assert_eq!(slot_status(confirmed), 200);
}

#[test]
fn test_slot_get_not_confirmed() {
    let cache = Cache::new(1000);
    let step = begin_confirmation(&cache, 10);
    assert_eq!(step, ConfirmationStep::FetchRange { start: 10, end: 10 });
    let confirmed = confirmed_by_remote(10, &Ok(vec![]));
    assert!(!confirmed);
    assert_eq!(slot_status(confirmed), 404);
}

#[test]
fn remote_error_means_not_confirmed() {
    let cache = Cache::new(1000);
    assert_ne!(begin_confirmation(&cache, 42), ConfirmationStep::Confirmed);
    let fetched = Err(SolanaError::ClientError("connection refused".to_string()));
    assert!(!confirmed_by_remote(42, &fetched));
}

#[test]
fn remote_result_without_the_slot_is_not_confirmation() {
    assert!(!confirmed_by_remote(42, &Ok(vec![41, 43])));
    assert!(confirmed_by_remote(42, &Ok(vec![40, 41, 42])));
}
