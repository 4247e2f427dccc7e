use vm_runner::batch::{
    BatchData, BatchDiff, BatchEnv, BatchExecuteData, L2BlockData, SlotKey, SystemEnv,
};
use vm_runner::cache::{BatchSource, CacheState, StorageView, SyncError};
use vm_runner::wallet::WalletType;

fn key(contract: u64, slot: u64) -> SlotKey {
    SlotKey { contract, slot }
}

fn execute_data(n: u32) -> BatchExecuteData {
    BatchExecuteData {
        l1_batch_env: BatchEnv {
            number: n,
            timestamp: 1_000 + n as u64,
            fee_account: 0xfee,
            l1_gas_price: 100,
            fair_l2_gas_price: 25,
        },
        system_env: SystemEnv {
            chain_id: 270,
            protocol_version: 24,
            bootloader_gas_limit: 80_000_000,
            validation_computational_gas_limit: u32::MAX,
        },
        l2_blocks: vec![L2BlockData {
            number: 2 * n,
            timestamp: 1_000 + n as u64,
            txs: vec![vec![n as u8, 1], vec![n as u8, 2]],
        }],
    }
}

fn batch(n: u32, writes: Vec<(SlotKey, u64)>) -> BatchData {
    let enum_index_diff = writes
        .iter()
        .enumerate()
        .map(|(i, (k, _))| (*k, 100 * n as u64 + i as u64))
        .collect();
    BatchData {
        execute_data: execute_data(n),
        diff: BatchDiff {
            state_diff: writes,
            enum_index_diff,
            factory_dep_diff: vec![(n as u64, vec![0xc0, n as u8])],
        },
    }
}

/// A cache whose snapshot sits at `floor`, with nothing preloaded.
fn cache_at(floor: u32) -> CacheState<&'static str> {
    let mut c = CacheState::new();
    assert_eq!(c.advance("snapshot", floor), Ok(()));
    c
}

fn layered_diffs(v: &Option<StorageView<&'static str>>) -> usize {
    match v {
        Some(StorageView::Layered { diffs, .. }) => diffs.len(),
        _ => panic!("expected a layered view"),
    }
}

#[test]
fn new_cache_is_empty() {
    let c: CacheState<u8> = CacheState::new();
    assert!(!c.has_snapshot());
    assert_eq!(c.floor(), 0);
    assert!(c.pending_batches().is_empty());
    assert_eq!(c.next_to_preload(), 1);
}

#[test]
fn preload_then_advance_scenario() {
    let mut c = cache_at(10);
    let fetched = vec![Some(batch(11, vec![])), Some(batch(12, vec![]))];
    assert_eq!(c.preload_pass(12, &fetched), 2);
    assert_eq!(c.pending_batches(), vec![11, 12]);
    assert!(c.resolve_view(11).is_some());
    assert!(c.resolve_view(13).is_none());

    assert_eq!(c.advance("snapshot at 11", 11), Ok(()));
    assert_eq!(c.floor(), 11);
    assert_eq!(c.pending_batches(), vec![12]);
    assert!(c.resolve_view(10).is_none());
    match c.resolve_view(12) {
        Some(StorageView::Layered { snapshot, floor, diffs }) => {
            assert_eq!(snapshot, "snapshot at 11");
            assert_eq!(floor, 11);
            assert_eq!(diffs.len(), 1);
        }
        _ => panic!("expected a layered view"),
    }
}

#[test]
fn view_composition_reads_newest_value() {
    let k = key(0xaa, 7);
    let mut c = cache_at(5);
    assert_eq!(c.insert_preloaded(6, batch(6, vec![(k, 41)])), Ok(()));
    assert_eq!(c.insert_preloaded(7, batch(7, vec![(k, 42)])), Ok(()));

    // As of the floor the snapshot's own value stands.
    let at_floor = c.resolve_view(5).unwrap();
    assert_eq!(at_floor.overlay_value(k), None);
    assert_eq!(layered_diffs(&Some(at_floor)), 0);

    let at_6 = c.resolve_view(6).unwrap();
    assert_eq!(at_6.overlay_value(k), Some(41));
    let at_7 = c.resolve_view(7).unwrap();
    assert_eq!(at_7.overlay_value(k), Some(42));
    assert_eq!(at_7.overlay_value(key(0xaa, 8)), None);
}

#[test]
fn view_overlays_write_indices_and_code() {
    let k = key(1, 2);
    let mut c = cache_at(0);
    assert_eq!(c.insert_preloaded(1, batch(1, vec![(k, 9)])), Ok(()));
    let v = c.resolve_view(1).unwrap();
    assert_eq!(v.overlay_enum_index(k), Some(100));
    assert_eq!(v.overlay_enum_index(key(1, 3)), None);
    assert_eq!(v.overlay_code(1), Some(vec![0xc0, 1]));
    assert_eq!(v.overlay_code(2), None);
}

#[test]
fn unavailable_below_floor_and_above_preloaded() {
    let mut c = cache_at(20);
    assert_eq!(c.insert_preloaded(21, batch(21, vec![])), Ok(()));
    assert!(c.resolve_view(19).is_none());
    assert!(c.resolve_view(22).is_none());
    assert!(c.resolve_view(20).is_some());
    assert!(c.resolve_view(21).is_some());
    assert!(matches!(c.load_batch(19), BatchSource::Unavailable));
    assert!(matches!(c.load_batch(20), BatchSource::Unavailable));
    assert!(matches!(c.load_batch(22), BatchSource::Unavailable));
}

#[test]
fn before_snapshot_everything_goes_to_the_store() {
    let c: CacheState<&'static str> = CacheState::new();
    for n in [0u32, 1, 17, u32::MAX] {
        match c.resolve_view(n) {
            Some(StorageView::SourceOfTruth { batch }) => assert_eq!(batch, n),
            _ => panic!("expected the source of truth"),
        }
        assert!(matches!(c.load_batch(n), BatchSource::Store));
    }
    let v = c.resolve_view(3).unwrap();
    assert_eq!(v.overlay_value(key(0, 0)), None);
}

#[test]
fn cached_batch_matches_preloaded_data() {
    let mut c = cache_at(3);
    assert_eq!(c.insert_preloaded(4, batch(4, vec![])), Ok(()));
    match c.load_batch(4) {
        BatchSource::Cached(d) => {
            assert_eq!(d.l1_batch_env, execute_data(4).l1_batch_env);
            assert_eq!(d.system_env.validation_computational_gas_limit, u32::MAX);
            assert_eq!(d.l2_blocks.len(), 1);
            assert_eq!(d.l2_blocks[0].number, 8);
            assert_eq!(d.l2_blocks[0].txs, vec![vec![4, 1], vec![4, 2]]);
        }
        _ => panic!("expected cached data"),
    }
}

#[test]
fn preload_stops_at_first_gap() {
    let mut c = cache_at(10);
    let fetched = vec![
        Some(batch(11, vec![])),
        None,
        Some(batch(13, vec![])),
        Some(batch(14, vec![])),
    ];
    assert_eq!(c.preload_pass(14, &fetched), 1);
    assert_eq!(c.pending_batches(), vec![11]);
    assert_eq!(c.next_to_preload(), 12);
}

#[test]
fn preload_gap_at_start_adds_nothing() {
    let mut c = cache_at(10);
    let fetched = vec![None, Some(batch(12, vec![]))];
    assert_eq!(c.preload_pass(12, &fetched), 0);
    assert!(c.pending_batches().is_empty());
}

#[test]
fn preload_stops_at_last_ready() {
    let mut c = cache_at(10);
    let fetched = vec![
        Some(batch(11, vec![])),
        Some(batch(12, vec![])),
        Some(batch(13, vec![])),
    ];
    assert_eq!(c.preload_pass(12, &fetched), 2);
    assert_eq!(c.pending_batches(), vec![11, 12]);
    // Nothing is ready beyond what is held.
    assert_eq!(c.preload_pass(12, &vec![Some(batch(13, vec![]))]), 0);
    assert_eq!(c.preload_pass(9, &vec![Some(batch(13, vec![]))]), 0);
}

#[test]
fn preload_continues_after_held_batches() {
    let mut c = cache_at(10);
    assert_eq!(c.insert_preloaded(11, batch(11, vec![])), Ok(()));
    assert_eq!(c.next_to_preload(), 12);
    assert_eq!(c.preload_pass(13, &vec![Some(batch(12, vec![])), Some(batch(13, vec![]))]), 2);
    assert_eq!(c.pending_batches(), vec![11, 12, 13]);
}

#[test]
fn floor_never_goes_down() {
    let mut c = cache_at(10);
    assert_eq!(
        c.advance("older", 9),
        Err(SyncError::FloorRegression { floor: 10, requested: 9 })
    );
    assert_eq!(c.floor(), 10);
    assert_eq!(c.advance("same", 10), Ok(()));
    assert_eq!(c.floor(), 10);
    assert_eq!(c.advance("newer", 15), Ok(()));
    assert_eq!(c.floor(), 15);
}

#[test]
fn advance_evicts_batches_at_or_below_floor() {
    let mut c = cache_at(10);
    let fetched: Vec<Option<BatchData>> = (11..=15).map(|n| Some(batch(n, vec![]))).collect();
    assert_eq!(c.preload_pass(15, &fetched), 5);
    assert_eq!(c.advance("s", 13), Ok(()));
    assert_eq!(c.pending_batches(), vec![14, 15]);
    assert!(c.pending_batches().iter().all(|&n| n > c.floor()));
    assert_eq!(c.advance("s", 20), Ok(()));
    assert!(c.pending_batches().is_empty());
    assert_eq!(c.next_to_preload(), 21);
}

#[test]
fn insert_out_of_order_is_refused() {
    let mut c = cache_at(10);
    assert_eq!(
        c.insert_preloaded(10, batch(10, vec![])),
        Err(SyncError::OutOfOrder { batch: 10, next: 11 })
    );
    assert_eq!(c.insert_preloaded(12, batch(12, vec![])), Ok(()));
    assert_eq!(
        c.insert_preloaded(11, batch(11, vec![])),
        Err(SyncError::OutOfOrder { batch: 11, next: 13 })
    );
    assert_eq!(c.pending_batches(), vec![12]);
}

#[test]
fn caught_up_needs_snapshot_and_last_ready() {
    let mut c = cache_at(10);
    assert_eq!(c.insert_preloaded(11, batch(11, vec![])), Ok(()));
    assert!(c.is_caught_up(10, Some(11), 11));
    assert!(!c.is_caught_up(10, Some(10), 11));
    assert!(!c.is_caught_up(10, None, 11));
    assert!(!c.is_caught_up(10, Some(11), 12));
    assert!(!c.is_caught_up(u32::MAX, Some(0), 11));
}

#[test]
fn top_floor_has_no_next_batch_in_range() {
    let mut c = cache_at(u32::MAX);
    assert_eq!(c.next_to_preload(), 1u64 << 32);
    assert_eq!(c.preload_pass(u32::MAX, &vec![Some(batch(0, vec![]))]), 0);
    assert!(c.resolve_view(u32::MAX).is_some());
}

#[test]
fn wallet_types_differ() {
    assert_ne!(WalletType::Governor, WalletType::Deployer);
}

#[test]
fn usable_for_floor_and_preloaded_batches_only() {
    let mut c = cache_at(4);
    assert_eq!(c.insert_preloaded(5, batch(5, vec![])), Ok(()));
    assert!(c.can_be_used_for_batch(4));
    assert!(c.can_be_used_for_batch(5));
    assert!(!c.can_be_used_for_batch(3));
    assert!(!c.can_be_used_for_batch(6));
}
