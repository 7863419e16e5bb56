use dex_simulator_core::assoc::AssocList;
use dex_simulator_core::bootstrap::{V2BootstrapPool, V3BootstrapPool};
use dex_simulator_core::config::{
    config_format, get_config, init_global_config, AppConfigError, ConfigFormat,
};
use dex_simulator_core::event::{
    EventEnvelope, EventKind, EventQueue, EventSource, EventStore, EventStoreError,
    InMemoryEventQueue, InMemoryEventStore, MockEventSource, QueueError, RocksDbEventStore,
};
use dex_simulator_core::event_source::{
    backfill_chunk_end, backfill_chunk_ends, backfill_start, event_interval_ms, next_backfill_block,
    next_ws_retry, ws_retry_bounds, EthersEventSourceConfig, EventNotice,
};
use dex_simulator_core::logging::{
    is_rotated_log, log_age_limit, log_size_limit, resolve_directive, rotated_name, should_rotate,
    trim_text, LogInitError,
};
use dex_simulator_core::num::U256;
use dex_simulator_core::onchain::{OnChainSnapshotError, OnChainStateFetcher};
use dex_simulator_core::pancake_v2::state::PancakeV2PoolState;
use dex_simulator_core::pancake_v3::state::PancakeV3PoolState;
use dex_simulator_core::repository::{
    InMemoryPoolRepository, InMemorySnapshotStore, PoolRepository, PoolStores, SnapshotStore,
};
use dex_simulator_core::serve::{
    default_pool_id, default_v2_amount, default_v3_amount, ensure_chain_supported, service_plan,
    ServicePlan,
};
use dex_simulator_core::snapshot_files::{sanitize, FileSnapshotStore};
use dex_simulator_core::state::StateError;
use dex_simulator_core::syncer::{
    sync_error_from_state, BasicStateSyncer, NullStateSyncer, StateSyncer, SyncError,
};
use dex_simulator_core::types::{Address, Asset, ChainNamespace, PoolIdentifier, PoolType, H256};

fn addr(byte: u8) -> Address {
    Address([byte; 20])
}

fn token(byte: u8, symbol: &str) -> Asset {
    Asset { address: addr(byte), symbol: symbol.into(), decimals: 18 }
}

fn event(block: u64) -> EventEnvelope {
    EventEnvelope {
        kind: EventKind::Sync,
        block_number: block,
        block_hash: None,
        block_timestamp: None,
        transaction_hash: H256::zero(),
        log_index: block,
        address: addr(1),
        topics: vec![],
        payload: vec![],
    }
}

fn v2_snapshot(byte: u8, reserve0: u128) -> dex_simulator_core::state::PoolSnapshot {
    let id = PoolIdentifier {
        chain_namespace: ChainNamespace::Evm,
        chain_id: 56,
        dex: "pancake_v2".into(),
        address: addr(byte),
        pool_type: PoolType::PancakeV2,
    };
    let mut state = PancakeV2PoolState::new(id, token(0x11, "A"), token(0x22, "B"));
    state.set_reserves(reserve0, 7);
    state.to_snapshot().unwrap()
}

#[test]
fn queue_is_first_in_first_out_and_closes() {
    let mut queue = InMemoryEventQueue::new();
    queue.enqueue(event(1)).unwrap();
    queue.enqueue(event(2)).unwrap();
    assert_eq!(queue.dequeue().unwrap().block_number, 1);
    queue.shutdown();
    assert!(matches!(queue.enqueue(event(3)), Err(QueueError::Closed)));
    assert_eq!(queue.dequeue().unwrap().block_number, 2);
    assert!(queue.dequeue().is_none());
    assert_eq!(QueueError::Closed.message(), "队列已关闭");
}

#[test]
fn store_loads_ranges_in_order() {
    let mut store = InMemoryEventStore::new();
    assert_eq!(store.last_block().unwrap(), None);
    for b in [5u64, 9, 7, 12] {
        store.append(&event(b)).unwrap();
    }
    let blocks: Vec<u64> =
        store.load_range(7, Some(10)).unwrap().iter().map(|e| e.block_number).collect();
    assert_eq!(blocks, vec![9, 7]);
    let open: Vec<u64> = store.load_range(8, None).unwrap().iter().map(|e| e.block_number).collect();
    assert_eq!(open, vec![9, 12]);
    assert_eq!(store.last_block().unwrap(), Some(12));
}

#[test]
fn rocksdb_store_is_not_available() {
    let mut store = RocksDbEventStore::new("data/events");
    match store.append(&event(1)) {
        Err(EventStoreError::Storage(m)) => {
            assert_eq!(m, "RocksDB 存储尚未启用，请在后续阶段实现")
        }
        other => panic!("unexpected: {:?}", other),
    }
    assert_eq!(store.last_block().unwrap(), None);
}

#[test]
fn mock_source_replays_in_order() {
    let mut source = MockEventSource::new(vec![event(1), event(2)]);
    source.push_events(vec![event(3)]);
    let mut seen = Vec::new();
    while let Some(e) = source.next_event().unwrap() {
        seen.push(e.block_number);
    }
    assert_eq!(seen, vec![1, 2, 3]);
    assert!(source.handle_disconnect().is_ok());
}

#[test]
fn repository_read_after_write_and_remove() {
    let mut repo = InMemoryPoolRepository::new();
    let first = v2_snapshot(0x33, 100);
    let id = first.id.clone();
    repo.upsert(first).unwrap();
    repo.upsert(v2_snapshot(0x33, 200)).unwrap();
    repo.upsert(v2_snapshot(0x44, 300)).unwrap();
    let stored = repo.get(&id).unwrap().unwrap();
    assert_eq!(PancakeV2PoolState::from_snapshot(&stored).unwrap().reserve0(), 200);
    assert_eq!(repo.list().unwrap().len(), 2);
    repo.remove(&id).unwrap();
    assert!(repo.get(&id).unwrap().is_none());
    assert_eq!(repo.list().unwrap().len(), 1);
}

#[test]
fn pool_stores_write_both() {
    let mut stores = PoolStores::new(Some(InMemorySnapshotStore::new()));
    let snap = v2_snapshot(0x33, 100);
    let id = snap.id.clone();
    stores.persist(snap).unwrap();
    assert!(stores.repository.get(&id).unwrap().is_some());
    assert!(stores.snapshot_store.as_ref().unwrap().load(&id).unwrap().is_some());
}

#[test]
fn null_syncer_reports_block_zero() {
    let mut syncer = NullStateSyncer;
    assert_eq!(syncer.incremental_sync().unwrap().last_synced_block, 0);
    assert!(syncer.full_resync(&v2_snapshot(0x33, 1).id).is_ok());
}

#[test]
fn basic_syncer_follows_store_and_snapshots() {
    let mut events = InMemoryEventStore::new();
    events.append(&event(40)).unwrap();
    events.append(&event(41)).unwrap();
    let mut snapshots = InMemorySnapshotStore::new();
    let snap = v2_snapshot(0x33, 500);
    let id = snap.id.clone();
    snapshots.save(&snap).unwrap();
    let mut repo = InMemoryPoolRepository::new();
    repo.upsert(v2_snapshot(0x33, 1)).unwrap();
    repo.upsert(v2_snapshot(0x44, 2)).unwrap();
    let mut syncer = BasicStateSyncer::new(events, repo, Some(snapshots));
    assert_eq!(syncer.last_synced_block, 0);
    assert_eq!(syncer.incremental_sync().unwrap().last_synced_block, 41);
    syncer.full_resync(&id).unwrap();
    let restored = syncer.pool_repository.get(&id).unwrap().unwrap();
    assert_eq!(PancakeV2PoolState::from_snapshot(&restored).unwrap().reserve0(), 500);
    assert_eq!(syncer.pool_repository.list().unwrap().len(), 2);
}

#[test]
fn sync_errors_from_state_errors() {
    assert!(matches!(sync_error_from_state(StateError::Io("disk".into())), SyncError::Storage(m) if m == "disk"));
    assert!(matches!(sync_error_from_state(StateError::Invalid("bad".into())), SyncError::Unknown(m) if m == "bad"));
    assert!(matches!(sync_error_from_state(StateError::NotFound), SyncError::Unknown(m) if m == "池子未找到"));
    let e: SyncError = EventStoreError::Storage("x".into()).into();
    assert!(matches!(e, SyncError::Storage(m) if m == "x"));
    assert_eq!(SyncError::Rpc("t".into()).message(), "RPC 交互失败: t");
}

#[test]
fn log_directive_from_file_or_level() {
    let text = "  info \n# comment\n\n dex=debug\r\n";
    assert_eq!(resolve_directive(Some(text), "warn"), "info,dex=debug");
    assert_eq!(resolve_directive(Some("# only\n  \n"), " warn "), "warn");
    assert_eq!(resolve_directive(None, "\tdebug\u{3000}"), "debug");
    assert_eq!(trim_text("\u{a0} x y \n"), "x y");
}

#[test]
fn log_rotation_limits() {
    assert_eq!(log_size_limit(0), u64::MAX);
    assert_eq!(log_size_limit(10), 10 * 1024 * 1024);
    assert_eq!(log_size_limit(u64::MAX), u64::MAX);
    assert_eq!(log_age_limit(0), None);
    assert_eq!(log_age_limit(2), Some(7200));
    assert!(should_rotate(100, 90, 20, None, 0));
    assert!(!should_rotate(u64::MAX, u64::MAX, 20, None, 0));
    assert!(should_rotate(u64::MAX, 0, 0, Some(60), 60));
    assert!(!should_rotate(100, 10, 10, Some(60), 59));
    assert_eq!(rotated_name("info.log", 1700000000), "info.log.1700000000");
    assert!(is_rotated_log("info.log.1700000000", "info.log"));
    assert!(!is_rotated_log("error.log", "info.log"));
    assert_eq!(LogInitError::Io("x".into()).message(), "日志 IO 操作失败: x");
}

#[test]
fn backfill_covers_blocks_in_chunks() {
    assert_eq!(backfill_start(100, 30), 70);
    assert_eq!(backfill_start(10, 30), 0);
    assert_eq!(backfill_chunk_end(70, 25, 100), 94);
    assert_eq!(backfill_chunk_end(95, 25, 100), 100);
    assert_eq!(backfill_chunk_end(5, 0, 100), 5);
    assert_eq!(next_backfill_block(94, 100), Some(95));
    assert_eq!(next_backfill_block(100, 100), None);
    assert_eq!(backfill_chunk_ends(70, 25, 100), vec![94, 100]);
    assert_eq!(backfill_chunk_ends(0, 1, 2), vec![0, 1, 2]);
    assert_eq!(backfill_chunk_ends(u64::MAX - 1, 10, u64::MAX), vec![u64::MAX]);
}

#[test]
fn reconnect_waits_double_up_to_the_limit() {
    assert_eq!(ws_retry_bounds(0), (1, 6));
    assert_eq!(ws_retry_bounds(5), (5, 30));
    assert_eq!(next_ws_retry(5, false, 5, 30), 10);
    assert_eq!(next_ws_retry(20, false, 5, 30), 30);
    assert_eq!(next_ws_retry(20, true, 5, 30), 5);
    assert_eq!(event_interval_ms(0, 500), 0);
    assert_eq!(event_interval_ms(400, 500), 100);
    assert_eq!(event_interval_ms(600, 500), 0);
}

#[test]
fn logs_become_events() {
    let mut config = EthersEventSourceConfig::default();
    assert_eq!(config.chunk_size, 1000);
    assert_eq!(config.retry_interval_secs, 5);
    assert_eq!(config.stats_event_interval, 100);
    let topic = H256([7; 32]);
    let mut kinds = AssocList::new();
    kinds.insert(topic, EventKind::Swap);
    config.topic_kinds = kinds;
    let e = config
        .envelope_from_log(None, Some(12), None, None, addr(9), vec![topic], vec![1, 2])
        .unwrap();
    assert_eq!(e.kind, EventKind::Swap);
    assert_eq!(e.block_number, 12);
    assert_eq!(e.log_index, 0);
    assert_eq!(e.transaction_hash, H256::zero());
    let other = config
        .envelope_from_log(Some(false), None, None, Some(3), addr(9), vec![H256([8; 32])], vec![])
        .unwrap();
    assert_eq!(other.kind, EventKind::Unknown);
    assert!(config
        .envelope_from_log(Some(true), Some(1), None, None, addr(9), vec![], vec![])
        .is_none());
    assert_eq!(config.event_notice(7, 6000), EventNotice::DelayWarning);
    assert_eq!(config.event_notice(200, 10), EventNotice::Stats);
    assert_eq!(config.event_notice(201, 10), EventNotice::Nothing);
}

#[test]
fn service_rules() {
    assert_eq!(default_pool_id(), "sample");
    assert_eq!(default_v2_amount(), 1_000_000_000_000_000_000);
    assert_eq!(default_v3_amount(), 1_000_000_000_000_000);
    assert!(ensure_chain_supported("bsc").is_ok());
    assert!(ensure_chain_supported("BsC").is_ok());
    let err = ensure_chain_supported("eth").unwrap_err();
    assert_eq!(err.status, 400);
    assert_eq!(err.message, "暂不支持链: eth");
    assert_eq!(service_plan(true, true, true, true), ServicePlan::DryRun);
    assert_eq!(service_plan(false, false, false, false), ServicePlan::NothingEnabled);
    assert_eq!(
        service_plan(false, false, true, true),
        ServicePlan::Start { listener: false, http: true, warn_metrics: true, shared_state: true }
    );
    assert_eq!(
        service_plan(false, false, false, true),
        ServicePlan::Start { listener: false, http: false, warn_metrics: true, shared_state: false }
    );
}

#[test]
fn onchain_reads_become_snapshots() {
    let fetcher = OnChainStateFetcher::new(56, "pancakeswap".into());
    let pool = V2BootstrapPool { pool: addr(0x33), token0: token(0x11, "A"), token1: token(0x22, "B") };
    let snap = fetcher
        .v2_snapshot_from_reads(&pool, 1_000, 2_000, Some(U256::from_u128(50)))
        .unwrap();
    assert_eq!(snap.id.dex, "pancake_v2");
    assert_eq!(snap.id.address, addr(0x33));
    let state = PancakeV2PoolState::from_snapshot(&snap).unwrap();
    assert_eq!((state.reserve0(), state.reserve1()), (1_000, 2_000));
    let too_big = U256([0, 0, 1, 0]);
    assert!(matches!(
        fetcher.v2_snapshot_from_reads(&pool, 1, 1, Some(too_big)),
        Err(OnChainSnapshotError::Conversion(_))
    ));
    assert!(fetcher.v2_snapshot_from_reads(&pool, 1, 1, None).is_ok());

    let v3 = V3BootstrapPool { pool: addr(0x55), token0: token(0x11, "A"), token1: token(0x22, "B") };
    let snap = fetcher
        .v3_snapshot_from_reads(&v3, U256::from_u128(1u128 << 96), -7, 900, U256::from_u128(10), U256::from_u128(20))
        .unwrap();
    let state = PancakeV3PoolState::from_snapshot(&snap).unwrap();
    assert_eq!(state.current_tick(), -7);
    assert_eq!(state.liquidity(), U256::from_u128(900));
    assert_eq!(state.reserves().get(&token(0x22, "B")).copied(), Some(20));
    assert!(matches!(
        fetcher.v3_snapshot_from_reads(&v3, U256::zero(), 0, 0, U256::zero(), too_big),
        Err(OnChainSnapshotError::Conversion(_))
    ));
    let id = fetcher.pool_identifier(addr(0x66), PoolType::UniswapV3);
    assert_eq!(id.dex, "pancakeswap");
    assert_eq!(id.chain_id, 56);
}

#[test]
fn snapshot_files_are_named_by_pool() {
    assert_eq!(sanitize("pancake-v2.x"), "pancake_v2_x");
    let id = PoolIdentifier {
        chain_namespace: ChainNamespace::Evm,
        chain_id: 56,
        dex: "pancake-v2".into(),
        address: addr(0xab),
        pool_type: PoolType::PancakeV2,
    };
    let store = FileSnapshotStore::new("data/snapshots".into());
    let name = store.snapshot_name(&id);
    assert_eq!(
        name,
        "56_pancake_v2_0x000000000000000000000000abababababababababababababababababababab_pancakev2.yaml"
    );
    assert_eq!(store.snapshot_path(&id), format!("data/snapshots/{}", name));
    assert_eq!(FileSnapshotStore::new("dir/".into()).snapshot_path(&id), format!("dir/{}", name));
    assert_eq!(FileSnapshotStore::new(String::new()).snapshot_path(&id), name);
}

#[test]
fn config_is_set_once() {
    assert_eq!(config_format(Some("yml")), ConfigFormat::Yaml);
    assert_eq!(config_format(Some("conf")), ConfigFormat::Toml);
    assert_eq!(config_format(None), ConfigFormat::Guess);
    let mut slot = None;
    assert_eq!(get_config(&slot).unwrap_err(), AppConfigError::Uninitialized);
    let base = dex_simulator_core::config::AppConfig {
        network: dex_simulator_core::config::NetworkConfig {
            chain_id: 56,
            ws_endpoint: "ws://a".into(),
            http_endpoint: "http://a".into(),
            event_backfill_blocks: 0,
            ws_retry_secs: 5,
            backfill_chunk_size: 1000,
        },
        logging: dex_simulator_core::config::LoggingConfig {
            config_file: None,
            level: "info".into(),
            directory: "logs".into(),
            max_size_mb: 50,
            retention_hours: 24,
        },
        runtime: dex_simulator_core::config::RuntimeConfig {
            max_concurrency: 1,
            snapshot_path: "data".into(),
            http_bind: "0.0.0.0:8080".into(),
        },
        tokens: Default::default(),
        dex: Default::default(),
        monitoring: Default::default(),
        services: Default::default(),
    };
    let mut second = base.clone();
    second.network.chain_id = 97;
    init_global_config(&mut slot, base).unwrap();
    assert_eq!(init_global_config(&mut slot, second), Err(AppConfigError::AlreadyInitialized));
    assert_eq!(get_config(&slot).unwrap().network.chain_id, 56);
}

#[test]
fn resync_twice_is_resync_once() {
    let mut snapshots = InMemorySnapshotStore::new();
    snapshots.save(&v2_snapshot(0x33, 500)).unwrap();
    let mut syncer = BasicStateSyncer::new(InMemoryEventStore::new(), InMemoryPoolRepository::new(), Some(snapshots));
    let id = v2_snapshot(0x33, 1).id;
    syncer.full_resync(&id).unwrap();
    let once = syncer.pool_repository.list().unwrap().len();
    syncer.full_resync(&id).unwrap();
    assert_eq!(syncer.pool_repository.list().unwrap().len(), once);
    assert_eq!(syncer.incremental_sync().unwrap().last_synced_block, 0);
    assert_eq!(syncer.incremental_sync().unwrap().last_synced_block, 0);
}
