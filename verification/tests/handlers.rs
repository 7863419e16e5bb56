use dex_simulator_core::event::{EventEnvelope, EventKind};
use dex_simulator_core::listen::build_mock_events;
use dex_simulator_core::num::U256;
use dex_simulator_core::pancake_v2::handler::{PancakeV2Config, PancakeV2EventHandler};
use dex_simulator_core::pancake_v2::state::PancakeV2PoolState;
use dex_simulator_core::pancake_v3::event::initialize_topic;
use dex_simulator_core::pancake_v3::handler::{PancakeV3Config, PancakeV3EventHandler, PoolBootstrap};
use dex_simulator_core::pancake_v3::state::PancakeV3PoolState;
use dex_simulator_core::repository::{InMemorySnapshotStore, PoolRepository, PoolStores, SnapshotStore};
use dex_simulator_core::snapshot_files::snapshot_file_name;
use dex_simulator_core::types::{Address, Asset, ChainNamespace, PoolIdentifier, PoolType, H256};

/// The 32-byte big-endian ABI word of a number.
fn uint_word(n: &U256) -> Vec<u8> {
    let mut out = Vec::new();
    for limb in n.0.iter().rev() {
        out.extend_from_slice(&limb.to_be_bytes());
    }
    out
}

/// The ABI encoding of a list of numbers.
fn encode_words(values: &[U256]) -> Vec<u8> {
    values.iter().flat_map(uint_word).collect()
}

/// The address a hex text names.
fn parse_address(text: &str) -> Result<Address, String> {
    text.parse::<ethers::types::Address>().map(|a| Address(a.0)).map_err(|e| e.to_string())
}

fn v2_config() -> PancakeV2Config {
    PancakeV2Config {
        chain_id: 56,
        dex: "pancake_v2".into(),
        factory_address: parse_address("0xcA143Ce32Fe78f1f7019d7d551a6402fC5350c73").unwrap(),
        default_decimals: 18,
        token_whitelist: None,
    }
}

fn pair_id() -> PoolIdentifier {
    PoolIdentifier {
        chain_namespace: ChainNamespace::Evm,
        chain_id: 56,
        dex: "pancake_v2".into(),
        address: parse_address("0x000000000000000000000000000000000000abcd").unwrap(),
        pool_type: PoolType::PancakeV2,
    }
}

#[test]
fn v2_handler_replays_the_sample_stream() {
    let events = build_mock_events(2).unwrap();
    let mut tx_last = [0u8; 32];
    tx_last[31] = 1;
    assert_eq!(events[0].transaction_hash, H256(tx_last));

    let mut handler = PancakeV2EventHandler::new(v2_config());
    let mut stores = PoolStores::new(Some(InMemorySnapshotStore::new()));
    for event in &events {
        handler.handle_event(&mut stores, event).expect("event handled");
    }
    let snapshot = stores.repository.get(&pair_id()).unwrap().expect("pair stored");
    let state = PancakeV2PoolState::from_snapshot(&snapshot).unwrap();
    assert_eq!(state.reserve0(), 1_100_000_000_000_000_000);
    assert_eq!(state.reserve1(), 455_000_000_000_000_000);
    assert_eq!(state.token0().symbol, "T0-000000");
    assert_eq!(state.token1().symbol, "T1-000000");
    let saved = stores.snapshot_store.as_ref().unwrap().load(&pair_id()).unwrap().unwrap();
    assert_eq!(PancakeV2PoolState::from_snapshot(&saved).unwrap().reserve1(), 455_000_000_000_000_000);
    assert!(handler.token_graph.tracked_pools().contains(&pair_id()));
}

#[test]
fn v2_handler_ignores_other_factories() {
    let mut config = v2_config();
    config.factory_address = Address([9; 20]);
    let mut handler = PancakeV2EventHandler::new(config);
    let mut stores = PoolStores::new(None);
    let events = build_mock_events(0).unwrap();
    handler.handle_event(&mut stores, &events[0]).unwrap();
    assert!(stores.repository.list().unwrap().is_empty());
    assert_eq!(handler.factory_address(), Some(Address([9; 20])));
    assert_eq!(PancakeV2EventHandler::new(PancakeV2Config::default()).factory_address(), None);
}

fn token(byte: u8, symbol: &str) -> Asset {
    Asset { address: Address([byte; 20]), symbol: symbol.into(), decimals: 18 }
}

#[test]
fn v3_handler_initializes_bootstrapped_pool() {
    let pool = Address([0x55; 20]);
    let handler = PancakeV3EventHandler::new(
        PancakeV3Config::default(),
        vec![PoolBootstrap { pool, token0: token(1, "A"), token1: token(2, "B") }],
    );
    assert_eq!(handler.tracked_pools(), vec![pool]);
    let mut stores = PoolStores::new(None);
    let event = EventEnvelope {
        kind: EventKind::Sync,
        block_number: 9,
        block_hash: None,
        block_timestamp: None,
        transaction_hash: H256::zero(),
        log_index: 0,
        address: pool,
        topics: vec![initialize_topic()],
        payload: encode_words(&[U256::from_u128(1u128 << 96), U256::from_u64(7)]),
    };
    assert!(handler.matches(&event));
    handler.handle_event_checked(&mut stores, &event).expect("fits").expect("handled");
    let stored = stores.repository.list().unwrap();
    assert_eq!(stored.len(), 1);
    let state = PancakeV3PoolState::from_snapshot(&stored[0]).unwrap();
    assert_eq!(state.sqrt_price_x96(), U256::from_u128(1u128 << 96));
    assert_eq!(state.current_tick(), 7);

    let unknown = EventEnvelope { address: Address([0x66; 20]), ..event };
    match handler.handle_event_checked(&mut stores, &unknown).expect("fits") {
        Err(dex_simulator_core::event::EventListenerError::Internal(m)) => assert_eq!(m, "缺少池子元数据"),
        other => panic!("unexpected outcome: {:?}", other),
    }
    assert_eq!(stores.repository.list().unwrap().len(), 1);
}

#[test]
fn snapshot_file_name_of_other_pool_type() {
    let id = PoolIdentifier {
        chain_namespace: ChainNamespace::Evm,
        chain_id: 1,
        dex: "curve".into(),
        address: Address([0; 20]),
        pool_type: PoolType::Other("StableSwap".into()),
    };
    assert_eq!(
        snapshot_file_name(&id),
        "1_curve_0x0000000000000000000000000000000000000000000000000000000000000000_other__stableswap__.yaml"
    );
}
