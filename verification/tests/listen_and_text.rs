use dex_simulator_core::abi::{format_address, topic};
use dex_simulator_core::assoc::AssocList;
use dex_simulator_core::bootstrap::{
    v2_pools_from_configs, BootstrapError, TokenMeta, V2BootstrapPool, V2BootstrapPoolConfig,
    V3BootstrapPool,
};
use dex_simulator_core::event::{EventEnvelope, EventKind, EventListenerError};
use dex_simulator_core::listen::{
    build_mock_events, build_subscription_metadata, to_internal, InitPlan, LoggingEventSink,
    PoolInitPlanner,
};
use dex_simulator_core::pancake_v2::event::{pair_created_topic, swap_topic, sync_topic};
use dex_simulator_core::pancake_v2::state::PancakeV2PoolState;
use dex_simulator_core::repository::{InMemoryPoolRepository, PoolRepository};
use dex_simulator_core::text::{u128_text, u64_text};
use dex_simulator_core::types::{Address, Asset, ChainNamespace, PoolIdentifier, PoolType, H256};
use dex_simulator_core::utils::{
    format_identifier, parse_address_list, parse_pool_identifier, parse_u64, pool_type_from_label,
    pool_type_label, sample_pool, split_text,
};

/// The address a hex text names.
fn parse_address(text: &str) -> Result<Address, String> {
    text.parse::<ethers::types::Address>().map(|a| Address(a.0)).map_err(|e| e.to_string())
}

fn addr(byte: u8) -> Address {
    Address([byte; 20])
}

fn token(byte: u8, symbol: &str) -> Asset {
    Asset { address: addr(byte), symbol: symbol.into(), decimals: 18 }
}

fn log_of(kind: EventKind, address: Address, block: u64) -> EventEnvelope {
    EventEnvelope {
        kind,
        block_number: block,
        block_hash: None,
        block_timestamp: None,
        transaction_hash: H256::zero(),
        log_index: 0,
        address,
        topics: vec![],
        payload: vec![],
    }
}

#[test]
fn mock_stream_has_setup_then_swaps() {
    let events = build_mock_events(3).expect("sample addresses read");
    assert_eq!(events.len(), 3 + 2 * 3);
    assert_eq!(events[0].kind, EventKind::PairCreated);
    assert_eq!(events[0].topics[0], pair_created_topic());
    assert_eq!(events[1].kind, EventKind::Mint);
    assert_eq!(events[2].kind, EventKind::Sync);
    for k in 0..3 {
        assert_eq!(events[3 + 2 * k].kind, EventKind::Swap);
        assert_eq!(events[3 + 2 * k].topics[0], swap_topic());
        assert_eq!(events[4 + 2 * k].kind, EventKind::Sync);
        assert_eq!(events[4 + 2 * k].topics[0], sync_topic());
    }
    let pair = parse_address("0x000000000000000000000000000000000000abcd").unwrap();
    assert!(events[1..].iter().all(|e| e.address == pair));
    assert_eq!(build_mock_events(0).unwrap().len(), 3);
}

#[test]
fn subscription_metadata_is_sorted_and_labelled() {
    let v2 = vec![
        V2BootstrapPool { pool: addr(9), token0: token(1, "A"), token1: token(2, "B") },
        V2BootstrapPool { pool: addr(3), token0: token(1, "A"), token1: token(2, "B") },
    ];
    let v3 = vec![V3BootstrapPool { pool: addr(5), token0: token(1, "A"), token1: token(2, "B") }];
    let meta = build_subscription_metadata(&vec![], &v2, &v3);
    assert_eq!(meta.addresses, vec![addr(3), addr(5), addr(9)]);
    assert!(meta.topics.windows(2).all(|w| w[0].0 < w[1].0));
    assert_eq!(meta.topics.len(), 10);
    assert_eq!(meta.topic_kinds.get(&swap_topic()).copied(), Some(EventKind::Swap));
    assert_eq!(meta.pool_labels.get(&addr(9)).map(|s| s.as_str()), Some("pancake_v2"));
    assert_eq!(meta.pool_labels.get(&addr(5)).map(|s| s.as_str()), Some("pancake_v3"));
    let sink = LoggingEventSink::new(meta.pool_labels);
    assert_eq!(sink.label_for(&addr(3)), "pancake_v2");
    assert_eq!(sink.label_for(&addr(77)), "unknown");
}

#[test]
fn planner_decides_fetches() {
    let mut labels = AssocList::new();
    labels.insert(addr(9), "pancake_v2".to_string());
    let mut v2_tokens = AssocList::new();
    v2_tokens.insert(addr(9), (token(1, "A"), token(2, "B")));
    let mut v3_pools = AssocList::new();
    v3_pools.insert(addr(5), V3BootstrapPool { pool: addr(5), token0: token(1, "A"), token1: token(2, "B") });
    let planner = PoolInitPlanner { chain_id: 56, pool_labels: labels, v2_tokens: Some(v2_tokens), v3_pools };
    let repo = InMemoryPoolRepository::new();
    assert_eq!(planner.detect_pool_type(&addr(9)), Some(PoolType::PancakeV2));
    assert_eq!(planner.detect_pool_type(&addr(5)), Some(PoolType::PancakeV3));
    assert_eq!(planner.detect_pool_type(&addr(1)), None);
    assert!(matches!(planner.plan(&repo, true, &log_of(EventKind::PairCreated, addr(9), 4)), InitPlan::Ready));
    assert!(matches!(planner.plan(&repo, false, &log_of(EventKind::Swap, addr(9), 4)), InitPlan::NoFetcher));
    match planner.plan(&repo, true, &log_of(EventKind::Swap, addr(9), 4)) {
        InitPlan::FetchV2 { pool, block } => {
            assert_eq!(pool.pool, addr(9));
            assert_eq!(block, Some(3));
        }
        other => panic!("unexpected plan: {:?}", other),
    }
    match planner.plan(&repo, true, &log_of(EventKind::Swap, addr(5), 0)) {
        InitPlan::FetchV3 { pool, block } => {
            assert_eq!(pool.pool, addr(5));
            assert_eq!(block, None);
        }
        other => panic!("unexpected plan: {:?}", other),
    }
    assert!(matches!(planner.plan(&repo, true, &log_of(EventKind::Swap, addr(1), 4)), InitPlan::Ready));

    let mut stored = InMemoryPoolRepository::new();
    let id = PoolIdentifier {
        chain_namespace: ChainNamespace::Evm,
        chain_id: 56,
        dex: "pancake_v2".into(),
        address: addr(9),
        pool_type: PoolType::PancakeV2,
    };
    let state = PancakeV2PoolState::new(id, token(1, "A"), token(2, "B"));
    stored.upsert(state.to_snapshot().unwrap()).unwrap();
    assert!(matches!(planner.plan(&stored, true, &log_of(EventKind::Swap, addr(9), 4)), InitPlan::Ready));
}

#[test]
fn internal_errors_carry_their_text() {
    assert!(matches!(to_internal("boom".into()), EventListenerError::Internal(m) if m == "boom"));
    assert_eq!(EventListenerError::Decode("x".into()).message(), "解码失败: x");
}

#[test]
fn identifiers_round_trip_through_text() {
    let (id, token0, token1) = sample_pool(56);
    assert_eq!(token0.symbol, "WBNB");
    assert_eq!(token1.symbol, "BUSD");
    let text = format_identifier(&id);
    assert_eq!(text, "56:pancake_v2:0x000000000000000000000000000000000000abcd:pancake_v2");
    let back = parse_pool_identifier(&text).unwrap();
    assert_eq!(back.chain_id, 56);
    assert_eq!(back.address, id.address);
    assert_eq!(back.dex, "pancake_v2");
    assert_eq!(back, id);
    let typed = parse_pool_identifier("1::0x0000000000000000000000000000000000000001:pancake_v3").unwrap();
    assert_eq!(typed.pool_type, PoolType::PancakeV3);
    assert_eq!(typed.dex, "pancake_v3");
    assert!(parse_pool_identifier("1:dex:nothex:pancake_v3").is_none());
    assert!(parse_pool_identifier("x:dex:0x0000000000000000000000000000000000000001:v2").is_none());
    assert!(parse_pool_identifier("1:dex:0x0000000000000000000000000000000000000001").is_none());
}

#[test]
fn labels_and_numbers_as_text() {
    assert_eq!(pool_type_label(&PoolType::PancakeV2), "pancake_v2");
    assert_eq!(pool_type_label(&PoolType::UniswapV2), "uniswap_v2");
    assert_eq!(pool_type_label(&PoolType::Other("curve".into())), "other");
    assert_eq!(pool_type_from_label("uniswap_v3"), PoolType::UniswapV3);
    assert_eq!(pool_type_from_label("curve"), PoolType::Other("curve".into()));
    assert_eq!(parse_u64("+42"), Some(42));
    assert_eq!(parse_u64("18446744073709551615"), Some(u64::MAX));
    assert_eq!(parse_u64("18446744073709551616"), None);
    assert_eq!(parse_u64(""), None);
    assert_eq!(parse_u64("4a"), None);
    assert_eq!(u64_text(0), "0");
    assert_eq!(u128_text(340282366920938463463374607431768211455), "340282366920938463463374607431768211455");
    assert_eq!(split_text("a::b", ':'), vec!["a".to_string(), "".into(), "b".into()]);
    assert_eq!(split_text("", ':'), vec!["".to_string()]);
}

#[test]
fn addresses_as_text() {
    let list = vec!["0x00000000000000000000000000000000000000aB".to_string()];
    let a = parse_address_list(Some(&list)).unwrap()[0];
    assert_eq!(a, Address([0, 0, 0, 0, 0, 0, 0, 0, 0, 0, 0, 0, 0, 0, 0, 0, 0, 0, 0, 0xab]));
    assert_eq!(format_address(a), "0x00000000000000000000000000000000000000ab");
    let short = TokenMeta { address: "0x123".into(), symbol: "X".into(), decimals: 1 };
    assert!(matches!(short.to_asset(), Err(BootstrapError::Address(_))));
    let list = vec!["0x0000000000000000000000000000000000000001".to_string(), "bad".into()];
    assert_eq!(parse_address_list(Some(&list)), Some(vec![Address([0, 0, 0, 0, 0, 0, 0, 0, 0, 0, 0, 0, 0, 0, 0, 0, 0, 0, 0, 1])]));
    assert_eq!(parse_address_list(Some(&vec!["bad".to_string()])), None);
    assert_eq!(parse_address_list(None), None);
}

#[test]
fn topics_are_keccak_of_signatures() {
    let t = topic("Transfer(address,address,uint256)");
    assert_eq!(
        format!("{:?}", t.0[..4].to_vec()),
        format!("{:?}", vec![0xddu8, 0xf2, 0x52, 0xad])
    );
}

#[test]
fn bootstrap_entries_become_pools() {
    let entry = V2BootstrapPoolConfig {
        pool: "0x0000000000000000000000000000000000000009".into(),
        token0: TokenMeta { address: "0x0000000000000000000000000000000000000001".into(), symbol: "A".into(), decimals: 18 },
        token1: TokenMeta { address: "0x0000000000000000000000000000000000000002".into(), symbol: "B".into(), decimals: 6 },
    };
    let pools = v2_pools_from_configs(&vec![entry.clone()]).unwrap();
    assert_eq!(pools.len(), 1);
    assert_eq!(pools[0].token1.decimals, 6);
    let mut bad = entry;
    bad.token0.address = "0xzz".into();
    assert!(matches!(v2_pools_from_configs(&vec![bad]), Err(BootstrapError::Address(_))));
}
