use dex_simulator_core::abi::address_to_topic;
use dex_simulator_core::event::{EventEnvelope, EventKind};
use dex_simulator_core::num::U256;
use dex_simulator_core::pancake_v2::event::{swap_topic, PancakeV2Event};
use dex_simulator_core::pancake_v2::state::PancakeV2PoolState;
use dex_simulator_core::pancake_v3::event::{initialize_topic, mint_topic as v3_mint_topic, PancakeV3Event};
use dex_simulator_core::pancake_v3::state::PancakeV3PoolState;
use dex_simulator_core::types::{Address, Asset, ChainNamespace, PoolIdentifier, PoolType, H256};

fn random_address() -> Address {
    Address(ethers::types::Address::random().0)
}

fn addr(byte: u8) -> Address {
    Address([byte; 20])
}

fn u(n: u64) -> U256 {
    U256::from_u64(n)
}

/// The 32-byte big-endian ABI word of a number.
fn uint_word(n: &U256) -> Vec<u8> {
    let mut out = Vec::new();
    for limb in n.0.iter().rev() {
        out.extend_from_slice(&limb.to_be_bytes());
    }
    out
}

/// The ABI encoding of a list of numbers.
fn encode_words(values: &[U256]) -> Vec<u8> {
    values.iter().flat_map(uint_word).collect()
}

#[test]
fn test_parse_swap_event() {
    let pair = random_address();
    let sender = random_address();
    let to = random_address();
    let payload = encode_words(&[u(100), u(0), u(0), u(45)]);
    let event = EventEnvelope {
        kind: EventKind::Swap,
        block_number: 1,
        block_hash: None,
        block_timestamp: None,
        transaction_hash: H256::zero(),
        log_index: 0,
        address: pair,
        topics: vec![swap_topic(), address_to_topic(sender), address_to_topic(to)],
        payload,
    };
    let parsed = PancakeV2Event::try_from(&event).expect("swap 解析失败");
    match parsed {
        PancakeV2Event::Swap { pair: parsed_pair, amount0_in, amount1_out, .. } => {
            assert_eq!(parsed_pair, pair);
            assert_eq!(amount0_in, u(100));
            assert_eq!(amount1_out, u(45));
        }
        other => panic!("解析结果错误: {:?}", other),
    }
}

fn sample_assets() -> (Asset, Asset) {
    let token0 = Asset { address: addr(0x11), symbol: "TOKEN0".into(), decimals: 18 };
    let token1 = Asset { address: addr(0x22), symbol: "TOKEN1".into(), decimals: 18 };
    (token0, token1)
}

fn sample_pool_state(reserve0: u128, reserve1: u128) -> PancakeV2PoolState {
    let (token0, token1) = sample_assets();
    let pool_type = PoolType::PancakeV2;
    let id = PoolIdentifier {
        chain_namespace: ChainNamespace::Evm,
        chain_id: 56,
        dex: pool_type.label(),
        address: addr(0x33),
        pool_type,
    };
    let mut state = PancakeV2PoolState::new(id, token0, token1);
    state.set_reserves(reserve0, reserve1);
    state
}

#[test]
fn test_apply_swap_event() {
    let mut state = sample_pool_state(1_000_000, 500_000);
    let event = EventEnvelope {
        kind: EventKind::Swap,
        block_number: 1,
        block_hash: None,
        block_timestamp: None,
        transaction_hash: H256::zero(),
        log_index: 0,
        address: state.id().address,
        topics: vec![
            swap_topic(),
            address_to_topic(state.token0().address),
            address_to_topic(state.token1().address),
        ],
        payload: encode_words(&[u(100), U256::zero(), U256::zero(), u(45)]),
    };
    state.apply_event(&event).expect("事件应用失败");
    assert_eq!(state.reserve0(), 1_000_100);
    assert_eq!(state.reserve1(), 499_955);
}

#[test]
fn test_quote_swap() {
    let state = sample_pool_state(1_000_000_000_000u128, 500_000_000_000u128);
    let (amount_out, fee, next_state) =
        state.quote_swap(state.token0(), state.token1(), 100_000_000, 25).expect("quote 失败");
    assert!(amount_out > 0);
    assert!(fee > 0);
    let k_before = state.reserve0() * state.reserve1();
    let k_after = next_state.reserve0() * next_state.reserve1();
    assert!(k_after >= k_before);
}

/// The raw 256-bit word of a small negative number.
fn negative_word(magnitude: u64) -> U256 {
    U256([u64::MAX - (magnitude - 1), u64::MAX, u64::MAX, u64::MAX])
}

#[test]
fn test_parse_initialize() {
    let payload = encode_words(&[u(123), negative_word(5)]);
    let event = EventEnvelope {
        kind: EventKind::Unknown,
        block_number: 0,
        block_hash: None,
        block_timestamp: None,
        transaction_hash: H256::zero(),
        log_index: 0,
        address: Address::zero(),
        topics: vec![initialize_topic()],
        payload,
    };
    let parsed = PancakeV3Event::try_from(&event).expect("parse failed");
    match parsed {
        PancakeV3Event::Initialize { sqrt_price_x96, tick } => {
            assert_eq!(sqrt_price_x96, u(123));
            assert_eq!(tick, -5);
        }
        other => panic!("unexpected event: {:?}", other),
    }
}

fn v3_identifier() -> PoolIdentifier {
    let pool_type = PoolType::PancakeV3;
    PoolIdentifier {
        chain_namespace: ChainNamespace::Evm,
        chain_id: 56,
        dex: pool_type.label(),
        address: Address::repeat_byte(0x33),
        pool_type,
    }
}

#[test]
fn test_initialize_and_mint() {
    let (token0, token1) = sample_assets();
    let mut state = PancakeV3PoolState::new(v3_identifier(), token0.clone(), token1.clone());
    state
        .update_from_event(&PancakeV3Event::Initialize { sqrt_price_x96: u(1_000), tick: 10 })
        .unwrap();
    assert_eq!(state.sqrt_price_x96(), u(1_000));
    assert_eq!(state.current_tick(), 10);

    state
        .update_from_event(&PancakeV3Event::Mint {
            sender: Address::zero(),
            owner: Address::zero(),
            tick_lower: -60,
            tick_upper: 60,
            liquidity: u(1_000),
            amount0: u(500),
            amount1: u(600),
        })
        .unwrap();

    let reserves = state.reserves();
    assert_eq!(reserves.get(&token0).copied(), Some(500));
    assert_eq!(reserves.get(&token1).copied(), Some(600));
    assert_eq!(state.liquidity(), u(1_000));
}

#[test]
fn test_snapshot_roundtrip() {
    let (token0, token1) = sample_assets();
    let mut state = PancakeV3PoolState::new(v3_identifier(), token0, token1);
    state
        .update_from_event(&PancakeV3Event::Initialize { sqrt_price_x96: u(2_000), tick: -15 })
        .unwrap();
    state
        .update_from_event(&PancakeV3Event::Mint {
            sender: Address::zero(),
            owner: Address::zero(),
            tick_lower: -120,
            tick_upper: 120,
            liquidity: u(2_000),
            amount0: u(300),
            amount1: u(400),
        })
        .unwrap();
    state
        .update_from_event(&PancakeV3Event::Burn {
            owner: Address::zero(),
            tick_lower: -120,
            tick_upper: 120,
            liquidity: u(500),
            amount0: u(50),
            amount1: u(60),
        })
        .unwrap();

    let snapshot = state.snapshot();
    let restored = PancakeV3PoolState::from_snapshot(&snapshot).unwrap();
    assert_eq!(restored.sqrt_price_x96(), state.sqrt_price_x96());
    assert_eq!(restored.current_tick(), state.current_tick());
    assert_eq!(restored.liquidity(), state.liquidity());
}

fn word_topic(v: &U256) -> H256 {
    let bytes = uint_word(v);
    let mut out = [0u8; 32];
    out.copy_from_slice(&bytes);
    H256(out)
}

#[test]
fn parse_v3_mint_reads_signed_tick_topics() {
    let owner = addr(0x44);
    let sender = addr(0x55);
    let mut payload = vec![0u8; 12];
    payload.extend_from_slice(&sender.0);
    payload.extend(encode_words(&[u(1_000), u(500), u(600)]));
    let event = EventEnvelope {
        kind: EventKind::Mint,
        block_number: 3,
        block_hash: None,
        block_timestamp: None,
        transaction_hash: H256::zero(),
        log_index: 0,
        address: addr(0x33),
        topics: vec![v3_mint_topic(), address_to_topic(owner), word_topic(&negative_word(600)), word_topic(&u(600))],
        payload,
    };
    match PancakeV3Event::try_from(&event).expect("mint parses") {
        PancakeV3Event::Mint { sender: s, owner: o, tick_lower, tick_upper, liquidity, amount0, amount1 } => {
            assert_eq!(s, sender);
            assert_eq!(o, owner);
            assert_eq!(tick_lower, -600);
            assert_eq!(tick_upper, 600);
            assert_eq!(liquidity, u(1_000));
            assert_eq!(amount0, u(500));
            assert_eq!(amount1, u(600));
        }
        other => panic!("unexpected event: {:?}", other),
    }
}
