use dex_simulator_core::num::U256;
use dex_simulator_core::pancake_v2::calculator::PancakeV2SwapCalculator;
use dex_simulator_core::pancake_v2::state::PancakeV2PoolState;
use dex_simulator_core::pancake_v3::calculator::{quote_v3_swap, PancakeV3SwapCalculator};
use dex_simulator_core::pancake_v3::event::PancakeV3Event;
use dex_simulator_core::pancake_v3::state::PancakeV3PoolState;
use dex_simulator_core::repository::{InMemoryPoolRepository, PoolRepository};
use dex_simulator_core::setup::{
    amount_summary, build_graph_path, dump_identifier, seed_repository, simulation_identifier,
    v3_demo_components, AmountSummary,
};
use dex_simulator_core::simulation::{SimulationError, SwapCalculator, SwapSimulationRequest};
use dex_simulator_core::state::StateError;
use dex_simulator_core::types::{
    Address, Amount, Asset, ChainNamespace, PathLeg, PoolIdentifier, PoolType,
};
use dex_simulator_core::utils::sample_pool_identifier;

fn addr(byte: u8) -> Address {
    Address([byte; 20])
}

fn token(byte: u8, symbol: &str) -> Asset {
    Asset { address: addr(byte), symbol: symbol.into(), decimals: 18 }
}

fn v2_id(byte: u8) -> PoolIdentifier {
    PoolIdentifier {
        chain_namespace: ChainNamespace::Evm,
        chain_id: 56,
        dex: "pancake_v2".into(),
        address: addr(byte),
        pool_type: PoolType::PancakeV2,
    }
}

fn v2_repository() -> InMemoryPoolRepository {
    let mut repo = InMemoryPoolRepository::new();
    let mut state = PancakeV2PoolState::new(v2_id(0x33), token(0x11, "WBNB"), token(0x22, "BUSD"));
    state.set_reserves(1_000_000_000_000_000_000, 500_000_000_000_000_000);
    repo.upsert(state.to_snapshot().unwrap()).unwrap();
    repo
}

fn request(path: Vec<PathLeg>, amount: u128, min: Option<u128>) -> SwapSimulationRequest {
    SwapSimulationRequest {
        path,
        amount_in: Amount(amount),
        min_amount_out: min.map(Amount),
        sandbox: true,
    }
}

fn v2_leg() -> PathLeg {
    PathLeg { pool: v2_id(0x33), input: token(0x11, "WBNB"), output: token(0x22, "BUSD"), fee: None }
}

#[test]
fn v2_simulation_gives_constant_product_numbers() {
    let calculator = PancakeV2SwapCalculator::new(v2_repository(), 25);
    let result = calculator
        .simulate_checked(&request(vec![v2_leg()], 10_000_000_000_000_000, None))
        .expect("arithmetic fits")
        .expect("simulation succeeds");
    assert_eq!(result.amount_out, Amount(4_938_241_045_570_434));
    assert_eq!(result.fees_paid, Amount(25_000_000_000_000));
    assert_eq!(result.slippage_bps, 123);
    assert_eq!(result.snapshots.len(), 1);
    assert_eq!(result.executed_path.len(), 1);
    assert_eq!(result.step_names, vec!["WBNB->BUSD".to_string()]);
    let after = PancakeV2PoolState::from_snapshot(&result.snapshots[0]).unwrap();
    assert_eq!(after.reserve0(), 1_010_000_000_000_000_000);
    assert_eq!(after.reserve1(), 500_000_000_000_000_000 - 4_938_241_045_570_434);
}

#[test]
fn v2_simulation_through_the_trait_matches() {
    let calculator = PancakeV2SwapCalculator::new(v2_repository(), 25);
    let result = calculator
        .simulate(request(vec![v2_leg()], 10_000_000_000_000_000, None))
        .expect("simulation succeeds");
    assert_eq!(result.amount_out, Amount(4_938_241_045_570_434));
}

#[test]
fn v2_simulation_refuses_output_below_minimum() {
    let calculator = PancakeV2SwapCalculator::new(v2_repository(), 25);
    let outcome = calculator
        .simulate_checked(&request(vec![v2_leg()], 10_000_000_000_000_000, Some(5_000_000_000_000_000)))
        .expect("arithmetic fits");
    match outcome {
        Err(SimulationError::Calculation(m)) => {
            assert_eq!(m, "模拟输出 4938241045570434 低于最小要求 5000000000000000")
        }
        other => panic!("unexpected outcome: {:?}", other),
    }
}

#[test]
fn v2_simulation_of_unknown_pool_and_empty_path() {
    let calculator = PancakeV2SwapCalculator::new(v2_repository(), 25);
    let mut leg = v2_leg();
    leg.pool = v2_id(0x44);
    match calculator.simulate_checked(&request(vec![leg], 1_000, None)).unwrap() {
        Err(SimulationError::State(StateError::NotFound)) => {}
        other => panic!("unexpected outcome: {:?}", other),
    }
    match calculator.simulate_checked(&request(vec![], 1_000, None)).unwrap() {
        Err(SimulationError::InvalidPath) => {}
        other => panic!("unexpected outcome: {:?}", other),
    }
}

#[test]
fn v2_simulation_refuses_non_v2_pool() {
    let calculator = PancakeV2SwapCalculator::new(v2_repository(), 25);
    let mut leg = v2_leg();
    leg.pool.pool_type = PoolType::PancakeV3;
    match calculator.simulate_checked(&request(vec![leg], 1_000, None)).unwrap() {
        Err(SimulationError::Calculation(m)) => assert_eq!(m, "路径中包含非 Pancake V2 池子"),
        other => panic!("unexpected outcome: {:?}", other),
    }
}

fn v3_state() -> PancakeV3PoolState {
    let id = PoolIdentifier {
        chain_namespace: ChainNamespace::Evm,
        chain_id: 56,
        dex: "pancake_v3".into(),
        address: addr(0x55),
        pool_type: PoolType::PancakeV3,
    };
    let mut state = PancakeV3PoolState::new(id, token(0x11, "WBNB"), token(0x22, "USDT"));
    state
        .update_from_event(&PancakeV3Event::Initialize {
            sqrt_price_x96: U256::from_u128(1u128 << 96),
            tick: 0,
        })
        .unwrap();
    state.set_reserves(10_000_000, 10_000_000);
    state
}

#[test]
fn v3_quote_at_price_one() {
    let state = v3_state();
    let (out, fee) =
        quote_v3_swap(&state, &token(0x11, "WBNB"), &token(0x22, "USDT"), 1_000_000, 100).unwrap();
    assert_eq!(out, 990_000);
    assert_eq!(fee, 10_000);
    let (back, _) =
        quote_v3_swap(&state, &token(0x22, "USDT"), &token(0x11, "WBNB"), 1_000_000, 100).unwrap();
    assert_eq!(back, 990_000);
    match quote_v3_swap(&state, &token(0x11, "WBNB"), &token(0x77, "X"), 1_000, 100) {
        Err(SimulationError::Calculation(m)) => assert_eq!(m, "路径资产与池子不匹配"),
        other => panic!("unexpected quote: {:?}", other),
    }
}

#[test]
fn v3_simulation_on_stored_pool() {
    let state = v3_state();
    let mut repo = InMemoryPoolRepository::new();
    repo.upsert(state.snapshot()).unwrap();
    let calculator = PancakeV3SwapCalculator::new(repo);
    let leg = PathLeg {
        pool: state.id().clone(),
        input: token(0x11, "WBNB"),
        output: token(0x22, "USDT"),
        fee: Some(100),
    };
    let result = calculator
        .simulate_checked(&request(vec![leg], 1_000_000, None))
        .expect("arithmetic fits")
        .expect("simulation succeeds");
    assert_eq!(result.amount_out, Amount(990_000));
    assert_eq!(result.fees_paid, Amount(10_000));
}

#[test]
fn v3_demo_leg_names_the_pool_as_given() {
    let (id, repo, path) = v3_demo_components(false);
    assert_eq!(id.dex, "pancakeswap");
    assert_eq!(path.len(), 1);
    assert_eq!(path[0].fee, Some(100));
    assert_eq!(path[0].input.symbol, "WBNB");
    let stored = repo.list().unwrap();
    assert_eq!(stored.len(), 1);
    assert_eq!(stored[0].id.dex, "pancake_v3");
    let calculator = PancakeV3SwapCalculator::new(repo);
    match calculator.simulate_checked(&request(path, 1_000_000_000_000_000, None)).unwrap() {
        Err(SimulationError::State(StateError::NotFound)) => {}
        other => panic!("unexpected outcome: {:?}", other),
    }
    let (_, _, reversed) = v3_demo_components(true);
    assert_eq!(reversed[0].input.symbol, "USDT");
}

#[test]
fn sample_repository_gives_a_one_leg_path() {
    let mut repo = InMemoryPoolRepository::new();
    seed_repository(&mut repo, None, 56);
    let id = simulation_identifier("sample", 56).unwrap();
    assert_eq!(id, sample_pool_identifier(56));
    let path = build_graph_path(&repo, &id, 4).expect("path found");
    assert_eq!(path.len(), 1);
    assert_eq!(path[0].input.symbol, "WBNB");
    assert_eq!(path[0].output.symbol, "BUSD");
    assert_eq!(path[0].fee, None);
}

#[test]
fn graph_path_errors() {
    let repo = v2_repository();
    match build_graph_path(&repo, &v2_id(0x99), 4) {
        Err(SimulationError::State(StateError::NotFound)) => {}
        other => panic!("unexpected outcome: {:?}", other),
    }
    let mut mixed = v2_repository();
    mixed.upsert(v3_state().snapshot()).unwrap();
    match build_graph_path(&mixed, &v2_id(0x33), 4) {
        Err(SimulationError::State(StateError::Serialize(m))) => {
            assert_eq!(m, "快照不含 PancakeSwap V2 数据")
        }
        other => panic!("unexpected outcome: {:?}", other),
    }
}

#[test]
fn simulation_identifier_reads_text() {
    let id = simulation_identifier(
        "56:pancake:0x0000000000000000000000000000000000000033:pancake_v2",
        1,
    )
    .unwrap();
    let mut expected = v2_id(0x33);
    expected.dex = "pancake".into();
    let mut bytes = [0u8; 20];
    bytes[19] = 0x33;
    expected.address = Address(bytes);
    assert_eq!(id, expected);
    assert!(simulation_identifier("nonsense", 56).is_none());
}

#[test]
fn graph_path_needs_distinct_tokens_and_a_hop() {
    let repo = v2_repository();
    match build_graph_path(&repo, &v2_id(0x33), 0) {
        Err(SimulationError::Calculation(m)) => assert_eq!(m, "未找到有效路径"),
        other => panic!("unexpected outcome: {:?}", other),
    }
    let mut same = InMemoryPoolRepository::new();
    let mut state = PancakeV2PoolState::new(v2_id(0x66), token(0x11, "A"), token(0x11, "A"));
    state.set_reserves(10, 10);
    same.upsert(state.to_snapshot().unwrap()).unwrap();
    match build_graph_path(&same, &v2_id(0x66), 3) {
        Err(SimulationError::Calculation(m)) => assert_eq!(m, "未找到有效路径"),
        other => panic!("unexpected outcome: {:?}", other),
    }
}

#[test]
fn graph_path_prefers_fewest_hops() {
    let mut repo = v2_repository();
    let mut via = PancakeV2PoolState::new(v2_id(0x44), token(0x11, "WBNB"), token(0x77, "CAKE"));
    via.set_reserves(100, 100);
    repo.upsert(via.to_snapshot().unwrap()).unwrap();
    let mut back = PancakeV2PoolState::new(v2_id(0x45), token(0x77, "CAKE"), token(0x22, "BUSD"));
    back.set_reserves(100, 100);
    repo.upsert(back.to_snapshot().unwrap()).unwrap();
    let path = build_graph_path(&repo, &v2_id(0x33), 4).expect("path found");
    assert_eq!(path.len(), 1);
    assert_eq!(path[0].pool, v2_id(0x33));
}

#[test]
fn benchmark_amounts_summary() {
    assert_eq!(amount_summary(&vec![]), None);
    assert_eq!(
        amount_summary(&vec![7, 3, 10, 4]),
        Some(AmountSummary { min: 3, max: 10, avg: 6 })
    );
    assert_eq!(amount_summary(&vec![5]), Some(AmountSummary { min: 5, max: 5, avg: 5 }));
}

#[test]
fn dump_names_parsed_or_sample_pool() {
    assert_eq!(dump_identifier("garbage", 97), sample_pool_identifier(97));
    let id = dump_identifier("56:x:0x0000000000000000000000000000000000000033:pancake_v2", 1);
    assert_eq!(id.chain_id, 56);
    assert_eq!(id.dex, "x");
}

#[test]
fn larger_input_gives_no_less_output() {
    let mut state = PancakeV2PoolState::new(v2_id(0x33), token(0x11, "WBNB"), token(0x22, "BUSD"));
    state.set_reserves(1_000_000, 2_000_000);
    let mut last = 0u128;
    for amount in [1u128, 10, 1_000, 50_000, 999_999] {
        let (out, _, _) = state
            .quote_swap(&token(0x11, "WBNB"), &token(0x22, "BUSD"), amount, 25)
            .unwrap();
        assert!(out >= last);
        last = out;
    }
    assert_eq!(last, 998_747);
}

#[test]
fn v3_larger_input_gives_no_less_output() {
    let state = v3_state();
    let mut last = 0u128;
    for amount in [0u128, 1, 99, 100, 101, 10_000, 123_457] {
        let (out, _) = quote_v3_swap(&state, &token(0x22, "USDT"), &token(0x11, "WBNB"), amount, 30).unwrap();
        assert!(out >= last);
        last = out;
    }
    assert_eq!(last, 123_457 - 123_457 * 30 / 10_000);
}
