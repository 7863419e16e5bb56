use dex_simulator_core::event::{EventEnvelope, EventKind, EventListenerError, EventModel};
use dex_simulator_core::repository::PoolStores;
use dex_simulator_core::router::{DexEventHandler, DexEventRouter};
use dex_simulator_core::token_graph::TokenGraph;
use dex_simulator_core::types::{Address, Asset, ChainNamespace, PoolIdentifier, PoolType, H256};

fn addr(byte: u8) -> Address {
    Address([byte; 20])
}

fn asset(byte: u8) -> Asset {
    Asset { address: addr(byte), symbol: format!("T{}", byte), decimals: 18 }
}

fn pool(id: u8) -> PoolIdentifier {
    PoolIdentifier {
        chain_namespace: ChainNamespace::Evm,
        chain_id: 56,
        dex: "pancake".into(),
        address: addr(id),
        pool_type: PoolType::PancakeV2,
    }
}

#[test]
fn test_add_pool_and_connectivity() {
    let mut graph = TokenGraph::new();
    graph.add_pool(pool(1), vec![asset(1), asset(2)]);
    graph.add_pool(pool(2), vec![asset(2), asset(3)]);

    let whitelist = vec![asset(1).address];
    assert!(graph.is_connected_to_whitelist(asset(3).address, &whitelist));
    assert!(graph.tracked_pools().contains(&pool(1)));
    assert!(graph.tracked_pools().contains(&pool(2)));
}

#[test]
fn test_find_paths() {
    let mut graph = TokenGraph::new();
    let pools = [pool(1), pool(2)];
    graph.add_pool(pools[0].clone(), vec![asset(1), asset(2)]);
    graph.add_pool(pools[1].clone(), vec![asset(2), asset(3)]);

    let paths = graph.find_paths(asset(1).address, asset(3).address, 3);
    assert_eq!(paths.len(), 1);
    let hop = &paths[0];
    assert_eq!(hop.len(), 2);
    assert_eq!(hop[0].pool, pools[0]);
    assert_eq!(hop[1].pool, pools[1]);
}

struct CountingHandler {
    address: Address,
    counter: u32,
    fails: bool,
}

impl DexEventHandler for CountingHandler {
    fn ready(&self) -> bool {
        true
    }

    fn recognizes(&self, _e: EventModel) -> bool {
        true
    }

    fn handled(
        &self,
        _after: &Self,
        _before: PoolStores,
        _now: PoolStores,
        _e: EventModel,
        _r: Option<Result<(), EventListenerError>>,
    ) -> bool {
        true
    }

    fn handle_envelope(
        &mut self,
        _stores: &mut PoolStores,
        _envelope: &EventEnvelope,
    ) -> Option<Result<(), EventListenerError>> {
        self.counter += 1;
        if self.fails {
            Some(Err(EventListenerError::Decode("refused".to_string())))
        } else {
            Some(Ok(()))
        }
    }

    fn matches(&self, envelope: &EventEnvelope) -> bool {
        envelope.address == self.address
    }
}

fn envelope_from(address: Address, kind: EventKind) -> EventEnvelope {
    EventEnvelope {
        kind,
        block_number: 1,
        block_hash: None,
        block_timestamp: None,
        transaction_hash: H256::zero(),
        log_index: 0,
        address,
        topics: vec![],
        payload: vec![],
    }
}

#[test]
fn test_dispatch() {
    let handler = CountingHandler { address: Address::repeat_byte(0x11), counter: 0, fails: false };
    let mut router = DexEventRouter::with_handlers(vec![handler]);
    let mut stores = PoolStores::new(None);

    let envelope = envelope_from(Address::repeat_byte(0x11), EventKind::Unknown);
    router.dispatch(&mut stores, &envelope).unwrap().unwrap();
    assert_eq!(router.handlers[0].counter, 1);
}

#[test]
fn test_router_dispatch_v2_and_v3() {
    let addr_v2 = Address::repeat_byte(0x11);
    let addr_v3 = Address::repeat_byte(0x22);
    let handler_v2 = CountingHandler { address: addr_v2, counter: 0, fails: false };
    let handler_v3 = CountingHandler { address: addr_v3, counter: 0, fails: false };
    let mut router = DexEventRouter::with_handlers(vec![handler_v2, handler_v3]);
    let mut stores = PoolStores::new(None);

    let envelope_v2 = envelope_from(addr_v2, EventKind::Swap);
    let envelope_v3 = envelope_from(addr_v3, EventKind::Swap);

    router.dispatch(&mut stores, &envelope_v2).unwrap().unwrap();
    router.dispatch(&mut stores, &envelope_v3).unwrap().unwrap();

    assert_eq!(router.handlers[0].counter, 1);
    assert_eq!(router.handlers[1].counter, 1);
}

#[test]
fn router_leaves_unmatched_logs_alone() {
    let handler = CountingHandler { address: addr(0x11), counter: 0, fails: false };
    let mut router = DexEventRouter::with_handlers(vec![handler]);
    let mut stores = PoolStores::new(None);
    let envelope = envelope_from(addr(0x99), EventKind::Swap);
    assert!(matches!(router.dispatch(&mut stores, &envelope), Some(Ok(()))));
    assert_eq!(router.handlers[0].counter, 0);
    assert!(stores.snapshot_store.is_none());
}

#[test]
fn router_stops_at_the_first_error() {
    let first = CountingHandler { address: addr(0x11), counter: 0, fails: true };
    let second = CountingHandler { address: addr(0x11), counter: 0, fails: false };
    let mut router = DexEventRouter::with_handlers(vec![first, second]);
    let mut stores = PoolStores::new(None);
    let envelope = envelope_from(addr(0x11), EventKind::Swap);
    assert!(matches!(
        router.dispatch(&mut stores, &envelope),
        Some(Err(EventListenerError::Decode(_)))
    ));
    assert_eq!(router.handlers[0].counter, 1);
    assert_eq!(router.handlers[1].counter, 0);
}

#[test]
fn router_offers_logs_to_a_registered_handler() {
    let mut router = DexEventRouter::new();
    router.register(CountingHandler { address: addr(0x11), counter: 0, fails: false });
    router.register(CountingHandler { address: addr(0x22), counter: 0, fails: false });
    let mut stores = PoolStores::new(None);
    let envelope = envelope_from(addr(0x22), EventKind::Sync);
    assert!(matches!(router.dispatch(&mut stores, &envelope), Some(Ok(()))));
    assert_eq!(router.handlers[0].counter, 0);
    assert_eq!(router.handlers[1].counter, 1);
}

#[test]
fn three_token_pool_routes_come_shortest_first() {
    let mut graph = TokenGraph::new();
    graph.add_pool(pool(7), vec![asset(1), asset(2), asset(3)]);
    let paths = graph.find_paths(asset(1).address, asset(3).address, 2);
    assert_eq!(paths.len(), 2);
    assert_eq!(paths[0].len(), 1);
    assert_eq!(paths[0][0].input, asset(1));
    assert_eq!(paths[0][0].output, asset(3));
    assert_eq!(paths[1].len(), 2);
    assert_eq!(paths[1][0].output, asset(2));
    assert_eq!(paths[1][1].input, asset(2));
    assert_eq!(paths[1][1].output, asset(3));
    assert!(paths.iter().all(|p| p.iter().all(|s| s.pool == pool(7))));
    let direct = graph.find_paths(asset(1).address, asset(3).address, 1);
    assert_eq!(direct.len(), 1);
}

#[test]
fn re_adding_a_pool_repeats_its_routes() {
    let mut graph = TokenGraph::new();
    graph.add_pool(pool(1), vec![asset(1), asset(2)]);
    graph.add_pool(pool(1), vec![asset(1), asset(2)]);
    let paths = graph.find_paths(asset(1).address, asset(2).address, 1);
    assert_eq!(paths.len(), 2);
    assert_eq!(graph.tracked_pools().len(), 1);
}
