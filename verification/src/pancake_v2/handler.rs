//! The PancakeSwap V2 event handler: it tracks new pairs that join the
//! token whitelist and keeps each tracked pair's snapshot up to date.
use vstd::prelude::*;
use vstd::string::*;

use crate::abi::{hex_text, hex_upper};
use crate::event::{EventEnvelope, EventKind, EventListenerError, EventModel};
use crate::pancake_v2::calculator::{v2_snapshot_model, v2_state_from};
use crate::pancake_v2::event::{v2_parse_result, PancakeV2Event, PancakeV2EventError};
use crate::pancake_v2::state::{
    normalized_id, refreshed, v2_apply, with_reserves, ApplyOutcome, PancakeV2PoolState,
    V2StateModel,
};
use crate::repository::{lookup, persisted, PoolRepository, PoolStores};
use crate::state::{PoolSnapshot, SnapshotModel, StateError};
use crate::token_graph::{contains_address, in_list, pool_added, TokenGraph};
use crate::types::{
    Address, Asset, AssetModel, ChainNamespace, ChainNamespaceModel, PoolIdModel,
    PoolIdentifier, PoolType, PoolTypeModel,
};

verus! {

/// Settings of the V2 handler. A zero factory address accepts pairs of any
/// factory; a whitelist limits tracking to pairs joined to its tokens.
#[derive(Debug)]
pub struct PancakeV2Config {
    pub chain_id: u64,
    pub dex: String,
    pub factory_address: Address,
    pub default_decimals: u8,
    pub token_whitelist: Option<Vec<Address>>,
}

impl Default for PancakeV2Config {
    fn default() -> (r: PancakeV2Config)
        ensures
            r.chain_id == 56,
            r.dex@ == "pancakeswap"@,
            r.factory_address@ == seq![0u8; 20],
            r.default_decimals == 18,
            r.token_whitelist is None,
    {
        PancakeV2Config {
            chain_id: 56,
            dex: String::from_str("pancakeswap"),
            factory_address: Address::zero(),
            default_decimals: 18,
            token_whitelist: None,
        }
    }
}

/// The identifier the handler gives a pair.
pub open spec fn v2_pool_id(chain_id: u64, dex: Seq<char>, pair: Seq<u8>) -> PoolIdModel {
    PoolIdModel {
        chain_namespace: ChainNamespaceModel::Evm,
        chain_id,
        dex,
        address: pair,
        pool_type: PoolTypeModel::PancakeV2,
    }
}

/// The asset the handler makes for a token: the symbol is the prefix, `-`
/// and the first three address bytes in upper-case hexadecimal.
pub open spec fn v2_asset(address: Seq<u8>, prefix: Seq<char>, decimals: u8) -> AssetModel {
    AssetModel {
        address,
        symbol: prefix + "-"@ + hex_text(address.subrange(0, 3), true),
        decimals,
    }
}

/// The snapshot of a newly created pair: both reserves zero.
pub open spec fn created_snapshot(id: PoolIdModel, a0: AssetModel, a1: AssetModel) -> SnapshotModel {
    let s = V2StateModel {
        id: normalized_id(id, "pancake_v2"@),
        token0: a0,
        token1: a1,
        reserve0: 0,
        reserve1: 0,
        total_supply: None,
        reserves: Map::<AssetModel, u128>::empty().insert(a0, 0).insert(a1, 0),
    };
    v2_snapshot_model(refreshed(with_reserves(s, 0, 0)))
}

/// Whether a pair of these tokens is tracked: always without a whitelist,
/// else when one of its tokens reaches a whitelisted token in the graph.
pub open spec fn tracks(whitelist: Option<Vec<Address>>, g: TokenGraph, tokens: Seq<Seq<u8>>) -> bool {
    match whitelist {
        None => true,
        Some(wl) => exists|i: int, w: Seq<u8>|
            0 <= i < tokens.len() && in_list(wl@, w) && #[trigger] g.reaches(tokens[i], w),
    }
}

/// The addresses of an optional whitelist.
pub open spec fn whitelist_view(w: Option<Vec<Address>>) -> Option<Seq<Address>> {
    match w {
        Some(v) => Some(v@),
        None => None,
    }
}

/// The factory filter refuses the event's factory.
pub open spec fn factory_refused(configured: Seq<u8>, factory: Seq<u8>) -> bool {
    configured != seq![0u8; 20] && configured != factory
}

/// The pair an event of an existing pair is about.
pub open spec fn event_pair(e: PancakeV2Event) -> Seq<u8> {
    match e {
        PancakeV2Event::PairCreated { pair, .. } => pair@,
        PancakeV2Event::Mint { pair, .. } => pair@,
        PancakeV2Event::Burn { pair, .. } => pair@,
        PancakeV2Event::Swap { pair, .. } => pair@,
        PancakeV2Event::Sync { pair, .. } => pair@,
    }
}

/// What handling a parsed event does to the graph, the stores and the
/// result. A new pair of an accepted factory whose tokens are tracked is
/// added to the graph and stored with zero reserves. An event of a stored
/// pair is applied to its state and the new snapshot stored; an event of an
/// unknown pair is ignored; a stored snapshot without V2 data, or an event
/// that does not apply, is an internal error and changes nothing.
pub open spec fn v2_handled(
    cfg: PancakeV2Config,
    whitelist: Option<Vec<Address>>,
    g0: TokenGraph,
    g1: TokenGraph,
    c0: (Map<PoolIdModel, SnapshotModel>, Option<Map<PoolIdModel, SnapshotModel>>),
    c1: (Map<PoolIdModel, SnapshotModel>, Option<Map<PoolIdModel, SnapshotModel>>),
    event: PancakeV2Event,
    r: Result<(), EventListenerError>,
) -> bool {
    match event {
        PancakeV2Event::PairCreated { factory, token0, token1, pair, .. } => {
            let id = v2_pool_id(cfg.chain_id, cfg.dex@, pair@);
            let a0 = v2_asset(token0@, "T0"@, cfg.default_decimals);
            let a1 = v2_asset(token1@, "T1"@, cfg.default_decimals);
            if factory_refused(cfg.factory_address@, factory@) || !tracks(
                whitelist,
                g0,
                seq![token0@, token1@],
            ) {
                r is Ok && g1 == g0 && c1 == c0
            } else {
                r is Ok && c1 == persisted(c0, created_snapshot(id, a0, a1)) && pool_added(
                    g0,
                    g1,
                    id,
                    seq![a0, a1],
                )
            }
        },
        _ => {
            &&& g1 == g0
            &&& match lookup(c0.0, v2_pool_id(cfg.chain_id, cfg.dex@, event_pair(event))) {
                None => r is Ok && c1 == c0,
                Some(sm) => match v2_state_from(sm) {
                    None => r matches Err(EventListenerError::Internal(_)) && c1 == c0,
                    Some(s) => {
                        let (s2, outcome) = v2_apply(s, event);
                        if outcome == ApplyOutcome::Applied {
                            r is Ok && c1 == persisted(c0, v2_snapshot_model(s2))
                        } else {
                            r matches Err(EventListenerError::Internal(_)) && c1 == c0
                        }
                    },
                },
            }
        },
    }
}

/// Handles PancakeSwap V2 events.
#[derive(Debug)]
pub struct PancakeV2EventHandler {
    pub config: PancakeV2Config,
    pub token_graph: TokenGraph,
    pub token_whitelist: Option<Vec<Address>>,
}

fn copy_addresses(v: &Vec<Address>) -> (r: Vec<Address>)
    ensures
        r@ == v@,
{
    let mut out: Vec<Address> = Vec::new();
    let mut i: usize = 0;
    while i < v.len()
        invariant
            i <= v@.len(),
            out@ == v@.subrange(0, i as int),
        decreases v@.len() - i,
    {
        out.push(v[i]);
        i = i + 1;
        assert(out@ =~= v@.subrange(0, i as int));
    }
    assert(out@ =~= v@);
    out
}

impl PancakeV2EventHandler {
    /// A handler with an empty token graph; the whitelist is the
    /// configuration's.
    pub fn new(config: PancakeV2Config) -> (r: PancakeV2EventHandler)
        ensures
            r.config == config,
            r.token_graph.wf(),
            r.token_graph.pool_set() == Set::<PoolIdModel>::empty(),
            forall|a: Seq<u8>, b: Seq<u8>| !r.token_graph.has_edge(a, b),
            whitelist_view(r.token_whitelist) == whitelist_view(config.token_whitelist),
    {
        let whitelist = match &config.token_whitelist {
            Some(list) => Some(copy_addresses(list)),
            None => None,
        };
        PancakeV2EventHandler { config, token_graph: TokenGraph::new(), token_whitelist: whitelist }
    }

    /// The factory address, unless it is zero.
    pub fn factory_address(&self) -> (r: Option<Address>)
        ensures
            self.config.factory_address@ == seq![0u8; 20] ==> r is None,
            self.config.factory_address@ != seq![0u8; 20] ==> r == Some(self.config.factory_address),
    {
        if self.config.factory_address.is_zero() {
            None
        } else {
            Some(self.config.factory_address)
        }
    }

    fn pool_identifier(&self, pair: Address) -> (r: PoolIdentifier)
        ensures
            r@ == v2_pool_id(self.config.chain_id, self.config.dex@, pair@),
    {
        PoolIdentifier {
            chain_namespace: ChainNamespace::Evm,
            chain_id: self.config.chain_id,
            dex: self.config.dex.clone(),
            address: pair,
            pool_type: PoolType::PancakeV2,
        }
    }

    fn build_asset(&self, address: Address, prefix: &str) -> (r: Asset)
        ensures
            r@ == v2_asset(address@, prefix@, self.config.default_decimals),
    {
        let mut head: Vec<u8> = Vec::new();
        head.push(address.0[0]);
        head.push(address.0[1]);
        head.push(address.0[2]);
        assert(head@ =~= address@.subrange(0, 3));
        let suffix = hex_upper(head.as_slice());
        let symbol = String::from_str(prefix).concat("-").concat(suffix.as_str());
        Asset { address, symbol, decimals: self.config.default_decimals }
    }

    /// Whether a pair of these tokens is tracked.
    fn should_track_pool(&self, tokens: &Vec<Address>) -> (r: bool)
        requires
            self.token_graph.wf(),
        ensures
            r == tracks(self.token_whitelist, self.token_graph, tokens@.map_values(|a: Address| a@)),
    {
        let ghost ts = tokens@.map_values(|a: Address| a@);
        match &self.token_whitelist {
            None => true,
            Some(whitelist) => {
                let mut i: usize = 0;
                while i < tokens.len()
                    invariant
                        i <= tokens@.len(),
                        ts == tokens@.map_values(|a: Address| a@),
                        self.token_graph.wf(),
                        self.token_whitelist == Some(*whitelist),
                        forall|k: int, w: Seq<u8>|
                            0 <= k < i && in_list(whitelist@, w) ==> !#[trigger] self.token_graph.reaches(
                                ts[k],
                                w,
                            ),
                    decreases tokens@.len() - i,
                {
                    if self.token_graph.is_connected_to_whitelist(tokens[i], whitelist) {
                        proof {
                            let w = choose|w: Seq<u8>| in_list(whitelist@, w) && self.token_graph.reaches(tokens@[i as int]@, w);
                            assert(ts[i as int] == tokens@[i as int]@);
                        }
                        return true;
                    }
                    proof {
                        assert(ts[i as int] == tokens@[i as int]@);
                    }
                    i = i + 1;
                }
                false
            },
        }
    }

    /// Writes a snapshot to the stores.
    fn persist_snapshot(&self, stores: &mut PoolStores, snapshot: PoolSnapshot) -> (r: Result<(), EventListenerError>)
        requires
            snapshot.wf(),
        ensures
            r is Ok,
            final(stores).contents() == persisted(old(stores).contents(), snapshot@),
    {
        match stores.persist(snapshot) {
            Ok(()) => Ok(()),
            Err(e) => Err(EventListenerError::Internal(e.message())),
        }
    }

    /// Handles a parsed V2 event; see `v2_handled`.
    pub fn handle_parsed_event(&mut self, stores: &mut PoolStores, event: PancakeV2Event) -> (r: Result<(), EventListenerError>)
        requires
            old(self).token_graph.wf(),
        ensures
            final(self).token_graph.wf(),
            final(self).config == old(self).config,
            final(self).token_whitelist == old(self).token_whitelist,
            v2_handled(
                old(self).config,
                old(self).token_whitelist,
                old(self).token_graph,
                final(self).token_graph,
                old(stores).contents(),
                final(stores).contents(),
                event,
                r,
            ),
    {
        match event {
            PancakeV2Event::PairCreated { factory, token0, token1, pair, .. } => {
                if !self.config.factory_address.is_zero() && !self.config.factory_address.same(
                    &factory,
                ) {
                    return Ok(());
                }
                let id = self.pool_identifier(pair);
                let token0_asset = self.build_asset(token0, "T0");
                let token1_asset = self.build_asset(token1, "T1");
                let mut tokens: Vec<Address> = Vec::new();
                tokens.push(token0_asset.address);
                tokens.push(token1_asset.address);
                proof {
                    assert(tokens@.map_values(|a: Address| a@) =~= seq![token0@, token1@]);
                }
                if !self.should_track_pool(&tokens) {
                    return Ok(());
                }
                let mut pool_tokens: Vec<Asset> = Vec::new();
                pool_tokens.push(token0_asset.clone());
                pool_tokens.push(token1_asset.clone());
                proof {
                    assert(crate::token_graph::asset_models(pool_tokens@) =~= seq![
                        token0_asset@,
                        token1_asset@,
                    ]);
                }
                self.token_graph.add_pool(id.clone(), pool_tokens);
                let ghost a0 = token0_asset@;
                let ghost a1 = token1_asset@;
                let mut state = PancakeV2PoolState::new(id, token0_asset, token1_asset);
                state.set_reserves(0, 0);
                let snapshot = match state.to_snapshot() {
                    Ok(s) => s,
                    Err(e) => return Err(EventListenerError::Internal(e.message())),
                };
                proof {
                    assert(snapshot@ == created_snapshot(
                        v2_pool_id(self.config.chain_id, self.config.dex@, pair@),
                        a0,
                        a1,
                    ));
                }
                self.persist_snapshot(stores, snapshot)
            },
            _ => {
                let pair = match event {
                    PancakeV2Event::Mint { pair, .. } => pair,
                    PancakeV2Event::Burn { pair, .. } => pair,
                    PancakeV2Event::Swap { pair, .. } => pair,
                    PancakeV2Event::Sync { pair, .. } => pair,
                    PancakeV2Event::PairCreated { pair, .. } => pair,
                };
                let id = self.pool_identifier(pair);
                let found = match stores.repository.get(&id) {
                    Ok(v) => v,
                    Err(e) => return Err(EventListenerError::Internal(e.message())),
                };
                match found {
                    Some(snapshot) => {
                        let mut state = match PancakeV2PoolState::from_snapshot(&snapshot) {
                            Ok(s) => s,
                            Err(e) => return Err(EventListenerError::Internal(e.message())),
                        };
                        match state.apply_pancake_event(&event) {
                            Ok(()) => {},
                            Err(e) => return Err(EventListenerError::Internal(e.message())),
                        }
                        let next = match state.to_snapshot() {
                            Ok(s) => s,
                            Err(e) => return Err(EventListenerError::Internal(e.message())),
                        };
                        self.persist_snapshot(stores, next)
                    },
                    None => Ok(()),
                }
            },
        }
    }

    /// Reads a log as a V2 event and handles it: other events are left
    /// alone, unreadable logs are refused as decode errors.
    pub fn handle_event(&mut self, stores: &mut PoolStores, event: &EventEnvelope) -> (r: Result<(), EventListenerError>)
        requires
            old(self).token_graph.wf(),
        ensures
            final(self).token_graph.wf(),
            final(self).config == old(self).config,
            final(self).token_whitelist == old(self).token_whitelist,
            forall|parsed: Result<PancakeV2Event, PancakeV2EventError>|
                #[trigger] v2_parse_result(event@, parsed) ==> match parsed {
                    Ok(e) => v2_handled(
                        old(self).config,
                        old(self).token_whitelist,
                        old(self).token_graph,
                        final(self).token_graph,
                        old(stores).contents(),
                        final(stores).contents(),
                        e,
                        r,
                    ),
                    Err(PancakeV2EventError::Unsupported) => r is Ok
                        && final(self).token_graph == old(self).token_graph
                        && final(stores).contents() == old(stores).contents(),
                    Err(_) => r matches Err(EventListenerError::Decode(_))
                        && final(self).token_graph == old(self).token_graph
                        && final(stores).contents() == old(stores).contents(),
                },
    {
        match PancakeV2Event::try_from(event) {
            Ok(parsed) => self.handle_parsed_event(stores, parsed),
            Err(PancakeV2EventError::Unsupported) => Ok(()),
            Err(e) => Err(EventListenerError::Decode(e.message())),
        }
    }

    /// Whether the event is of a kind this handler takes: pair created,
    /// mint, swap, burn or sync.
    pub fn matches(&self, envelope: &EventEnvelope) -> (r: bool)
        ensures
            r == (envelope.kind == EventKind::PairCreated || envelope.kind == EventKind::Mint
                || envelope.kind == EventKind::Swap || envelope.kind == EventKind::Burn
                || envelope.kind == EventKind::Sync),
    {
        envelope.kind == EventKind::PairCreated || envelope.kind == EventKind::Mint
            || envelope.kind == EventKind::Swap || envelope.kind == EventKind::Burn
            || envelope.kind == EventKind::Sync
    }
}

} // verus!
