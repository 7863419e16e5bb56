//! The PancakeSwap V3 event handler: it keeps the snapshots of the pools
//! it was given metadata for up to date.
use vstd::prelude::*;
use vstd::string::*;

use crate::abi::{address_bytes, address_parses, parse_address};
use crate::assoc::AssocList;
use crate::event::{EventEnvelope, EventListenerError, EventModel};
use crate::pancake_v2::state::normalized_id;
use crate::pancake_v3::calculator::{v3_snapshot_model, v3_state_from};
use crate::pancake_v3::event::{
    ticks_fit, v3_parse_result, v3_ticks_fit, PancakeV3Event, PancakeV3EventError,
};
use crate::pancake_v3::state::{v3_update, v3_update_fits, PancakeV3PoolState, TickModel, V3StateModel};
use crate::repository::{lookup, persisted, PoolRepository, PoolStores};
use crate::state::SnapshotModel;
use crate::types::{
    Address, Asset, AssetModel, ChainNamespace, ChainNamespaceModel, PoolIdModel,
    PoolIdentifier, PoolType, PoolTypeModel,
};

verus! {

/// Settings of the V3 handler.
#[derive(Debug)]
pub struct PancakeV3Config {
    pub chain_id: u64,
    pub dex: String,
    pub default_decimals: u8,
}

impl Default for PancakeV3Config {
    fn default() -> (r: PancakeV3Config)
        ensures
            r.chain_id == 56,
            r.dex@ == "pancakeswap"@,
            r.default_decimals == 18,
    {
        PancakeV3Config { chain_id: 56, dex: String::from_str("pancakeswap"), default_decimals: 18 }
    }
}

/// A pool's address and its two tokens.
#[derive(Debug)]
pub struct PoolBootstrap {
    pub pool: Address,
    pub token0: Asset,
    pub token1: Asset,
}

impl Clone for PoolBootstrap {
    fn clone(&self) -> (r: PoolBootstrap)
        ensures
            r.pool == self.pool,
            r.token0@ == self.token0@,
            r.token1@ == self.token1@,
    {
        PoolBootstrap { pool: self.pool, token0: self.token0.clone(), token1: self.token1.clone() }
    }
}

/// A token as a bootstrap file writes it.
#[derive(Debug)]
pub struct TokenMeta {
    pub address: String,
    pub symbol: String,
    pub decimals: u8,
}

/// A pool as a bootstrap file writes it.
#[derive(Debug)]
pub struct PoolBootstrapConfig {
    pub pool: String,
    pub token0: TokenMeta,
    pub token1: TokenMeta,
}

/// All three addresses of an entry read as addresses.
pub open spec fn entry_parses(c: PoolBootstrapConfig) -> bool {
    address_parses(c.pool@) && address_parses(c.token0.address@) && address_parses(
        c.token1.address@,
    )
}

/// The asset a token entry stands for.
pub open spec fn meta_asset(m: TokenMeta) -> AssetModel {
    AssetModel { address: address_bytes(m.address@), symbol: m.symbol@, decimals: m.decimals }
}

/// Reads the entries of a bootstrap file: the first address that does not
/// read fails the whole with an internal error.
pub fn bootstraps_from_configs(configs: &Vec<PoolBootstrapConfig>) -> (r: Result<Vec<PoolBootstrap>, EventListenerError>)
    ensures
        r is Ok <==> forall|i: int| 0 <= i < configs@.len() ==> entry_parses(#[trigger] configs@[i]),
        r matches Err(e) ==> e is Internal,
        r matches Ok(v) ==> v@.len() == configs@.len() && forall|i: int|
            0 <= i < configs@.len() ==> (#[trigger] v@[i]).pool@ == address_bytes(configs@[i].pool@)
                && v@[i].token0@ == meta_asset(configs@[i].token0) && v@[i].token1@ == meta_asset(
                configs@[i].token1,
            ),
{
    let mut out: Vec<PoolBootstrap> = Vec::new();
    let mut i: usize = 0;
    while i < configs.len()
        invariant
            i <= configs@.len(),
            out@.len() == i,
            forall|k: int| 0 <= k < i ==> entry_parses(#[trigger] configs@[k]),
            forall|k: int|
                0 <= k < i ==> (#[trigger] out@[k]).pool@ == address_bytes(configs@[k].pool@)
                    && out@[k].token0@ == meta_asset(configs@[k].token0) && out@[k].token1@
                    == meta_asset(configs@[k].token1),
        decreases configs@.len() - i,
    {
        let c = &configs[i];
        let pool = match parse_address(c.pool.as_str()) {
            Ok(a) => a,
            Err(m) => return Err(EventListenerError::Internal(m)),
        };
        let a0 = match parse_address(c.token0.address.as_str()) {
            Ok(a) => a,
            Err(m) => return Err(EventListenerError::Internal(m)),
        };
        let a1 = match parse_address(c.token1.address.as_str()) {
            Ok(a) => a,
            Err(m) => return Err(EventListenerError::Internal(m)),
        };
        out.push(
            PoolBootstrap {
                pool,
                token0: Asset { address: a0, symbol: c.token0.symbol.clone(), decimals: c.token0.decimals },
                token1: Asset { address: a1, symbol: c.token1.symbol.clone(), decimals: c.token1.decimals },
            },
        );
        i = i + 1;
    }
    Ok(out)
}

/// The identifier the handler gives a pool.
pub open spec fn v3_pool_id(chain_id: u64, dex: Seq<char>, pool: Seq<u8>) -> PoolIdModel {
    PoolIdModel {
        chain_namespace: ChainNamespaceModel::Evm,
        chain_id,
        dex,
        address: pool,
        pool_type: PoolTypeModel::PancakeV3,
    }
}

/// A new V3 pool without price, liquidity or ticks.
pub open spec fn v3_fresh_state(id: PoolIdModel, a0: AssetModel, a1: AssetModel) -> V3StateModel {
    V3StateModel {
        id: normalized_id(id, "pancake_v3"@),
        token0: a0,
        token1: a1,
        sqrt_price_x96: 0,
        liquidity: 0,
        tick: 0,
        reserves: Map::<AssetModel, u128>::empty().insert(a0, 0).insert(a1, 0),
        ticks: Map::<i32, TickModel>::empty(),
        fees_token0: 0,
        fees_token1: 0,
    }
}

/// The state an event of a pool starts from: the stored one, else a fresh
/// one from the pool's metadata.
pub enum V3Start {
    State(V3StateModel),
    BadSnapshot,
    NoMetadata,
}

pub open spec fn token_models(m: Map<Seq<u8>, (Asset, Asset)>) -> Map<Seq<u8>, (AssetModel, AssetModel)> {
    m.map_values(|p: (Asset, Asset)| (p.0@, p.1@))
}

pub open spec fn v3_start(
    chain_id: u64,
    dex: Seq<char>,
    tokens: Map<Seq<u8>, (AssetModel, AssetModel)>,
    repo: Map<PoolIdModel, SnapshotModel>,
    pool: Seq<u8>,
) -> V3Start {
    let id = v3_pool_id(chain_id, dex, pool);
    match lookup(repo, id) {
        Some(sm) => match v3_state_from(sm) {
            Some(s) => V3Start::State(s),
            None => V3Start::BadSnapshot,
        },
        None => if tokens.contains_key(pool) {
            V3Start::State(v3_fresh_state(id, tokens[pool].0, tokens[pool].1))
        } else {
            V3Start::NoMetadata
        },
    }
}

/// What handling an event of `pool` does: the event is applied to the
/// pool's state and the new snapshot stored; a pool neither stored nor
/// known is an internal error, as is a stored snapshot without V3 data or
/// an event that does not apply, and these change nothing.
pub open spec fn v3_handled(
    chain_id: u64,
    dex: Seq<char>,
    tokens: Map<Seq<u8>, (AssetModel, AssetModel)>,
    c0: (Map<PoolIdModel, SnapshotModel>, Option<Map<PoolIdModel, SnapshotModel>>),
    c1: (Map<PoolIdModel, SnapshotModel>, Option<Map<PoolIdModel, SnapshotModel>>),
    pool: Seq<u8>,
    event: PancakeV3Event,
    r: Result<(), EventListenerError>,
) -> bool {
    match v3_start(chain_id, dex, tokens, c0.0, pool) {
        V3Start::NoMetadata => r matches Err(EventListenerError::Internal(m)) && m@
            == "缺少池子元数据"@ && c1 == c0,
        V3Start::BadSnapshot => r matches Err(EventListenerError::Internal(_)) && c1 == c0,
        V3Start::State(s) => {
            let (s2, ok) = v3_update(s, event);
            if ok {
                r is Ok && c1 == persisted(c0, v3_snapshot_model(s2))
            } else {
                r matches Err(EventListenerError::Internal(_)) && c1 == c0
            }
        },
    }
}

/// The event's 256-bit arithmetic on the pool's state fits.
pub open spec fn v3_handle_fits(
    chain_id: u64,
    dex: Seq<char>,
    tokens: Map<Seq<u8>, (AssetModel, AssetModel)>,
    repo: Map<PoolIdModel, SnapshotModel>,
    pool: Seq<u8>,
    event: PancakeV3Event,
) -> bool {
    match v3_start(chain_id, dex, tokens, repo, pool) {
        V3Start::State(s) => v3_update_fits(s, event),
        _ => true,
    }
}

/// Handles PancakeSwap V3 events of the pools it has metadata for.
#[derive(Debug)]
pub struct PancakeV3EventHandler {
    pub config: PancakeV3Config,
    pub tokens: AssocList<Address, (Asset, Asset)>,
}

impl PancakeV3EventHandler {
    /// The pools' tokens by pool address.
    pub open spec fn token_map(&self) -> Map<Seq<u8>, (AssetModel, AssetModel)> {
        token_models(self.tokens.map())
    }

    /// Whether the handler can take a log: its ticks read as `i32` and its
    /// event's arithmetic on the pool fits.
    pub open spec fn envelope_fits(&self, repo: Map<PoolIdModel, SnapshotModel>, e: EventModel) -> bool {
        &&& v3_ticks_fit(e)
        &&& forall|parsed: Result<PancakeV3Event, PancakeV3EventError>|
            #[trigger] v3_parse_result(e, parsed) ==> (parsed matches Ok(ev) ==> v3_handle_fits(
                self.config.chain_id,
                self.config.dex@,
                self.token_map(),
                repo,
                e.address,
                ev,
            ))
    }

    /// A handler for the given pools; a later entry for the same pool
    /// replaces an earlier one.
    pub fn new(config: PancakeV3Config, bootstraps: Vec<PoolBootstrap>) -> (r: PancakeV3EventHandler)
        ensures
            r.config == config,
            r.tokens.wf(),
            forall|a: Seq<u8>|
                r.token_map().contains_key(a) <==> exists|i: int|
                    0 <= i < bootstraps@.len() && #[trigger] bootstraps@[i].pool@ == a,
            forall|i: int|
                0 <= i < bootstraps@.len() && (forall|j: int|
                    i < j < bootstraps@.len() ==> bootstraps@[j].pool@ != bootstraps@[i].pool@)
                    ==> r.token_map()[#[trigger] bootstraps@[i].pool@] == (
                    bootstraps@[i].token0@,
                    bootstraps@[i].token1@,
                ),
    {
        let mut tokens: AssocList<Address, (Asset, Asset)> = AssocList::new();
        let mut k: usize = 0;
        while k < bootstraps.len()
            invariant
                k <= bootstraps@.len(),
                tokens.wf(),
                forall|a: Seq<u8>|
                    token_models(tokens.map()).contains_key(a) <==> exists|i: int|
                        0 <= i < k && #[trigger] bootstraps@[i].pool@ == a,
                forall|i: int|
                    0 <= i < k && (forall|j: int|
                        i < j < k ==> bootstraps@[j].pool@ != bootstraps@[i].pool@)
                        ==> token_models(tokens.map())[#[trigger] bootstraps@[i].pool@] == (
                        bootstraps@[i].token0@,
                        bootstraps@[i].token1@,
                    ),
            decreases bootstraps@.len() - k,
        {
            let item = &bootstraps[k];
            let ghost before = token_models(tokens.map());
            tokens.insert(item.pool, (item.token0.clone(), item.token1.clone()));
            proof {
                let after = token_models(tokens.map());
                let pv = (item.token0@, item.token1@);
                assert(after =~= before.insert(item.pool@, pv));
                assert forall|a: Seq<u8>| after.contains_key(a) <==> exists|i: int|
                    0 <= i < k + 1 && #[trigger] bootstraps@[i].pool@ == a by {
                    if a == item.pool@ {
                        assert(bootstraps@[k as int].pool@ == a);
                    } else if after.contains_key(a) {
                        assert(before.contains_key(a));
                        let i = choose|i: int| 0 <= i < k && #[trigger] bootstraps@[i].pool@ == a;
                        assert(0 <= i < k + 1 && bootstraps@[i].pool@ == a);
                    } else {
                        if exists|i: int| 0 <= i < k + 1 && #[trigger] bootstraps@[i].pool@ == a {
                            let i = choose|i: int| 0 <= i < k + 1 && #[trigger] bootstraps@[i].pool@ == a;
                            assert(i < k);
                            assert(before.contains_key(a));
                        }
                    }
                }
                assert forall|i: int|
                    0 <= i < k + 1 && (forall|j: int|
                        i < j < k + 1 ==> bootstraps@[j].pool@ != bootstraps@[i].pool@)
                        implies after[#[trigger] bootstraps@[i].pool@] == (
                        bootstraps@[i].token0@,
                        bootstraps@[i].token1@,
                    ) by {
                    if i < k {
                        assert(bootstraps@[k as int].pool@ != bootstraps@[i].pool@);
                        assert(forall|j: int| i < j < k ==> bootstraps@[j].pool@ != bootstraps@[i].pool@);
                    }
                }
            }
            k = k + 1;
        }
        PancakeV3EventHandler { config, tokens }
    }

    /// The addresses of the pools the handler has metadata for.
    pub fn tracked_pools(&self) -> (r: Vec<Address>)
        requires
            self.tokens.wf(),
        ensures
            forall|a: Seq<u8>|
                self.token_map().contains_key(a) <==> exists|i: int| 0 <= i < r@.len() && #[trigger] r@[i]@ == a,
            r@.len() == self.tokens.keys@.len(),
    {
        let mut out: Vec<Address> = Vec::new();
        let mut i: usize = 0;
        proof {
            self.tokens.lemma_key_seq();
        }
        while i < self.tokens.len()
            invariant
                self.tokens.wf(),
                i <= self.tokens.keys@.len(),
                out@.len() == i,
                forall|k: int| 0 <= k < i ==> out@[k] == self.tokens.keys@[k],
            decreases self.tokens.keys@.len() - i,
        {
            out.push(*self.tokens.key_at(i));
            i = i + 1;
        }
        proof {
            assert forall|a: Seq<u8>|
                self.token_map().contains_key(a) <==> exists|i: int| 0 <= i < out@.len() && #[trigger] out@[i]@ == a by {
                if self.token_map().contains_key(a) {
                    let j = self.tokens.index_of(a);
                    assert(self.tokens.key_seq()[j] == a);
                    assert(out@[j]@ == a);
                }
                if exists|i: int| 0 <= i < out@.len() && #[trigger] out@[i]@ == a {
                    let i = choose|i: int| 0 <= i < out@.len() && #[trigger] out@[i]@ == a;
                    self.tokens.lemma_index_unique(a, i);
                }
            }
        }
        out
    }

    fn pool_identifier(&self, pool: Address) -> (r: PoolIdentifier)
        ensures
            r@ == v3_pool_id(self.config.chain_id, self.config.dex@, pool@),
    {
        PoolIdentifier {
            chain_namespace: ChainNamespace::Evm,
            chain_id: self.config.chain_id,
            dex: self.config.dex.clone(),
            address: pool,
            pool_type: PoolType::PancakeV3,
        }
    }

    /// A fresh state for a pool from its metadata.
    fn bootstrap_state(&self, pool: Address) -> (r: Result<PancakeV3PoolState, EventListenerError>)
        requires
            self.tokens.wf(),
        ensures
            self.token_map().contains_key(pool@) ==> (r matches Ok(s) && s.wf() && s@ == v3_fresh_state(
                v3_pool_id(self.config.chain_id, self.config.dex@, pool@),
                self.token_map()[pool@].0,
                self.token_map()[pool@].1,
            )),
            !self.token_map().contains_key(pool@) ==> (r matches Err(EventListenerError::Internal(m))
                && m@ == "缺少池子元数据"@),
    {
        match self.tokens.get(&pool) {
            Some(pair) => {
                let id = self.pool_identifier(pool);
                Ok(PancakeV3PoolState::new(id, pair.0.clone(), pair.1.clone()))
            },
            None => Err(EventListenerError::Internal(String::from_str("缺少池子元数据"))),
        }
    }

    /// Handles an event of `pool`, or gives `None` where the event's
    /// 256-bit arithmetic would overflow (and panic); then nothing changes.
    pub fn handle_parsed_event_checked(&self, stores: &mut PoolStores, pool: Address, event: PancakeV3Event) -> (r: Option<Result<(), EventListenerError>>)
        requires
            self.tokens.wf(),
        ensures
            r is None <==> !v3_handle_fits(
                self.config.chain_id,
                self.config.dex@,
                self.token_map(),
                old(stores).repository@,
                pool@,
                event,
            ),
            r is None ==> final(stores).contents() == old(stores).contents(),
            r matches Some(x) ==> v3_handled(
                self.config.chain_id,
                self.config.dex@,
                self.token_map(),
                old(stores).contents(),
                final(stores).contents(),
                pool@,
                event,
                x,
            ),
    {
        let id = self.pool_identifier(pool);
        let found = match stores.repository.get(&id) {
            Ok(v) => v,
            Err(e) => return Some(Err(EventListenerError::Internal(e.message()))),
        };
        let mut state = match found {
            Some(snapshot) => match PancakeV3PoolState::from_snapshot(&snapshot) {
                Ok(s) => s,
                Err(e) => return Some(Err(EventListenerError::Internal(e.message()))),
            },
            None => match self.bootstrap_state(pool) {
                Ok(s) => s,
                Err(e) => return Some(Err(e)),
            },
        };
        if !state.update_fits(&event) {
            return None;
        }
        match state.update_from_event(&event) {
            Ok(()) => {},
            Err(e) => return Some(Err(EventListenerError::Internal(e.message()))),
        }
        let snapshot = state.snapshot();
        proof {
            assert(snapshot@ == v3_snapshot_model(state@));
        }
        match stores.persist(snapshot) {
            Ok(()) => Some(Ok(())),
            Err(e) => Some(Err(EventListenerError::Internal(e.message()))),
        }
    }

    /// Handles an event of `pool`; see `v3_handled`.
    pub fn handle_parsed_event(&self, stores: &mut PoolStores, pool: Address, event: PancakeV3Event) -> (r: Result<(), EventListenerError>)
        requires
            self.tokens.wf(),
            v3_handle_fits(
                self.config.chain_id,
                self.config.dex@,
                self.token_map(),
                old(stores).repository@,
                pool@,
                event,
            ),
        ensures
            v3_handled(
                self.config.chain_id,
                self.config.dex@,
                self.token_map(),
                old(stores).contents(),
                final(stores).contents(),
                pool@,
                event,
                r,
            ),
    {
        match self.handle_parsed_event_checked(stores, pool, event) {
            Some(x) => x,
            None => Ok(()),
        }
    }

    /// Reads a log as a V3 event and handles it, or gives `None` where the
    /// `ethers` arithmetic would panic (ticks beyond `i32`, or a 256-bit
    /// overflow); then nothing changes. Logs without topics are left alone,
    /// unreadable ones refused as decode errors.
    pub fn handle_event_checked(&self, stores: &mut PoolStores, event: &EventEnvelope) -> (r: Option<Result<(), EventListenerError>>)
        requires
            self.tokens.wf(),
        ensures
            r is None ==> !self.envelope_fits(old(stores).repository@, event@)
                && final(stores).contents() == old(stores).contents(),
            self.envelope_fits(old(stores).repository@, event@) ==> r is Some,
            r matches Some(x) ==> forall|parsed: Result<PancakeV3Event, PancakeV3EventError>|
                #[trigger] v3_parse_result(event@, parsed) ==> match parsed {
                    Ok(e) => v3_handled(
                        self.config.chain_id,
                        self.config.dex@,
                        self.token_map(),
                        old(stores).contents(),
                        final(stores).contents(),
                        event@.address,
                        e,
                        x,
                    ),
                    Err(PancakeV3EventError::MissingTopics) => x is Ok && final(stores).contents()
                        == old(stores).contents(),
                    Err(_) => x matches Err(EventListenerError::Decode(_)) && final(stores).contents()
                        == old(stores).contents(),
                },
    {
        if !ticks_fit(event) {
            return None;
        }
        match PancakeV3Event::try_from(event) {
            Ok(parsed) => self.handle_parsed_event_checked(stores, event.address, parsed),
            Err(PancakeV3EventError::MissingTopics) => Some(Ok(())),
            Err(e) => Some(Err(EventListenerError::Decode(e.message()))),
        }
    }

    /// Whether the log comes from a pool the handler has metadata for.
    pub fn matches(&self, envelope: &EventEnvelope) -> (r: bool)
        requires
            self.tokens.wf(),
        ensures
            r == self.token_map().contains_key(envelope.address@),
    {
        match self.tokens.find(&envelope.address) {
            Some(_) => true,
            None => false,
        }
    }
}

} // verus!
