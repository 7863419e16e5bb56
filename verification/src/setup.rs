//! Setting up a simulation: which pool a request names, the repository it
//! runs against, the path through the pools of that repository, and the
//! demonstration V3 pool.
use vstd::prelude::*;
use vstd::string::*;

use crate::num::U256;
use crate::pancake_v2::calculator::v2_snapshot_model;
use crate::pancake_v2::state::{normalized_id, PancakeV2PoolState, V2StateModel};
use crate::pancake_v3::event::PancakeV3Event;
use crate::pancake_v3::calculator::v3_snapshot_model;
use crate::pancake_v3::state::{
    add_reserve_spec, mint_tick, tick_or_zero, zero_tick, PancakeV3PoolState, TickModel, V3StateModel,
};
use crate::path::{leg_paths, legs_of, GraphPathFinder, PathConstraints, PathFinder};
use crate::repository::{after_write, lists, InMemoryPoolRepository, PoolRepository};
use crate::simulation::SimulationError;
use crate::state::{ExtraModel, PoolSnapshot, SnapshotModel, StateError};
use crate::text::same_text;
use crate::token_graph::{StepModel, TokenGraph};
use crate::types::{
    Address, Asset, AssetModel, ChainNamespace, PathLeg, PathLegModel, PoolIdModel, PoolIdentifier, PoolType,
};
use crate::utils::{
    address_or_zero, literal_address, parse_pool_identifier, pool_id_from_text, sample_pool, sample_pool_identifier,
    sample_pool_identifier_spec,
};

verus! {

/// The pool a request names: the sample pool of the chain for `sample`,
/// else the identifier that the text reads as.
pub fn simulation_identifier(pool_id: &str, chain_id: u64) -> (r: Option<PoolIdentifier>)
    ensures
        pool_id@ == "sample"@ ==> (r matches Some(id) && id@ == sample_pool_identifier_spec(
            chain_id,
        )),
        pool_id@ != "sample"@ ==> match r {
            Some(id) => pool_id_from_text(pool_id@) == Some(id@),
            None => pool_id_from_text(pool_id@) is None,
        },
{
    if same_text(pool_id, "sample") {
        Some(sample_pool_identifier(chain_id))
    } else {
        parse_pool_identifier(pool_id)
    }
}

/// The snapshot of the sample V2 pool of a chain holding 1 WBNB and 0.5 BUSD.
pub open spec fn sample_v2_snapshot(chain_id: u64) -> SnapshotModel {
    let t0 = AssetModel {
        address: literal_address("0x0000000000000000000000000000000000000010"@),
        symbol: "WBNB"@,
        decimals: 18,
    };
    let t1 = AssetModel {
        address: literal_address("0x0000000000000000000000000000000000000020"@),
        symbol: "BUSD"@,
        decimals: 18,
    };
    v2_snapshot_model(
        V2StateModel {
            id: normalized_id(sample_pool_identifier_spec(chain_id), "pancake_v2"@),
            token0: t0,
            token1: t1,
            reserve0: 1_000_000_000_000_000_000u128,
            reserve1: 500_000_000_000_000_000u128,
            total_supply: None,
            reserves: Map::<AssetModel, u128>::empty().insert(t0, 1_000_000_000_000_000_000u128).insert(
                t1,
                500_000_000_000_000_000u128,
            ),
        },
    )
}

/// Seeds a repository for a simulation with the snapshot found for the
/// pool, or, without one, with the sample V2 pool.
pub fn seed_repository(
    repository: &mut InMemoryPoolRepository,
    loaded: Option<PoolSnapshot>,
    chain_id: u64,
)
    requires
        loaded matches Some(s) ==> s.wf(),
    ensures
        final(repository)@ == after_write(
            old(repository)@,
            match loaded {
                Some(s) => s@,
                None => sample_v2_snapshot(chain_id),
            },
        ),
{
    let snapshot = match loaded {
        Some(s) => s,
        None => {
            let (pool_id, token0, token1) = sample_pool(chain_id);
            let mut state = PancakeV2PoolState::new(pool_id, token0, token1);
            state.set_reserves(1_000_000_000_000_000_000u128, 500_000_000_000_000_000u128);
            let ghost t0 = state@.token0;
            let ghost t1 = state@.token1;
            assert(state@.reserves =~= Map::<AssetModel, u128>::empty().insert(
                t0,
                1_000_000_000_000_000_000u128,
            ).insert(t1, 500_000_000_000_000_000u128));
            state.to_snapshot().unwrap()
        },
    };
    let _ = repository.upsert(snapshot);
}

/// Every stored snapshot holds a V2 pair.
pub open spec fn all_v2(m: Map<PoolIdModel, SnapshotModel>) -> bool {
    forall|k: PoolIdModel| #[trigger] m.contains_key(k) ==> m[k].extra is PancakeV2
}

/// A stored V2 pair `w` joins tokens `a` and `b`, in either direction.
pub open spec fn v2_joins(m: Map<PoolIdModel, SnapshotModel>, a: Seq<u8>, b: Seq<u8>, w: PoolIdModel) -> bool {
    m.contains_key(w) && match m[w].extra {
        ExtraModel::PancakeV2(x) => (x.token0.address == a && x.token1.address == b) || (
        x.token1.address == a && x.token0.address == b),
        _ => false,
    }
}

/// A path of one to `max_hops` legs through the stored pairs from token
/// `a` to token `b`: each leg starts where the one before ended, goes
/// through a stored pair of its two tokens and carries no fee of its own.
pub open spec fn repo_route(
    m: Map<PoolIdModel, SnapshotModel>,
    legs: Seq<PathLegModel>,
    a: Seq<u8>,
    b: Seq<u8>,
    max_hops: nat,
) -> bool {
    &&& 1 <= legs.len() <= max_hops
    &&& legs[0].input.address == a
    &&& legs.last().output.address == b
    &&& forall|i: int|
        0 <= i < legs.len() - 1 ==> #[trigger] legs[i].output.address == legs[i + 1].input.address
    &&& forall|i: int|
        0 <= i < legs.len() ==> v2_joins(
            m,
            #[trigger] legs[i].input.address,
            legs[i].output.address,
            legs[i].pool,
        )
    &&& forall|i: int| 0 <= i < legs.len() ==> (#[trigger] legs[i]).fee is None
}

/// The assets a graph records for pool `w` are the two tokens of the
/// stored V2 pair `w`.
pub open spec fn pair_assets(m: Map<PoolIdModel, SnapshotModel>, w: PoolIdModel, assets: Seq<Asset>) -> bool {
    m.contains_key(w) && match m[w].extra {
        ExtraModel::PancakeV2(x) => crate::token_graph::asset_models(assets) == seq![x.token0, x.token1],
        _ => false,
    }
}

/// Extending a path under construction along more edges never loses the
/// routes found along fewer.
proof fn lemma_extend_grows(g: TokenGraph, target: Seq<u8>, p: crate::search::PartialModel, es: Seq<crate::token_graph::EdgeModel>)
    requires
        es.len() > 0,
    ensures
        g.extend(target, p, es).1.len() >= g.extend(target, p, es.drop_last()).1.len(),
{
}

/// An edge to the target that gives a hop makes the extension find a route.
proof fn lemma_extend_finds(
    g: TokenGraph,
    target: Seq<u8>,
    p: crate::search::PartialModel,
    es: Seq<crate::token_graph::EdgeModel>,
    k: int,
)
    requires
        0 <= k < es.len(),
        es[k].token == target,
        !p.visited.contains(target),
        g.step_of(p.current, es[k]) is Some,
    ensures
        g.extend(target, p, es).1.len() > 0,
    decreases es.len(),
{
    if k < es.len() - 1 {
        assert(es.drop_last()[k] == es[k]);
        lemma_extend_finds(g, target, p, es.drop_last(), k);
        lemma_extend_grows(g, target, p, es);
    }
}

/// Routes found within fewer hops stay among those found within more.
proof fn lemma_paths_within_grow(g: TokenGraph, start: Seq<u8>, target: Seq<u8>, n: nat)
    requires
        n >= 1,
    ensures
        g.paths_within(start, target, n).len() >= g.paths_within(start, target, 1).len(),
    decreases n,
{
    if n > 1 {
        lemma_paths_within_grow(g, start, target, (n - 1) as nat);
    }
}

/// In a graph of stored V2 pairs, two tokens joined by an edge are joined
/// by a route of one hop, so a search of at least one hop finds a route.
proof fn lemma_stored_pair_is_a_route(
    g: TokenGraph,
    m: Map<PoolIdModel, SnapshotModel>,
    a: Seq<u8>,
    b: Seq<u8>,
    n: nat,
)
    requires
        a != b,
        n >= 1,
        g.has_edge(a, b),
        forall|x: Seq<u8>, y: Seq<u8>, w: PoolIdModel| #[trigger]
            g.joins(x, y, w) ==> v2_joins(m, x, y, w) && g.pool_assets.map().contains_key(w),
        forall|w: PoolIdModel| #[trigger]
            g.pool_assets.map().contains_key(w) ==> pair_assets(m, w, g.pool_assets.map()[w]@),
    ensures
        g.found_paths(a, b, n).len() > 0,
{
    let es = g.edges_of(a);
    let k = choose|k: int| 0 <= k < es.len() && es[k].token == b;
    let e = es[k];
    assert(g.joins(a, b, e.pool)) by {
        assert(es[k] == crate::token_graph::EdgeModel { token: b, pool: e.pool });
    }
    let assets = crate::token_graph::asset_models(g.pool_assets.map()[e.pool]@);
    assert(pair_assets(m, e.pool, g.pool_assets.map()[e.pool]@));
    reveal_with_fuel(crate::search::find_asset, 3);
    assert(assets.subrange(1, assets.len() as int) =~= seq![assets[1]]);
    assert(assets.subrange(1, assets.len() as int).subrange(1, 1) =~= Seq::<AssetModel>::empty());
    assert(crate::search::find_asset(assets, a) is Some);
    assert(crate::search::find_asset(assets, b) is Some);
    assert(g.step_of(a, e) is Some);
    let p0 = crate::search::PartialModel { current: a, steps: Seq::empty(), visited: seq![a] };
    assert(!p0.visited.contains(b)) by {
        if p0.visited.contains(b) {
            let j = choose|j: int| 0 <= j < p0.visited.len() && p0.visited[j] == b;
            assert(p0.visited[j] == a);
        }
    }
    lemma_extend_finds(g, b, p0, es, k);
    assert(g.frontier(a, b, 0) == seq![p0]);
    assert(g.grow(b, seq![p0]).1 =~= g.extend(b, p0, es).1) by {
        let ps = seq![p0];
        assert(ps.drop_last() =~= Seq::<crate::search::PartialModel>::empty());
        assert(ps.last() == p0);
        assert(g.grow(b, Seq::<crate::search::PartialModel>::empty()).1 =~= Seq::<Seq<StepModel>>::empty());
    }
    assert(g.paths_within(a, b, 1).len() > 0);
    lemma_paths_within_grow(g, a, b, n);
}

/// The path to simulate for a pool: the graph of all stored V2 pairs is
/// searched for routes of at most `max_hops` legs from the pool's first
/// token to its second, and the first route found is taken. A snapshot that
/// is not a V2 pair is refused, as is a pool that is not stored; where no
/// route is found the search's failure is reported.
pub fn build_graph_path(
    repository: &InMemoryPoolRepository,
    identifier: &PoolIdentifier,
    max_hops: usize,
) -> (r: Result<Vec<PathLeg>, SimulationError>)
    ensures
        !all_v2(repository@) ==> (r matches Err(SimulationError::State(StateError::Serialize(m)))
            && m@ == "快照不含 PancakeSwap V2 数据"@),
        all_v2(repository@) && !repository@.contains_key(identifier@) ==> (r matches Err(
            SimulationError::State(StateError::NotFound),
        )),
        all_v2(repository@) && repository@.contains_key(identifier@) ==> match repository@[identifier@].extra {
            ExtraModel::PancakeV2(x) => {
                &&& r is Ok <==> (x.token0.address != x.token1.address && max_hops > 0)
                &&& r matches Ok(path) ==> repo_route(
                    repository@,
                    path@.map_values(|l: PathLeg| l@),
                    x.token0.address,
                    x.token1.address,
                    max_hops as nat,
                )
                &&& r matches Err(e) ==> (e matches SimulationError::Calculation(m) && m@
                    == "未找到有效路径"@)
            },
            _ => false,
        },
{
    let ghost m = repository@;
    let snapshots = match repository.list() {
        Ok(l) => l,
        Err(e) => {
            return Err(SimulationError::State(e));
        },
    };
    let ghost l = snapshots@;
    let mut graph = TokenGraph::new();
    let mut source: Option<Asset> = None;
    let mut target: Option<Asset> = None;
    let n = snapshots.len();
    let mut i: usize = 0;
    proof {
        assert forall|a: Seq<u8>, b: Seq<u8>, w: PoolIdModel| #[trigger]
            graph.joins(a, b, w) implies v2_joins(m, a, b, w)
                && graph.pool_assets.map().contains_key(w) by {
            let k = choose|k: int|
                0 <= k < graph.edges_of(a).len() && graph.edges_of(a)[k] == crate::token_graph::EdgeModel {
                    token: b,
                    pool: w,
                };
            assert(graph.edges_of(a)[k].token == b);
            assert(graph.has_edge(a, b));
        }
    }
    while i < n
        invariant
            n == l.len(),
            i <= n,
            snapshots@ == l,
            m == repository@,
            lists(m, l),
            graph.wf(),
            forall|j: int| 0 <= j < i ==> (#[trigger] l[j]@).extra is PancakeV2,
            forall|a: Seq<u8>, b: Seq<u8>, w: PoolIdModel| #[trigger]
                graph.joins(a, b, w) ==> v2_joins(m, a, b, w)
                    && graph.pool_assets.map().contains_key(w),
            forall|w: PoolIdModel| #[trigger]
                graph.pool_assets.map().contains_key(w) ==> pair_assets(m, w, graph.pool_assets.map()[w]@),
            source matches Some(s) ==> graph.has_edge(s@.address, target.unwrap()@.address),
            source is Some <==> exists|j: int| 0 <= j < i && #[trigger] l[j]@.id == identifier@,
            source is Some == target is Some,
            source matches Some(s) ==> m[identifier@].extra matches ExtraModel::PancakeV2(x)
                && s@ == x.token0 && target.unwrap()@ == x.token1,
        decreases n - i,
    {
        let snapshot = &snapshots[i];
        proof {
            assert(l[i as int].wf());
            assert(m.contains_key(l[i as int]@.id) && m[l[i as int]@.id] == l[i as int]@);
        }
        let state = match PancakeV2PoolState::from_snapshot(snapshot) {
            Ok(s) => s,
            Err(e) => {
                proof {
                    assert(!all_v2(m)) by {
                        assert(m.contains_key(l[i as int]@.id));
                    }
                    assert forall|j: int| 0 <= j < i implies (#[trigger] l[j]@).extra is PancakeV2 by {}
                }
                return Err(SimulationError::State(e));
            },
        };
        let t0 = state.token0().clone();
        let t1 = state.token1().clone();
        let ghost before = graph;
        let mut tokens: Vec<Asset> = Vec::new();
        tokens.push(state.token0().clone());
        tokens.push(state.token1().clone());
        let ghost tm = crate::token_graph::asset_models(tokens@);
        proof {
            assert(tm.len() == 2 && tm[0] == t0@ && tm[1] == t1@);
        }
        graph.add_pool(snapshot.id.clone(), tokens);
        proof {
            let id = l[i as int]@.id;
            assert forall|a: Seq<u8>, b: Seq<u8>, w: PoolIdModel| #[trigger]
                graph.joins(a, b, w) implies v2_joins(m, a, b, w)
                    && graph.pool_assets.map().contains_key(w) by {
                if !before.joins(a, b, w) {
                    let (x, y) = choose|x: int, y: int|
                        0 <= x < tm.len() && 0 <= y < tm.len() && x != y && tm[x].address == a
                            && tm[y].address == b;
                    assert(w == id);
                } else if w != id {
                    assert(before.pool_assets.map().remove(id).contains_key(w));
                }
            }
            assert forall|w: PoolIdModel| #[trigger]
                graph.pool_assets.map().contains_key(w) implies pair_assets(m, w, graph.pool_assets.map()[w]@) by {
                if w != id {
                    assert(graph.pool_assets.map().remove(id).contains_key(w));
                    assert(graph.pool_assets.map()[w] == graph.pool_assets.map().remove(id)[w]);
                    assert(before.pool_assets.map().remove(id)[w] == before.pool_assets.map()[w]);
                } else {
                    assert(crate::token_graph::asset_models(graph.pool_assets.map()[w]@) == tm);
                    match l[i as int]@.extra {
                        ExtraModel::PancakeV2(x) => {
                            assert(tm =~= seq![x.token0, x.token1]);
                        },
                        _ => {},
                    }
                }
            }
            if source is Some {
                assert(before.has_edge(source.unwrap()@.address, target.unwrap()@.address));
            }
            assert(graph.has_edge(tm[0].address, tm[1].address));
        }
        if snapshot.id.same(identifier) {
            source = Some(t0);
            target = Some(t1);
        }
        proof {
            assert forall|j: int| 0 <= j < i + 1 implies (#[trigger] l[j]@).extra is PancakeV2 by {}
            if exists|j: int| 0 <= j < i + 1 && #[trigger] l[j]@.id == identifier@ {
                let j = choose|j: int| 0 <= j < i + 1 && #[trigger] l[j]@.id == identifier@;
                if j < i {
                    assert(exists|j: int| 0 <= j < i && #[trigger] l[j]@.id == identifier@);
                }
            }
            if source is Some && !(exists|j: int| 0 <= j < i && #[trigger] l[j]@.id == identifier@) {
                assert(l[i as int]@.id == identifier@);
            }
        }
        i = i + 1;
    }
    proof {
        assert(all_v2(m)) by {
            assert forall|k: PoolIdModel| #[trigger] m.contains_key(k) implies m[k].extra is PancakeV2 by {
                let j = choose|j: int| 0 <= j < l.len() && #[trigger] l[j]@.id == k;
                assert(m[l[j]@.id] == l[j]@);
            }
        }
        if m.contains_key(identifier@) {
            let j = choose|j: int| 0 <= j < l.len() && #[trigger] l[j]@.id == identifier@;
            assert(l[j]@.id == identifier@);
        }
        if source is Some {
            let j = choose|j: int| 0 <= j < n && #[trigger] l[j]@.id == identifier@;
            assert(m.contains_key(l[j]@.id));
        }
    }
    let start = match source {
        Some(s) => s,
        None => {
            return Err(SimulationError::State(StateError::NotFound));
        },
    };
    let end = match target {
        Some(t) => t,
        None => {
            return Err(SimulationError::State(StateError::NotFound));
        },
    };
    let ghost g = graph;
    let ghost a = start@.address;
    let ghost b = end@.address;
    proof {
        if a != b && max_hops > 0 {
            lemma_stored_pair_is_a_route(g, m, a, b, max_hops as nat);
        }
        if a == b {
            assert(g.found_paths(a, b, max_hops as nat).len() == 0);
        }
        if max_hops == 0 {
            assert(g.paths_within(a, b, 0).len() == 0);
        }
    }
    let finder = GraphPathFinder::new(graph);
    let constraints = PathConstraints { max_hops, whitelist: Vec::new() };
    let paths = match finder.best_paths(start, end, Some(constraints)) {
        Ok(p) => p,
        Err(e) => {
            return Err(SimulationError::Calculation(e.message()));
        },
    };
    let ghost found = g.found_paths(a, b, max_hops as nat);
    proof {
        assert(leg_paths(paths@).len() == paths@.len());
    }
    if paths.len() == 0 {
        return Err(SimulationError::Calculation(String::from_str("未找到可用路径")));
    }
    let mut paths = paths;
    let ghost all = paths@;
    let path = paths.remove(0);
    proof {
        assert(found.len() > 0);
        assert(a != b);
        g.lemma_paths_within_are_routes(a, b, max_hops as nat);
        let route = found[0];
        assert(g.is_route(a, b, route) && route.len() <= max_hops);
        let legs = path@.map_values(|x: PathLeg| x@);
        assert(path == all[0]);
        assert(leg_paths(all)[0] == legs);
        assert(legs == legs_of(route));
        assert forall|k: int| 0 <= k < legs.len() implies v2_joins(
            m,
            #[trigger] legs[k].input.address,
            legs[k].output.address,
            legs[k].pool,
        ) by {
            assert(legs[k] == crate::path::leg_of(route[k]));
            assert(g.joins(route[k].input.address, route[k].output.address, route[k].pool));
        }
        assert forall|k: int| 0 <= k < legs.len() - 1 implies #[trigger] legs[k].output.address
            == legs[k + 1].input.address by {
            assert(legs[k] == crate::path::leg_of(route[k]));
            assert(legs[k + 1] == crate::path::leg_of(route[k + 1]));
        }
        assert forall|k: int| 0 <= k < legs.len() implies (#[trigger] legs[k]).fee is None by {
            assert(legs[k] == crate::path::leg_of(route[k]));
        }
        assert(legs[0] == crate::path::leg_of(route[0]));
        assert(legs.last() == crate::path::leg_of(route.last()));
    }
    Ok(path)
}

/// The identifier the demonstration V3 pool is set up under: BSC (chain 56),
/// DEX `pancakeswap`, address `0x…0333`.
pub open spec fn demo_v3_id() -> PoolIdModel {
    PoolIdModel {
        chain_namespace: crate::types::ChainNamespaceModel::Evm,
        chain_id: 56,
        dex: "pancakeswap"@,
        address: literal_address("0x0000000000000000000000000000000000000333"@),
        pool_type: crate::types::PoolTypeModel::PancakeV3,
    }
}

pub open spec fn demo_token0() -> AssetModel {
    AssetModel {
        address: literal_address("0x0000000000000000000000000000000000000011"@),
        symbol: "WBNB"@,
        decimals: 18,
    }
}

pub open spec fn demo_token1() -> AssetModel {
    AssetModel {
        address: literal_address("0x0000000000000000000000000000000000000022"@),
        symbol: "USDT"@,
        decimals: 18,
    }
}

/// The demonstration V3 pool: a new pool initialised at price 1 (square
/// root price `2^96`, tick 0), then 1,000,000 of liquidity minted between
/// ticks -600 and 600 with 500,000 of each token.
pub open spec fn demo_v3_state() -> V3StateModel {
    let fresh = V3StateModel {
        id: normalized_id(demo_v3_id(), "pancake_v3"@),
        token0: demo_token0(),
        token1: demo_token1(),
        sqrt_price_x96: 0,
        liquidity: 0,
        tick: 0,
        reserves: Map::<AssetModel, u128>::empty().insert(demo_token0(), 0).insert(demo_token1(), 0),
        ticks: Map::<i32, TickModel>::empty(),
        fees_token0: 0,
        fees_token1: 0,
    };
    let initialized = V3StateModel { sqrt_price_x96: 0x1_0000_0000_0000_0000_0000_0000nat, tick: 0, ..fresh };
    let ticks = mint_tick(mint_tick(initialized.ticks, -600i32, 1_000_000, true), 600i32, 1_000_000, false);
    V3StateModel {
        liquidity: 1_000_000,
        ticks,
        reserves: add_reserve_spec(
            add_reserve_spec(initialized.reserves, demo_token0(), 500_000),
            demo_token1(),
            500_000,
        ),
        ..initialized
    }
}

/// The demonstration V3 setup: the pool's identifier as given, a
/// repository holding its snapshot, and a one-leg path through it with a
/// fee of 1 basis point, from WBNB to USDT or, reversed, back. The leg names
/// the pool by the identifier as given, while the snapshot is stored under
/// the identifier as the pool state labels it (`pancake_v3`).
pub fn v3_demo_components(reverse: bool) -> (r: (PoolIdentifier, InMemoryPoolRepository, Vec<PathLeg>))
    ensures
        r.0@ == demo_v3_id(),
        r.1@ == Map::<PoolIdModel, SnapshotModel>::empty().insert(
            normalized_id(demo_v3_id(), "pancake_v3"@),
            v3_snapshot_model(demo_v3_state()),
        ),
        r.2@.len() == 1,
        r.2@[0]@ == (PathLegModel {
            pool: demo_v3_id(),
            input: if reverse { demo_token1() } else { demo_token0() },
            output: if reverse { demo_token0() } else { demo_token1() },
            fee: Some(100),
        }),
{
    let pool_id = PoolIdentifier {
        chain_namespace: ChainNamespace::Evm,
        chain_id: 56,
        dex: String::from_str("pancakeswap"),
        address: address_or_zero("0x0000000000000000000000000000000000000333"),
        pool_type: PoolType::PancakeV3,
    };
    let token0 = Asset {
        address: address_or_zero("0x0000000000000000000000000000000000000011"),
        symbol: String::from_str("WBNB"),
        decimals: 18,
    };
    let token1 = Asset {
        address: address_or_zero("0x0000000000000000000000000000000000000022"),
        symbol: String::from_str("USDT"),
        decimals: 18,
    };
    let mut state = PancakeV3PoolState::new(pool_id.clone(), token0.clone(), token1.clone());
    let init = PancakeV3Event::Initialize {
        sqrt_price_x96: U256::from_u128(79228162514264337593543950336u128),
        tick: 0,
    };
    let _ = state.update_from_event(&init);
    let mint = PancakeV3Event::Mint {
        sender: Address::zero(),
        owner: Address::zero(),
        tick_lower: -600,
        tick_upper: 600,
        liquidity: U256::from_u128(1_000_000),
        amount0: U256::from_u128(500_000),
        amount1: U256::from_u128(500_000),
    };
    proof {
        assert(tick_or_zero(state@.ticks, -600i32) == zero_tick());
        let t1 = mint_tick(state@.ticks, -600i32, 1_000_000, true);
        assert(tick_or_zero(t1, 600i32) == zero_tick());
    }
    let _ = state.update_from_event(&mint);
    let mut repository = InMemoryPoolRepository::new();
    let _ = repository.upsert(state.snapshot());
    let leg = if !reverse {
        PathLeg { pool: pool_id.clone(), input: token0, output: token1, fee: Some(100) }
    } else {
        PathLeg { pool: pool_id.clone(), input: token1, output: token0, fee: Some(100) }
    };
    let mut path: Vec<PathLeg> = Vec::new();
    path.push(leg);
    proof {
        assert(state@ == demo_v3_state());
    }
    (pool_id, repository, path)
}

/// The pool a state dump names: the identifier the text reads as, else the
/// sample pool of the chain.
pub fn dump_identifier(pool_id: &str, chain_id: u64) -> (r: PoolIdentifier)
    ensures
        match pool_id_from_text(pool_id@) {
            Some(id) => r@ == id,
            None => r@ == sample_pool_identifier_spec(chain_id),
        },
{
    match parse_pool_identifier(pool_id) {
        Some(id) => id,
        None => sample_pool_identifier(chain_id),
    }
}

/// The sum of some amounts.
pub open spec fn amount_sum(values: Seq<u128>) -> nat
    decreases values.len(),
{
    if values.len() == 0 {
        0
    } else {
        amount_sum(values.drop_last()) + values.last() as nat
    }
}

/// The least, the greatest and the mean (rounded down) of some amounts.
#[derive(Clone, Copy, Debug, PartialEq, Eq, Structural)]
pub struct AmountSummary {
    pub min: u128,
    pub max: u128,
    pub avg: u128,
}

/// The least, greatest and mean of the amounts out of a benchmark; none for
/// no amounts. Their sum must fit in `u128`.
pub fn amount_summary(values: &Vec<u128>) -> (r: Option<AmountSummary>)
    requires
        amount_sum(values@) <= u128::MAX,
    ensures
        values@.len() == 0 ==> r is None,
        values@.len() > 0 ==> (r matches Some(s) && (exists|i: int|
            0 <= i < values@.len() && values@[i] == s.min) && (exists|i: int|
            0 <= i < values@.len() && values@[i] == s.max) && (forall|i: int|
            0 <= i < values@.len() ==> s.min <= #[trigger] values@[i] <= s.max) && s.avg
            == amount_sum(values@) / values@.len()),
{
    if values.len() == 0 {
        return None;
    }
    let mut min = values[0];
    let mut max = values[0];
    let mut sum: u128 = 0;
    let mut i: usize = 0;
    while i < values.len()
        invariant
            0 < values@.len(),
            i <= values@.len(),
            sum == amount_sum(values@.subrange(0, i as int)),
            amount_sum(values@) <= u128::MAX,
            exists|k: int| 0 <= k < values@.len() && values@[k] == min,
            exists|k: int| 0 <= k < values@.len() && values@[k] == max,
            forall|k: int| 0 <= k < i ==> min <= #[trigger] values@[k] <= max,
            i == 0 ==> min == values@[0] && max == values@[0],
        decreases values@.len() - i,
    {
        let v = values[i];
        proof {
            assert(values@.subrange(0, i + 1).drop_last() =~= values@.subrange(0, i as int));
            lemma_amount_sum_prefix(values@, i + 1);
        }
        sum = sum + v;
        if v < min {
            min = v;
        }
        if v > max {
            max = v;
        }
        i = i + 1;
    }
    proof {
        assert(values@.subrange(0, values@.len() as int) =~= values@);
    }
    let n = values.len() as u128;
    Some(AmountSummary { min, max, avg: sum / n })
}

/// The sum of a prefix is at most the sum of the whole.
proof fn lemma_amount_sum_prefix(values: Seq<u128>, k: int)
    requires
        0 <= k <= values.len(),
    ensures
        amount_sum(values.subrange(0, k)) <= amount_sum(values),
    decreases values.len() - k,
{
    if k < values.len() {
        lemma_amount_sum_prefix(values, k + 1);
        assert(values.subrange(0, k + 1).drop_last() =~= values.subrange(0, k));
    } else {
        assert(values.subrange(0, k) =~= values);
    }
}

} // verus!
