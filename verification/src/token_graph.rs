//! The token graph: tokens joined by the pools that trade them, with
//! reachability and path search.
use vstd::prelude::*;

use crate::assoc::AssocList;
use crate::types::{Address, Asset, AssetModel, PoolIdModel, PoolIdentifier};

verus! {

/// An edge from a token to `token` through `pool`.
#[derive(Debug)]
pub struct TokenEdge {
    pub token: Address,
    pub pool: PoolIdentifier,
}

pub struct EdgeModel {
    pub token: Seq<u8>,
    pub pool: PoolIdModel,
}

impl View for TokenEdge {
    type V = EdgeModel;

    open spec fn view(&self) -> EdgeModel {
        EdgeModel { token: self.token@, pool: self.pool@ }
    }
}

/// One hop of a path: the pool and the assets paid in and taken out.
#[derive(Debug)]
pub struct PathStep {
    pub pool: PoolIdentifier,
    pub input: Asset,
    pub output: Asset,
}

pub struct StepModel {
    pub pool: PoolIdModel,
    pub input: AssetModel,
    pub output: AssetModel,
}

impl View for PathStep {
    type V = StepModel;

    open spec fn view(&self) -> StepModel {
        StepModel { pool: self.pool@, input: self.input@, output: self.output@ }
    }
}

impl Clone for PathStep {
    fn clone(&self) -> (r: PathStep)
        ensures
            r@ == self@,
    {
        PathStep { pool: self.pool.clone(), input: self.input.clone(), output: self.output.clone() }
    }
}

/// Tokens and the pools that join them. Every pool with at least two tokens
/// joins each pair of its tokens in both directions.
#[derive(Debug)]
pub struct TokenGraph {
    pub adjacency: AssocList<Address, Vec<TokenEdge>>,
    pub pools: Vec<PoolIdentifier>,
    pub pool_assets: AssocList<PoolIdentifier, Vec<Asset>>,
}

/// What adding a pool with the given assets (at least two) does to a graph:
/// the pool is tracked with its assets, each token's list of edges gets the
/// pool's new edges for it appended, each pair of its tokens is joined both
/// ways, every new edge is one of the pool's, and no other edge appears or
/// goes.
pub open spec fn pool_added(old: TokenGraph, new: TokenGraph, pool: PoolIdModel, tokens: Seq<AssetModel>) -> bool {
    &&& new.pool_set() == old.pool_set().insert(pool)
    &&& forall|t: Seq<u8>| #[trigger] new.edges_of(t) == old.edges_of(t) + new_edges(tokens, pool, t)
    &&& forall|i: int, j: int|
        0 <= i < tokens.len() && 0 <= j < tokens.len() && i != j ==> new.joins(
            tokens[i].address,
            tokens[j].address,
            pool,
        )
    &&& new.pool_assets.map().contains_key(pool)
    &&& asset_models(new.pool_assets.map()[pool]@) == tokens
    &&& new.pool_assets.map().remove(pool) == old.pool_assets.map().remove(pool)
    &&& forall|i: int, j: int|
        0 <= i < tokens.len() && 0 <= j < tokens.len() && i != j ==> new.has_edge(
            tokens[i].address,
            tokens[j].address,
        )
    &&& forall|a: Seq<u8>, b: Seq<u8>| old.has_edge(a, b) ==> #[trigger] new.has_edge(a, b)
    &&& forall|a: Seq<u8>, b: Seq<u8>|
        #[trigger] new.has_edge(a, b) ==> old.has_edge(a, b) || exists|i: int, j: int|
            0 <= i < tokens.len() && 0 <= j < tokens.len() && i != j && tokens[i].address == a
                && tokens[j].address == b
    &&& forall|a: Seq<u8>, b: Seq<u8>, q: PoolIdModel|
        #[trigger] new.joins(a, b, q) ==> old.joins(a, b, q) || (q == pool && exists|i: int, j: int|
            0 <= i < tokens.len() && 0 <= j < tokens.len() && i != j && tokens[i].address == a
                && tokens[j].address == b)
}

/// The edges that joining tokens `i` and `j` of a pool adds to the list of
/// token `t`: `i` to `j` first, then `j` to `i`.
pub open spec fn pair_edges(tokens: Seq<AssetModel>, pool: PoolIdModel, t: Seq<u8>, i: int, j: int) -> Seq<
    EdgeModel,
> {
    (if tokens[i].address == t {
        seq![EdgeModel { token: tokens[j].address, pool }]
    } else {
        Seq::empty()
    }) + (if tokens[j].address == t {
        seq![EdgeModel { token: tokens[i].address, pool }]
    } else {
        Seq::empty()
    })
}

/// The edges that joining token `i` to tokens `i + 1` up to `j - 1`, in that
/// order, adds to the list of token `t`.
pub open spec fn row_edges(tokens: Seq<AssetModel>, pool: PoolIdModel, t: Seq<u8>, i: int, j: int) -> Seq<
    EdgeModel,
>
    decreases j - i,
{
    if j <= i + 1 {
        Seq::empty()
    } else {
        row_edges(tokens, pool, t, i, j - 1) + pair_edges(tokens, pool, t, i, j - 1)
    }
}

/// The edges that joining each of the first `i` tokens to every later token
/// adds to the list of token `t`.
pub open spec fn rows_edges(tokens: Seq<AssetModel>, pool: PoolIdModel, t: Seq<u8>, i: int) -> Seq<
    EdgeModel,
>
    decreases i,
{
    if i <= 0 {
        Seq::empty()
    } else {
        rows_edges(tokens, pool, t, i - 1) + row_edges(tokens, pool, t, i - 1, tokens.len() as int)
    }
}

/// The edges that adding a pool with the given tokens appends to the list of
/// token `t`, in order: each pair `i < j` of positions, taken row by row, adds
/// an edge from token `i` to token `j` and then one back, each through `pool`.
pub open spec fn new_edges(tokens: Seq<AssetModel>, pool: PoolIdModel, t: Seq<u8>) -> Seq<EdgeModel> {
    rows_edges(tokens, pool, t, tokens.len() as int)
}

/// The edges from the token at position `p` of a pool to each of the pool's
/// other tokens, in the order of the tokens, each through `pool`.
pub open spec fn edges_to_others(tokens: Seq<AssetModel>, pool: PoolIdModel, p: int) -> Seq<EdgeModel> {
    Seq::new(
        (tokens.len() - 1) as nat,
        |k: int| EdgeModel { token: tokens[if k < p { k } else { k + 1 }].address, pool },
    )
}

/// No two of the tokens have the same address.
pub open spec fn distinct_addresses(tokens: Seq<AssetModel>) -> bool {
    forall|x: int, y: int|
        0 <= x < tokens.len() && 0 <= y < tokens.len() && x != y ==> tokens[x].address
            != tokens[y].address
}

proof fn lemma_row_edges(tokens: Seq<AssetModel>, pool: PoolIdModel, p: int, i: int, j: int)
    requires
        distinct_addresses(tokens),
        0 <= p < tokens.len(),
        0 <= i < tokens.len(),
        i + 1 <= j <= tokens.len(),
    ensures
        i == p ==> row_edges(tokens, pool, tokens[p].address, i, j) == Seq::new(
            (j - i - 1) as nat,
            |k: int| EdgeModel { token: tokens[i + 1 + k].address, pool },
        ),
        i != p ==> row_edges(tokens, pool, tokens[p].address, i, j) == if i < p < j {
            seq![EdgeModel { token: tokens[i].address, pool }]
        } else {
            Seq::<EdgeModel>::empty()
        },
    decreases j - i,
{
    let t = tokens[p].address;
    if j == i + 1 {
        assert(row_edges(tokens, pool, t, i, j) =~= Seq::<EdgeModel>::empty());
        if i == p {
            assert(Seq::new((j - i - 1) as nat, |k: int| EdgeModel { token: tokens[i + 1 + k].address, pool })
                =~= Seq::<EdgeModel>::empty());
        }
    } else {
        let m = j - 1;
        lemma_row_edges(tokens, pool, p, i, m);
        let prev = row_edges(tokens, pool, t, i, m);
        let pe = pair_edges(tokens, pool, t, i, m);
        assert(row_edges(tokens, pool, t, i, j) == prev + pe);
        if i == p {
            assert(tokens[m].address != t);
            assert(pe =~= seq![EdgeModel { token: tokens[m].address, pool }]);
            assert(prev + pe =~= Seq::new((j - i - 1) as nat, |k: int| EdgeModel { token: tokens[i + 1 + k].address, pool }));
        } else {
            assert(tokens[i].address != t);
            if m == p {
                assert(pe =~= seq![EdgeModel { token: tokens[i].address, pool }]);
                assert(prev + pe =~= seq![EdgeModel { token: tokens[i].address, pool }]);
            } else {
                assert(tokens[m].address != t);
                assert(pe =~= Seq::<EdgeModel>::empty());
                assert(prev + pe =~= prev);
            }
        }
    }
}

proof fn lemma_rows_edges(tokens: Seq<AssetModel>, pool: PoolIdModel, p: int, i: int)
    requires
        distinct_addresses(tokens),
        0 <= p < tokens.len(),
        0 <= i <= tokens.len(),
    ensures
        i <= p ==> rows_edges(tokens, pool, tokens[p].address, i) == Seq::new(
            i as nat,
            |k: int| EdgeModel { token: tokens[k].address, pool },
        ),
        i > p ==> rows_edges(tokens, pool, tokens[p].address, i) == edges_to_others(tokens, pool, p),
    decreases i,
{
    let t = tokens[p].address;
    let n = tokens.len() as int;
    if i == 0 {
        assert(rows_edges(tokens, pool, t, 0) =~= Seq::new(0, |k: int| EdgeModel { token: tokens[k].address, pool }));
    } else {
        let m = i - 1;
        lemma_rows_edges(tokens, pool, p, m);
        lemma_row_edges(tokens, pool, p, m, n);
        let prev = rows_edges(tokens, pool, t, m);
        let row = row_edges(tokens, pool, t, m, n);
        assert(rows_edges(tokens, pool, t, i) == prev + row);
        if m < p {
            assert(prev + row =~= Seq::new(i as nat, |k: int| EdgeModel { token: tokens[k].address, pool }));
        } else if m == p {
            assert(prev + row =~= edges_to_others(tokens, pool, p));
        } else {
            assert(prev + row =~= prev);
        }
    }
}

proof fn lemma_rows_edges_elsewhere(tokens: Seq<AssetModel>, pool: PoolIdModel, t: Seq<u8>, i: int)
    requires
        forall|x: int| 0 <= x < tokens.len() ==> tokens[x].address != t,
        0 <= i <= tokens.len(),
    ensures
        rows_edges(tokens, pool, t, i) == Seq::<EdgeModel>::empty(),
    decreases i,
{
    if i > 0 {
        lemma_rows_edges_elsewhere(tokens, pool, t, i - 1);
        lemma_row_edges_elsewhere(tokens, pool, t, i - 1, tokens.len() as int);
        assert(rows_edges(tokens, pool, t, i) =~= Seq::<EdgeModel>::empty());
    }
}

proof fn lemma_row_edges_elsewhere(tokens: Seq<AssetModel>, pool: PoolIdModel, t: Seq<u8>, i: int, j: int)
    requires
        forall|x: int| 0 <= x < tokens.len() ==> tokens[x].address != t,
        0 <= i < tokens.len(),
        i < j <= tokens.len(),
    ensures
        row_edges(tokens, pool, t, i, j) == Seq::<EdgeModel>::empty(),
    decreases j - i,
{
    if j > i + 1 {
        lemma_row_edges_elsewhere(tokens, pool, t, i, j - 1);
        assert(tokens[i].address != t && tokens[j - 1].address != t);
        assert(row_edges(tokens, pool, t, i, j) =~= Seq::<EdgeModel>::empty());
    }
}

/// What a pool with tokens of different addresses adds to a token's list:
/// for one of its tokens, an edge to each of the others in their order,
/// through the pool; for any other token, nothing.
pub proof fn lemma_new_edges_exact(tokens: Seq<AssetModel>, pool: PoolIdModel, t: Seq<u8>)
    requires
        distinct_addresses(tokens),
    ensures
        forall|p: int| 0 <= p < tokens.len() && tokens[p].address == t ==> new_edges(tokens, pool, t)
            == edges_to_others(tokens, pool, p),
        (forall|x: int| 0 <= x < tokens.len() ==> tokens[x].address != t) ==> new_edges(tokens, pool, t)
            == Seq::<EdgeModel>::empty(),
{
    assert forall|p: int| 0 <= p < tokens.len() && tokens[p].address == t implies new_edges(tokens, pool, t)
        == edges_to_others(tokens, pool, p) by {
        lemma_rows_edges(tokens, pool, p, tokens.len() as int);
    }
    if forall|x: int| 0 <= x < tokens.len() ==> tokens[x].address != t {
        lemma_rows_edges_elsewhere(tokens, pool, t, tokens.len() as int);
    }
}

/// A graph whose lists hold no edge twice keeps that property when a pool
/// that no edge goes through yet is added with tokens of different
/// addresses.
pub proof fn lemma_add_pool_keeps_edges_distinct(
    before: TokenGraph,
    after: TokenGraph,
    pool: PoolIdModel,
    tokens: Seq<AssetModel>,
)
    requires
        tokens.len() >= 2,
        pool_added(before, after, pool, tokens),
        distinct_addresses(tokens),
        forall|a: Seq<u8>| #[trigger] before.edges_of(a).no_duplicates(),
        forall|a: Seq<u8>, k: int|
            0 <= k < before.edges_of(a).len() ==> (#[trigger] before.edges_of(a)[k]).pool != pool,
    ensures
        forall|a: Seq<u8>| #[trigger] after.edges_of(a).no_duplicates(),
{
    assert forall|a: Seq<u8>| #[trigger] after.edges_of(a).no_duplicates() by {
        lemma_new_edges_exact(tokens, pool, a);
        let x = before.edges_of(a);
        let y = new_edges(tokens, pool, a);
        let w = after.edges_of(a);
        assert(w == x + y);
        assert(x.no_duplicates());
        assert(y.no_duplicates() && forall|k: int| 0 <= k < y.len() ==> (#[trigger] y[k]).pool == pool) by {
            if exists|p: int| 0 <= p < tokens.len() && tokens[p].address == a {
                let p = choose|p: int| 0 <= p < tokens.len() && tokens[p].address == a;
                assert(y == edges_to_others(tokens, pool, p));
                assert forall|i: int, j: int| 0 <= i < y.len() && 0 <= j < y.len() && i != j implies y[i] != y[j] by {
                    let ii = if i < p { i } else { i + 1 };
                    let jj = if j < p { j } else { j + 1 };
                    assert(tokens[ii].address != tokens[jj].address);
                }
            } else {
                assert(y == Seq::<EdgeModel>::empty());
            }
        }
        assert forall|i: int, j: int| 0 <= i < w.len() && 0 <= j < w.len() && i != j implies w[i] != w[j] by {
            if i < x.len() && j < x.len() {
                assert(w[i] == x[i] && w[j] == x[j]);
            } else if i >= x.len() && j >= x.len() {
                assert(w[i] == y[i - x.len()] && w[j] == y[j - x.len()]);
            } else if i < x.len() {
                assert(w[i] == x[i] && w[j] == y[j - x.len()]);
                assert(x[i].pool != pool);
            } else {
                assert(w[j] == x[j] && w[i] == y[i - x.len()]);
                assert(x[j].pool != pool);
            }
        }
    }
}

/// The edges as abstract values.
pub open spec fn edge_models(es: Seq<TokenEdge>) -> Seq<EdgeModel> {
    es.map_values(|e: TokenEdge| e@)
}

pub open spec fn asset_models(s: Seq<Asset>) -> Seq<AssetModel> {
    s.map_values(|a: Asset| a@)
}

/// Two edges added one after the other, `a` to `b` and then `b` to `a`,
/// both through `w`: each list gets its new edges appended, the two tokens
/// are joined both ways, nothing joined before stops being joined, and
/// nothing else becomes joined.
proof fn lemma_two_edges(before: TokenGraph, mid: TokenGraph, fin: TokenGraph, a: Seq<u8>, b: Seq<u8>, w: PoolIdModel)
    requires
        mid.edges_of(a) == before.edges_of(a).push(EdgeModel { token: b, pool: w }),
        forall|t: Seq<u8>| t != a ==> mid.edges_of(t) == before.edges_of(t),
        fin.edges_of(b) == mid.edges_of(b).push(EdgeModel { token: a, pool: w }),
        forall|t: Seq<u8>| t != b ==> fin.edges_of(t) == mid.edges_of(t),
    ensures
        forall|t: Seq<u8>| #[trigger] fin.edges_of(t) == before.edges_of(t) + ((if a == t {
            seq![EdgeModel { token: b, pool: w }]
        } else {
            Seq::empty()
        }) + (if b == t {
            seq![EdgeModel { token: a, pool: w }]
        } else {
            Seq::empty()
        })),
        fin.joins(a, b, w),
        fin.joins(b, a, w),
        fin.has_edge(a, b),
        fin.has_edge(b, a),
        forall|p: Seq<u8>, q: Seq<u8>, x: PoolIdModel| before.joins(p, q, x) ==> #[trigger] fin.joins(p, q, x),
        forall|p: Seq<u8>, q: Seq<u8>| before.has_edge(p, q) ==> #[trigger] fin.has_edge(p, q),
        forall|p: Seq<u8>, q: Seq<u8>, x: PoolIdModel| #[trigger] fin.joins(p, q, x) ==> before.joins(p, q, x)
            || (x == w && ((p == a && q == b) || (p == b && q == a))),
        forall|p: Seq<u8>, q: Seq<u8>| #[trigger] fin.has_edge(p, q) ==> before.has_edge(p, q) || (p == a
            && q == b) || (p == b && q == a),
{
    let ea = seq![EdgeModel { token: b, pool: w }];
    let eb = seq![EdgeModel { token: a, pool: w }];
    assert forall|t: Seq<u8>| #[trigger] fin.edges_of(t) == before.edges_of(t) + ((if a == t { ea } else {
        Seq::empty()
    }) + (if b == t { eb } else { Seq::empty() })) by {
        if t == a && t == b {
            assert(fin.edges_of(t) =~= before.edges_of(t) + (ea + eb));
        } else if t == a {
            assert(fin.edges_of(t) =~= before.edges_of(t) + (ea + Seq::<EdgeModel>::empty()));
        } else if t == b {
            assert(fin.edges_of(t) =~= before.edges_of(t) + (Seq::<EdgeModel>::empty() + eb));
        } else {
            assert(fin.edges_of(t) =~= before.edges_of(t) + (Seq::<EdgeModel>::empty() + Seq::<EdgeModel>::empty()));
        }
    }
    let la = before.edges_of(a).len() as int;
    assert(fin.edges_of(a)[la] == EdgeModel { token: b, pool: w });
    let lb = fin.edges_of(b).len() - 1;
    assert(fin.edges_of(b)[lb] == EdgeModel { token: a, pool: w });
    assert forall|p: Seq<u8>, q: Seq<u8>, x: PoolIdModel| before.joins(p, q, x) implies #[trigger] fin.joins(p, q, x) by {
        let k = choose|k: int| 0 <= k < before.edges_of(p).len() && before.edges_of(p)[k] == EdgeModel { token: q, pool: x };
        assert(fin.edges_of(p)[k] == before.edges_of(p)[k]);
    }
    assert forall|p: Seq<u8>, q: Seq<u8>| before.has_edge(p, q) implies #[trigger] fin.has_edge(p, q) by {
        let k = choose|k: int| 0 <= k < before.edges_of(p).len() && before.edges_of(p)[k].token == q;
        assert(fin.edges_of(p)[k] == before.edges_of(p)[k]);
    }
    assert forall|p: Seq<u8>, q: Seq<u8>, x: PoolIdModel| #[trigger] fin.joins(p, q, x) implies before.joins(p, q, x)
        || (x == w && ((p == a && q == b) || (p == b && q == a))) by {
        let k = choose|k: int| 0 <= k < fin.edges_of(p).len() && fin.edges_of(p)[k] == EdgeModel { token: q, pool: x };
        if k < before.edges_of(p).len() {
            assert(before.edges_of(p)[k] == fin.edges_of(p)[k]);
        }
    }
    assert forall|p: Seq<u8>, q: Seq<u8>| #[trigger] fin.has_edge(p, q) implies before.has_edge(p, q) || (p == a
        && q == b) || (p == b && q == a) by {
        let k = choose|k: int| 0 <= k < fin.edges_of(p).len() && fin.edges_of(p)[k].token == q;
        if k < before.edges_of(p).len() {
            assert(before.edges_of(p)[k] == fin.edges_of(p)[k]);
        }
    }
}

impl TokenGraph {
    pub open spec fn wf(&self) -> bool {
        &&& self.adjacency.wf()
        &&& self.pool_assets.wf()
        &&& forall|i: int, j: int|
            0 <= i < self.pools@.len() && 0 <= j < self.pools@.len() && i != j ==> self.pools@[i]@
                != self.pools@[j]@
    }

    /// The edges leaving a token, in the order they were added.
    pub open spec fn edges_of(&self, a: Seq<u8>) -> Seq<EdgeModel> {
        if self.adjacency.map().contains_key(a) {
            edge_models(self.adjacency.map()[a]@)
        } else {
            Seq::empty()
        }
    }

    /// Some pool joins `a` to `b`.
    pub open spec fn has_edge(&self, a: Seq<u8>, b: Seq<u8>) -> bool {
        exists|k: int| 0 <= k < self.edges_of(a).len() && self.edges_of(a)[k].token == b
    }

    /// A sequence of tokens, each joined to the next.
    pub open spec fn is_walk(&self, p: Seq<Seq<u8>>) -> bool {
        &&& p.len() >= 1
        &&& forall|i: int| 0 <= i < p.len() - 1 ==> #[trigger] self.has_edge(p[i], p[i + 1])
    }

    /// `b` can be reached from `a` along the graph's edges.
    pub open spec fn reaches(&self, a: Seq<u8>, b: Seq<u8>) -> bool {
        exists|p: Seq<Seq<u8>>| self.is_walk(p) && p[0] == a && p.last() == b
    }

    /// The tracked pools.
    pub open spec fn pool_set(&self) -> Set<PoolIdModel> {
        self.pools@.map_values(|p: PoolIdentifier| p@).to_set()
    }

    pub fn new() -> (r: TokenGraph)
        ensures
            r.wf(),
            r.pool_set() == Set::<PoolIdModel>::empty(),
            forall|a: Seq<u8>, b: Seq<u8>| !r.has_edge(a, b),
            r.pool_assets.map() == Map::<PoolIdModel, Vec<Asset>>::empty(),
    {
        let r = TokenGraph { adjacency: AssocList::new(), pools: Vec::new(), pool_assets: AssocList::new() };
        assert(r.pool_set() =~= Set::<PoolIdModel>::empty());
        r
    }

    fn add_edge(&mut self, from: Address, to: Address, pool: PoolIdentifier)
        requires
            old(self).wf(),
        ensures
            final(self).wf(),
            final(self).pools@ == old(self).pools@,
            final(self).pool_assets == old(self).pool_assets,
            final(self).edges_of(from@) == old(self).edges_of(from@).push(
                EdgeModel { token: to@, pool: pool@ },
            ),
            forall|a: Seq<u8>| a != from@ ==> final(self).edges_of(a) == old(self).edges_of(a),
    {
        let edge = TokenEdge { token: to, pool };
        match self.adjacency.find(&from) {
            Some(i) => {
                let mut list: Vec<TokenEdge> = Vec::new();
                std::mem::swap(&mut list, &mut self.adjacency.vals[i]);
                let ghost before = list@;
                list.push(edge);
                self.adjacency.vals.set(i, list);
                proof {
                    let o = old(self).adjacency;
                    let f = self.adjacency;
                    o.lemma_key_seq();
                    f.lemma_key_seq();
                    assert(f.key_seq() =~= o.key_seq());
                    assert forall|a: Seq<u8>| #[trigger] f.has(a) == o.has(a) by {}
                    assert forall|a: Seq<u8>| o.has(a) implies f.index_of(a) == o.index_of(a) by {
                        f.lemma_index_unique(a, o.index_of(a));
                    }
                    assert(edge_models(list@) =~= edge_models(before).push(edge@));
                }
            },
            None => {
                let mut list: Vec<TokenEdge> = Vec::new();
                list.push(edge);
                proof {
                    assert(edge_models(list@) =~= Seq::<EdgeModel>::empty().push(edge@));
                }
                self.adjacency.insert(from, list);
            },
        }
    }

    /// Adds a pool; a pool with fewer than two tokens is ignored. Each pair
    /// of its tokens is joined both ways, the pool's assets are recorded
    /// (replacing earlier ones) and the pool becomes tracked.
    #[verifier::spinoff_prover]
    #[verifier::rlimit(60)]
    pub fn add_pool(&mut self, pool: PoolIdentifier, tokens: Vec<Asset>)
        requires
            old(self).wf(),
        ensures
            final(self).wf(),
            tokens@.len() < 2 ==> *final(self) == *old(self),
            tokens@.len() >= 2 ==> pool_added(*old(self), *final(self), pool@, asset_models(tokens@)),
    {
        if tokens.len() < 2 {
            return;
        }
        let mut copy: Vec<Asset> = Vec::new();
        let mut c: usize = 0;
        while c < tokens.len()
            invariant
                c <= tokens@.len(),
                copy@.len() == c,
                forall|k: int| 0 <= k < c ==> copy@[k]@ == tokens@[k]@,
            decreases tokens@.len() - c,
        {
            copy.push(tokens[c].clone());
            c = c + 1;
        }
        assert(asset_models(copy@) =~= asset_models(tokens@));
        self.pool_assets.insert(pool.clone(), copy);
        let ghost g0 = *old(self);
        let ghost pa = self.pool_assets.map();
        let ghost tm = asset_models(tokens@);
        let ghost pv = pool@;
        let n = tokens.len();
        let mut i: usize = 0;
        proof {
            assert forall|t: Seq<u8>| #[trigger] self.edges_of(t) == g0.edges_of(t) + rows_edges(tm, pv, t, 0) by {
                assert(g0.edges_of(t) + rows_edges(tm, pv, t, 0) =~= g0.edges_of(t));
            }
        }
        while i < n
            invariant
                n == tokens@.len(),
                n >= 2,
                i <= n,
                tm == asset_models(tokens@),
                pv == pool@,
                forall|t: Seq<u8>| #[trigger] self.edges_of(t) == g0.edges_of(t) + rows_edges(tm, pv, t, i as int),
                forall|x: int, y: int|
                    0 <= x < n && 0 <= y < n && x != y && (x < i || y < i) ==> self.joins(
                        tokens@[x].address@,
                        tokens@[y].address@,
                        pv,
                    ),
                self.wf(),
                self.pools@ == g0.pools@,
                self.pool_assets.map().contains_key(pool@),
                asset_models(self.pool_assets.map()[pool@]@) == asset_models(tokens@),
                self.pool_assets.map() == pa,
                pa == g0.pool_assets.map().insert(pool@, pa[pool@]),
                forall|x: int, y: int|
                    0 <= x < n && 0 <= y < n && x != y && (x < i || y < i) ==> self.has_edge(
                        tokens@[x].address@,
                        tokens@[y].address@,
                    ),
                forall|a: Seq<u8>, b: Seq<u8>| g0.has_edge(a, b) ==> #[trigger] self.has_edge(a, b),
                forall|a: Seq<u8>, b: Seq<u8>|
                    #[trigger] self.has_edge(a, b) ==> g0.has_edge(a, b) || exists|x: int, y: int|
                        0 <= x < n && 0 <= y < n && x != y && tokens@[x].address@ == a
                            && tokens@[y].address@ == b,
                forall|a: Seq<u8>, b: Seq<u8>, w: PoolIdModel|
                    #[trigger] self.joins(a, b, w) ==> g0.joins(a, b, w) || (w == pool@ && exists|x: int, y: int|
                        0 <= x < n && 0 <= y < n && x != y && tokens@[x].address@ == a
                            && tokens@[y].address@ == b),
            decreases n - i,
        {
            let mut j: usize = i + 1;
            proof {
                assert forall|t: Seq<u8>| #[trigger] self.edges_of(t) == g0.edges_of(t) + rows_edges(tm, pv, t, i as int) + row_edges(tm, pv, t, i as int, j as int) by {
                    assert(g0.edges_of(t) + rows_edges(tm, pv, t, i as int) + row_edges(tm, pv, t, i as int, j as int) =~= g0.edges_of(t) + rows_edges(tm, pv, t, i as int));
                }
            }
            while j < n
                invariant
                    n == tokens@.len(),
                    n >= 2,
                    i < n,
                    i + 1 <= j <= n,
                    tm == asset_models(tokens@),
                    pv == pool@,
                    forall|t: Seq<u8>| #[trigger] self.edges_of(t) == g0.edges_of(t) + rows_edges(tm, pv, t, i as int) + row_edges(tm, pv, t, i as int, j as int),
                    forall|x: int, y: int|
                        0 <= x < n && 0 <= y < n && x != y && (x < i || y < i || (x == i && y < j) || (y == i && x < j))
                            ==> self.joins(tokens@[x].address@, tokens@[y].address@, pv),
                    self.wf(),
                    self.pools@ == g0.pools@,
                    self.pool_assets.map().contains_key(pool@),
                    asset_models(self.pool_assets.map()[pool@]@) == asset_models(tokens@),
                    self.pool_assets.map() == pa,
                    forall|x: int, y: int|
                        0 <= x < n && 0 <= y < n && x != y && (x < i || y < i || (x == i && y < j) || (y == i && x < j))
                            ==> self.has_edge(tokens@[x].address@, tokens@[y].address@),
                    forall|a: Seq<u8>, b: Seq<u8>| g0.has_edge(a, b) ==> #[trigger] self.has_edge(a, b),
                    forall|a: Seq<u8>, b: Seq<u8>|
                        #[trigger] self.has_edge(a, b) ==> g0.has_edge(a, b) || exists|x: int, y: int|
                            0 <= x < n && 0 <= y < n && x != y && tokens@[x].address@ == a
                                && tokens@[y].address@ == b,
                    forall|a: Seq<u8>, b: Seq<u8>, w: PoolIdModel|
                        #[trigger] self.joins(a, b, w) ==> g0.joins(a, b, w) || (w == pool@ && exists|x: int, y: int|
                            0 <= x < n && 0 <= y < n && x != y && tokens@[x].address@ == a
                                && tokens@[y].address@ == b),
                decreases n - j,
            {
                let a = tokens[i].address;
                let b = tokens[j].address;
                let ghost before = *self;
                self.add_edge(a, b, pool.clone());
                let ghost mid = *self;
                self.add_edge(b, a, pool.clone());
                proof {
                    let fin = *self;
                    lemma_two_edges(before, mid, fin, a@, b@, pv);
                    assert(tm[i as int].address == a@ && tm[j as int].address == b@);
                    assert forall|t: Seq<u8>| #[trigger] fin.edges_of(t) == g0.edges_of(t) + rows_edges(tm, pv, t, i as int) + row_edges(tm, pv, t, i as int, j + 1) by {
                        assert(fin.edges_of(t) == before.edges_of(t) + pair_edges(tm, pv, t, i as int, j as int));
                        assert(row_edges(tm, pv, t, i as int, j + 1) == row_edges(tm, pv, t, i as int, j as int) + pair_edges(tm, pv, t, i as int, j as int));
                        assert(fin.edges_of(t) =~= g0.edges_of(t) + rows_edges(tm, pv, t, i as int) + row_edges(tm, pv, t, i as int, j + 1));
                    }
                    assert forall|p: Seq<u8>, q: Seq<u8>, w: PoolIdModel| #[trigger] fin.joins(p, q, w) implies g0.joins(p, q, w) || (w == pool@ && exists|x: int, y: int|
                        0 <= x < n && 0 <= y < n && x != y && tokens@[x].address@ == p
                            && tokens@[y].address@ == q) by {
                        if p == b@ && q == a@ && w == pool@ {
                            assert(tokens@[j as int].address@ == p && tokens@[i as int].address@ == q);
                        } else if p == a@ && q == b@ && w == pool@ {
                            assert(tokens@[i as int].address@ == p && tokens@[j as int].address@ == q);
                        } else {
                            assert(before.joins(p, q, w));
                        }
                    }
                    assert forall|p: Seq<u8>, q: Seq<u8>| #[trigger] fin.has_edge(p, q) implies g0.has_edge(p, q) || exists|x: int, y: int|
                        0 <= x < n && 0 <= y < n && x != y && tokens@[x].address@ == p
                            && tokens@[y].address@ == q by {
                        if p == b@ && q == a@ {
                            assert(tokens@[j as int].address@ == p && tokens@[i as int].address@ == q);
                        } else if p == a@ && q == b@ {
                            assert(tokens@[i as int].address@ == p && tokens@[j as int].address@ == q);
                        } else {
                            assert(before.has_edge(p, q));
                        }
                    }
                }
                j = j + 1;
            }
            proof {
                assert forall|t: Seq<u8>| #[trigger] self.edges_of(t) == g0.edges_of(t) + rows_edges(tm, pv, t, i + 1) by {
                    assert(rows_edges(tm, pv, t, i + 1) == rows_edges(tm, pv, t, i as int) + row_edges(tm, pv, t, i as int, tm.len() as int));
                    assert(self.edges_of(t) =~= g0.edges_of(t) + rows_edges(tm, pv, t, i + 1));
                }
            }
            i = i + 1;
        }
        let ghost g1 = *self;
        match self.find_pool(&pool) {
            Some(_) => {
                proof {
                    assert(self.pool_set() =~= old(self).pool_set().insert(pool@));
                }
            },
            None => {
                let ghost ps = self.pools@;
                let ghost pv = pool@;
                proof {
                    let m = ps.map_values(|p: PoolIdentifier| p@);
                    assert forall|k: int| 0 <= k < ps.len() implies ps[k]@ != pv by {
                        if ps[k]@ == pv {
                            assert(m[k] == pv);
                            assert(m.contains(pv));
                        }
                    }
                }
                self.pools.push(pool);
                proof {
                    let m = ps.map_values(|p: PoolIdentifier| p@);
                    assert(self.pools@.map_values(|p: PoolIdentifier| p@) =~= m.push(pv));
                    m.lemma_push_to_set_commute(pv);
                    assert(self.pool_set() =~= old(self).pool_set().insert(pv));
                }
            },
        }
        proof {
            assert forall|a: Seq<u8>, b: Seq<u8>| #[trigger] self.has_edge(a, b) == g1.has_edge(a, b) by {
                assert(self.edges_of(a) == g1.edges_of(a));
            }
            assert forall|t: Seq<u8>| #[trigger] self.edges_of(t) == old(self).edges_of(t) + new_edges(tm, pv, t) by {
                assert(self.edges_of(t) == g1.edges_of(t));
                assert(g0.edges_of(t) == old(self).edges_of(t));
            }
            assert(self.pool_assets.map().remove(pool@) =~= old(self).pool_assets.map().remove(pool@));
            assert forall|a: Seq<u8>, b: Seq<u8>, w: PoolIdModel| #[trigger] self.joins(a, b, w) == g1.joins(a, b, w) by {
                assert(self.edges_of(a) == g1.edges_of(a));
            }
            let tm = asset_models(tokens@);
            assert forall|x: int| 0 <= x < tokens@.len() implies #[trigger] tm[x].address == tokens@[x].address@ by {}
            assert forall|a: Seq<u8>, b: Seq<u8>| #[trigger] self.has_edge(a, b) implies old(self).has_edge(a, b) || exists|i: int, j: int|
                0 <= i < tm.len() && 0 <= j < tm.len() && i != j && tm[i].address == a
                    && tm[j].address == b by {
                if !old(self).has_edge(a, b) {
                    let (i, j) = choose|i: int, j: int|
                        0 <= i < tokens@.len() && 0 <= j < tokens@.len() && i != j && tokens@[i].address@ == a
                            && tokens@[j].address@ == b;
                    assert(tm[i].address == a && tm[j].address == b);
                }
            }
            assert forall|a: Seq<u8>, b: Seq<u8>, w: PoolIdModel| #[trigger] self.joins(a, b, w) implies old(self).joins(a, b, w) || (w == pool@ && exists|i: int, j: int|
                0 <= i < tm.len() && 0 <= j < tm.len() && i != j && tm[i].address == a
                    && tm[j].address == b) by {
                if !old(self).joins(a, b, w) {
                    let (i, j) = choose|i: int, j: int|
                        0 <= i < tokens@.len() && 0 <= j < tokens@.len() && i != j && tokens@[i].address@ == a
                            && tokens@[j].address@ == b;
                    assert(tm[i].address == a && tm[j].address == b);
                }
            }
            assert forall|i: int, j: int| 0 <= i < tm.len() && 0 <= j < tm.len() && i != j implies self.joins(
                tm[i].address,
                tm[j].address,
                pv,
            ) by {
                assert(tm[i].address == tokens@[i].address@);
                assert(tm[j].address == tokens@[j].address@);
                assert(g1.joins(tm[i].address, tm[j].address, pv));
                assert(self.edges_of(tm[i].address) == g1.edges_of(tm[i].address));
            }
            assert forall|i: int, j: int| 0 <= i < tm.len() && 0 <= j < tm.len() && i != j implies self.has_edge(
                tm[i].address,
                tm[j].address,
            ) by {
                assert(tm[i].address == tokens@[i].address@);
                assert(tm[j].address == tokens@[j].address@);
            }
        }
    }

    fn find_pool(&self, pool: &PoolIdentifier) -> (r: Option<usize>)
        ensures
            r is Some <==> self.pool_set().contains(pool@),
    {
        let mut i: usize = 0;
        while i < self.pools.len()
            invariant
                i <= self.pools@.len(),
                forall|k: int| 0 <= k < i ==> self.pools@[k]@ != pool@,
            decreases self.pools@.len() - i,
        {
            if self.pools[i].same(pool) {
                proof {
                    let ps = self.pools@.map_values(|p: PoolIdentifier| p@);
                    assert(ps[i as int] == pool@);
                    assert(ps.contains(pool@));
                }
                return Some(i);
            }
            i = i + 1;
        }
        proof {
            let ps = self.pools@.map_values(|p: PoolIdentifier| p@);
            if self.pool_set().contains(pool@) {
                assert(ps.contains(pool@));
                let k = choose|k: int| 0 <= k < ps.len() && #[trigger] ps[k] == pool@;
                assert(self.pools@[k]@ == pool@);
            }
        }
        None
    }

    /// The tracked pools.
    pub fn tracked_pools(&self) -> (r: Vec<PoolIdentifier>)
        ensures
            r@.map_values(|p: PoolIdentifier| p@).to_set() == self.pool_set(),
            r@.len() == self.pools@.len(),
    {
        let mut out: Vec<PoolIdentifier> = Vec::new();
        let mut i: usize = 0;
        while i < self.pools.len()
            invariant
                i <= self.pools@.len(),
                out@.len() == i,
                forall|k: int| 0 <= k < i ==> out@[k]@ == self.pools@[k]@,
            decreases self.pools@.len() - i,
        {
            out.push(self.pools[i].clone());
            i = i + 1;
        }
        assert(out@.map_values(|p: PoolIdentifier| p@) =~= self.pools@.map_values(|p: PoolIdentifier| p@));
        out
    }
}

} // verus!

verus! {

/// The targets of all edges, list by list.
pub open spec fn edge_targets(vals: Seq<Vec<TokenEdge>>) -> Seq<Seq<u8>>
    decreases vals.len(),
{
    if vals.len() == 0 {
        Seq::empty()
    } else {
        edge_targets(vals.drop_last()) + vals.last()@.map_values(|e: TokenEdge| e.token@)
    }
}

proof fn lemma_edge_targets(vals: Seq<Vec<TokenEdge>>, i: int, k: int)
    requires
        0 <= i < vals.len(),
        0 <= k < vals[i]@.len(),
    ensures
        edge_targets(vals).contains(vals[i]@[k].token@),
    decreases vals.len(),
{
    let last = vals.last()@.map_values(|e: TokenEdge| e.token@);
    if i == vals.len() - 1 {
        assert(last[k] == vals[i]@[k].token@);
        assert((edge_targets(vals.drop_last()) + last)[edge_targets(vals.drop_last()).len() + k]
            == last[k]);
    } else {
        lemma_edge_targets(vals.drop_last(), i, k);
        let j = choose|j: int| 0 <= j < edge_targets(vals.drop_last()).len() && edge_targets(vals.drop_last())[j] == vals[i]@[k].token@;
        assert((edge_targets(vals.drop_last()) + last)[j] == vals[i]@[k].token@);
    }
}

/// A list without repeats that lies within another list is no longer.
proof fn lemma_distinct_within(s: Seq<Seq<u8>>, u: Seq<Seq<u8>>)
    requires
        s.no_duplicates(),
        forall|i: int| 0 <= i < s.len() ==> u.contains(#[trigger] s[i]),
    ensures
        s.len() <= u.len(),
{
    s.unique_seq_to_set();
    u.lemma_cardinality_of_set();
    assert(s.to_set().subset_of(u.to_set()));
    vstd::set_lib::lemma_len_subset(s.to_set(), u.to_set());
}

/// Whether a list of addresses holds the given one.
pub open spec fn in_list(list: Seq<Address>, x: Seq<u8>) -> bool {
    exists|i: int| 0 <= i < list.len() && #[trigger] list[i]@ == x
}

pub fn contains_address(list: &Vec<Address>, x: &Address) -> (r: bool)
    ensures
        r == in_list(list@, x@),
{
    let mut i: usize = 0;
    while i < list.len()
        invariant
            i <= list@.len(),
            forall|k: int| 0 <= k < i ==> list@[k]@ != x@,
        decreases list@.len() - i,
    {
        if list[i].same(x) {
            return true;
        }
        i = i + 1;
    }
    false
}

pub open spec fn address_views(s: Seq<Address>) -> Seq<Seq<u8>> {
    s.map_values(|a: Address| a@)
}

impl TokenGraph {
    proof fn lemma_reaches_self(&self, a: Seq<u8>)
        ensures
            self.reaches(a, a),
    {
        let p = seq![a];
        assert(self.is_walk(p) && p[0] == a && p.last() == a);
    }

    proof fn lemma_reaches_step(&self, s: Seq<u8>, a: Seq<u8>, b: Seq<u8>)
        requires
            self.reaches(s, a),
            self.has_edge(a, b),
        ensures
            self.reaches(s, b),
    {
        let p = choose|p: Seq<Seq<u8>>| self.is_walk(p) && p[0] == s && p.last() == a;
        let q = p.push(b);
        assert forall|i: int| 0 <= i < q.len() - 1 implies #[trigger] self.has_edge(q[i], q[i + 1]) by {
            if i < p.len() - 1 {
                assert(q[i] == p[i] && q[i + 1] == p[i + 1]);
            }
        }
        assert(self.is_walk(q) && q[0] == s && q.last() == b);
    }

    /// A walk that starts in a set closed under edges stays in it.
    proof fn lemma_closed_walk(&self, v: Seq<Seq<u8>>, p: Seq<Seq<u8>>, i: int)
        requires
            self.is_walk(p),
            v.contains(p[0]),
            forall|x: Seq<u8>, y: Seq<u8>| v.contains(x) && #[trigger] self.has_edge(x, y) ==> v.contains(y),
            0 <= i < p.len(),
        ensures
            v.contains(p[i]),
        decreases i,
    {
        if i > 0 {
            self.lemma_closed_walk(v, p, i - 1);
            let j = i - 1;
            assert(self.has_edge(p[j], p[j + 1]));
            assert(p[j + 1] == p[i]);
        }
    }

    /// Whether a token is joined, directly or through other tokens, to a
    /// token of the whitelist (a whitelisted token is joined to itself).
    pub fn is_connected_to_whitelist(&self, start: Address, whitelist: &Vec<Address>) -> (r: bool)
        requires
            self.wf(),
        ensures
            r == exists|w: Seq<u8>| in_list(whitelist@, w) && self.reaches(start@, w),
    {
        proof {
            self.lemma_reaches_self(start@);
        }
        if contains_address(whitelist, &start) {
            return true;
        }
        let ghost u = seq![start@] + edge_targets(self.adjacency.vals@);
        let mut visited: Vec<Address> = Vec::new();
        visited.push(start);
        proof {
            assert(u[0] == start@);
            assert(address_views(visited@) =~= seq![start@]);
        }
        let mut qi: usize = 0;
        while qi < visited.len()
            invariant
                self.wf(),
                u == seq![start@] + edge_targets(self.adjacency.vals@),
                visited@.len() >= 1,
                visited@[0]@ == start@,
                qi <= visited@.len(),
                address_views(visited@).no_duplicates(),
                forall|k: int| 0 <= k < visited@.len() ==> self.reaches(start@, #[trigger] visited@[k]@),
                forall|k: int| 0 <= k < visited@.len() ==> !in_list(whitelist@, #[trigger] visited@[k]@),
                forall|k: int| 0 <= k < visited@.len() ==> u.contains(#[trigger] visited@[k]@),
                forall|k: int, y: Seq<u8>|
                    0 <= k < qi && #[trigger] self.has_edge(visited@[k]@, y) ==> address_views(visited@).contains(y),
            decreases u.len() - visited@.len(), visited@.len() - qi,
        {
            let token = visited[qi];
            let ghost kq = qi as int;
            qi = qi + 1;
            let ghost v0 = visited@.len();
            proof {
                lemma_distinct_within(address_views(visited@), u);
            }
            match self.adjacency.get(&token) {
                Some(edges) => {
                    let mut idx: usize = 0;
                    while idx < edges.len()
                        invariant
                            self.wf(),
                            u == seq![start@] + edge_targets(self.adjacency.vals@),
                            self.adjacency.map().contains_key(token@),
                            *edges == self.adjacency.map()[token@],
                            idx <= edges@.len(),
                            token@ == visited@[kq]@,
                            0 <= kq < qi <= visited@.len(),
                            visited@.len() >= v0,
                            visited@[0]@ == start@,
                            address_views(visited@).no_duplicates(),
                            forall|k: int| 0 <= k < visited@.len() ==> self.reaches(start@, #[trigger] visited@[k]@),
                            forall|k: int| 0 <= k < visited@.len() ==> !in_list(whitelist@, #[trigger] visited@[k]@),
                            forall|k: int| 0 <= k < visited@.len() ==> u.contains(#[trigger] visited@[k]@),
                            forall|k: int, y: Seq<u8>|
                                0 <= k < kq && #[trigger] self.has_edge(visited@[k]@, y) ==> address_views(visited@).contains(y),
                            forall|e: int| 0 <= e < idx ==> address_views(visited@).contains(#[trigger] edges@[e].token@),
                        decreases edges@.len() - idx,
                    {
                        let next = edges[idx].token;
                        proof {
                            let ai = self.adjacency.index_of(token@);
                            self.adjacency.lemma_key_seq();
                            assert(self.adjacency.vals@[ai] == *edges);
                            lemma_edge_targets(self.adjacency.vals@, ai, idx as int);
                            let em = edge_models(edges@);
                            assert(em[idx as int].token == next@);
                            assert(self.edges_of(token@) == em);
                            assert(self.has_edge(token@, next@));
                            self.lemma_reaches_step(start@, token@, next@);
                            let j = choose|j: int| 0 <= j < edge_targets(self.adjacency.vals@).len() && edge_targets(self.adjacency.vals@)[j] == next@;
                            assert(u[j + 1] == next@);
                        }
                        if contains_address(whitelist, &next) {
                            return true;
                        }
                        if !contains_address(&visited, &next) {
                            let ghost before = visited@;
                            visited.push(next);
                            proof {
                                assert(address_views(visited@) =~= address_views(before).push(next@));
                                assert forall|k: int| 0 <= k < visited@.len() implies #[trigger] visited@[k]@ == address_views(visited@)[k] by {}
                                assert(!address_views(before).contains(next@)) by {
                                    if address_views(before).contains(next@) {
                                        let k = choose|k: int| 0 <= k < address_views(before).len() && address_views(before)[k] == next@;
                                        assert(before[k]@ == next@);
                                    }
                                }
                                assert(address_views(visited@)[visited@.len() - 1] == next@);
                                assert forall|k: int, y: Seq<u8>|
                                    0 <= k < kq && #[trigger] self.has_edge(visited@[k]@, y) implies address_views(visited@).contains(y) by {
                                    assert(visited@[k] == before[k]);
                                    let m = choose|m: int| 0 <= m < address_views(before).len() && address_views(before)[m] == y;
                                    assert(address_views(visited@)[m] == y);
                                }
                                assert forall|e: int| 0 <= e < idx + 1 implies address_views(visited@).contains(#[trigger] edges@[e].token@) by {
                                    if e < idx {
                                        let m = choose|m: int| 0 <= m < address_views(before).len() && address_views(before)[m] == edges@[e].token@;
                                        assert(address_views(visited@)[m] == edges@[e].token@);
                                    }
                                }
                            }
                        } else {
                            proof {
                                let k = choose|k: int| 0 <= k < visited@.len() && #[trigger] visited@[k]@ == next@;
                                assert(address_views(visited@)[k] == next@);
                            }
                        }
                        idx = idx + 1;
                    }
                    proof {
                        assert forall|k: int, y: Seq<u8>|
                            0 <= k < qi && #[trigger] self.has_edge(visited@[k]@, y) implies address_views(visited@).contains(y) by {
                            if k == kq {
                                let e = choose|e: int| 0 <= e < self.edges_of(visited@[k]@).len() && self.edges_of(visited@[k]@)[e].token == y;
                                assert(edge_models(edges@)[e].token == edges@[e].token@);
                            }
                        }
                    }
                },
                None => {
                    proof {
                        assert forall|k: int, y: Seq<u8>|
                            0 <= k < qi && #[trigger] self.has_edge(visited@[k]@, y) implies address_views(visited@).contains(y) by {
                            if k == kq {
                                assert(self.edges_of(token@).len() == 0);
                            }
                        }
                    }
                },
            }
            proof {
                lemma_distinct_within(address_views(visited@), u);
            }
        }
        proof {
            let v = address_views(visited@);
            assert forall|x: Seq<u8>, y: Seq<u8>| v.contains(x) && #[trigger] self.has_edge(x, y) implies v.contains(y) by {
                let k = choose|k: int| 0 <= k < v.len() && v[k] == x;
                assert(visited@[k]@ == x);
            }
            assert(v[0] == start@);
            assert forall|w: Seq<u8>| in_list(whitelist@, w) implies !self.reaches(start@, w) by {
                if self.reaches(start@, w) {
                    let p = choose|p: Seq<Seq<u8>>| self.is_walk(p) && p[0] == start@ && p.last() == w;
                    self.lemma_closed_walk(v, p, p.len() - 1);
                    let k = choose|k: int| 0 <= k < v.len() && v[k] == w;
                    assert(visited@[k]@ == w);
                }
            }
        }
        false
    }
}

} // verus!
