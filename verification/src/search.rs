//! Path search over the token graph: every route from one token to another
//! that passes no token twice, found hop count by hop count.
use vstd::prelude::*;

use crate::token_graph::{
    address_views, asset_models, contains_address, distinct_addresses, edge_models, pool_added,
    EdgeModel, PathStep, StepModel, TokenEdge, TokenGraph,
};
use crate::types::{Address, Asset, AssetModel};

verus! {

/// The first asset of the list with the given address.
pub open spec fn find_asset(s: Seq<AssetModel>, a: Seq<u8>) -> Option<AssetModel>
    decreases s.len(),
{
    if s.len() == 0 {
        None
    } else if s[0].address == a {
        Some(s[0])
    } else {
        find_asset(s.subrange(1, s.len() as int), a)
    }
}

pub proof fn lemma_find_asset(s: Seq<AssetModel>, a: Seq<u8>)
    ensures
        find_asset(s, a) matches Some(x) ==> x.address == a,
    decreases s.len(),
{
    if s.len() > 0 && s[0].address != a {
        lemma_find_asset(s.subrange(1, s.len() as int), a);
    }
}

/// The hops of a path as abstract values.
pub open spec fn step_models(s: Seq<PathStep>) -> Seq<StepModel> {
    s.map_values(|x: PathStep| x@)
}

/// A path under construction: the token reached, the hops taken and the
/// tokens passed, the start first and the token reached last.
pub struct PartialModel {
    pub current: Seq<u8>,
    pub steps: Seq<StepModel>,
    pub visited: Seq<Seq<u8>>,
}

struct Partial {
    current: Address,
    steps: Vec<PathStep>,
    visited: Vec<Address>,
}

impl View for Partial {
    type V = PartialModel;

    closed spec fn view(&self) -> PartialModel {
        PartialModel {
            current: self.current@,
            steps: step_models(self.steps@),
            visited: address_views(self.visited@),
        }
    }
}

spec fn partial_models(s: Seq<Partial>) -> Seq<PartialModel> {
    s.map_values(|p: Partial| p@)
}

pub open spec fn path_models(s: Seq<Vec<PathStep>>) -> Seq<Seq<StepModel>> {
    s.map_values(|r: Vec<PathStep>| step_models(r@))
}

impl TokenGraph {
    /// The hop from `current` along an edge: the pool's assets for the two
    /// tokens, when the pool's assets are known and hold both.
    pub open spec fn step_of(&self, current: Seq<u8>, e: EdgeModel) -> Option<StepModel> {
        if self.pool_assets.map().contains_key(e.pool) {
            let assets = asset_models(self.pool_assets.map()[e.pool]@);
            match (find_asset(assets, current), find_asset(assets, e.token)) {
                (Some(i), Some(o)) => Some(StepModel { pool: e.pool, input: i, output: o }),
                _ => None,
            }
        } else {
            None
        }
    }

    /// What the edges `es` make of one path under construction: the longer
    /// paths still under construction, and the paths that reach `target`.
    /// An edge back to a token already passed, or one that gives no hop, is
    /// skipped.
    pub open spec fn extend(&self, target: Seq<u8>, p: PartialModel, es: Seq<EdgeModel>) -> (
        Seq<PartialModel>,
        Seq<Seq<StepModel>>,
    )
        decreases es.len(),
    {
        if es.len() == 0 {
            (Seq::empty(), Seq::empty())
        } else {
            let prev = self.extend(target, p, es.drop_last());
            let e = es.last();
            if p.visited.contains(e.token) {
                prev
            } else {
                match self.step_of(p.current, e) {
                    None => prev,
                    Some(s) => if e.token == target {
                        (prev.0, prev.1.push(p.steps.push(s)))
                    } else {
                        (
                            prev.0.push(
                                PartialModel {
                                    current: e.token,
                                    steps: p.steps.push(s),
                                    visited: p.visited.push(e.token),
                                },
                            ),
                            prev.1,
                        )
                    },
                }
            }
        }
    }

    /// One more hop for every path under construction, in order.
    pub open spec fn grow(&self, target: Seq<u8>, ps: Seq<PartialModel>) -> (
        Seq<PartialModel>,
        Seq<Seq<StepModel>>,
    )
        decreases ps.len(),
    {
        if ps.len() == 0 {
            (Seq::empty(), Seq::empty())
        } else {
            let a = self.grow(target, ps.drop_last());
            let b = self.extend(target, ps.last(), self.edges_of(ps.last().current));
            (a.0 + b.0, a.1 + b.1)
        }
    }

    /// The paths under construction after `k` hops.
    pub open spec fn frontier(&self, start: Seq<u8>, target: Seq<u8>, k: nat) -> Seq<PartialModel>
        decreases k,
    {
        if k == 0 {
            seq![PartialModel { current: start, steps: Seq::empty(), visited: seq![start] }]
        } else {
            self.grow(target, self.frontier(start, target, (k - 1) as nat)).0
        }
    }

    /// The paths to `target` of at most `n` hops: first those of one hop,
    /// then those of two, and so on.
    pub open spec fn paths_within(&self, start: Seq<u8>, target: Seq<u8>, n: nat) -> Seq<
        Seq<StepModel>,
    >
        decreases n,
    {
        if n == 0 {
            Seq::empty()
        } else {
            self.paths_within(start, target, (n - 1) as nat) + self.grow(
                target,
                self.frontier(start, target, (n - 1) as nat),
            ).1
        }
    }

    /// What a search from `start` to `target` finds: nothing when the two
    /// are the same token.
    pub open spec fn found_paths(&self, start: Seq<u8>, target: Seq<u8>, max_hops: nat) -> Seq<
        Seq<StepModel>,
    > {
        if start == target {
            Seq::empty()
        } else {
            self.paths_within(start, target, max_hops)
        }
    }

    /// The pool `pool` joins `a` to `b`.
    pub open spec fn joins(&self, a: Seq<u8>, b: Seq<u8>, pool: crate::types::PoolIdModel) -> bool {
        exists|k: int|
            0 <= k < self.edges_of(a).len() && self.edges_of(a)[k] == EdgeModel { token: b, pool }
    }

    /// A route from `start` to `target`: each hop leaves from the token the
    /// one before reached, through a pool that joins the two tokens, and no
    /// token is passed twice.
    pub open spec fn is_route(&self, start: Seq<u8>, target: Seq<u8>, r: Seq<StepModel>) -> bool {
        &&& r.len() >= 1
        &&& r[0].input.address == start
        &&& r.last().output.address == target
        &&& forall|i: int|
            0 <= i < r.len() - 1 ==> #[trigger] r[i].output.address == r[i + 1].input.address
        &&& forall|i: int|
            0 <= i < r.len() ==> self.joins(
                #[trigger] r[i].input.address,
                r[i].output.address,
                r[i].pool,
            )
        &&& forall|i: int, j: int|
            0 <= i < j < r.len() ==> #[trigger] r[i].input.address != #[trigger] r[j].input.address
        &&& forall|i: int| 0 <= i < r.len() ==> #[trigger] r[i].input.address != target
    }
}

fn find_asset_in(assets: &Vec<Asset>, a: &Address) -> (r: Option<Asset>)
    ensures
        match r {
            Some(x) => find_asset(asset_models(assets@), a@) == Some(x@),
            None => find_asset(asset_models(assets@), a@) is None,
        },
{
    let ghost s = asset_models(assets@);
    let mut i: usize = 0;
    assert(s.subrange(0, s.len() as int) =~= s);
    while i < assets.len()
        invariant
            i <= assets@.len(),
            s == asset_models(assets@),
            find_asset(s, a@) == find_asset(s.subrange(i as int, s.len() as int), a@),
        decreases assets@.len() - i,
    {
        let ghost rest = s.subrange(i as int, s.len() as int);
        assert(rest[0] == assets@[i as int]@);
        if assets[i].address.same(a) {
            return Some(assets[i].clone());
        }
        assert(rest.subrange(1, rest.len() as int) =~= s.subrange(i + 1, s.len() as int));
        i = i + 1;
    }
    assert(s.subrange(i as int, s.len() as int).len() == 0);
    None
}

fn clone_steps(v: &Vec<PathStep>) -> (r: Vec<PathStep>)
    ensures
        step_models(r@) == step_models(v@),
{
    let mut out: Vec<PathStep> = Vec::new();
    let mut i: usize = 0;
    while i < v.len()
        invariant
            i <= v@.len(),
            out@.len() == i,
            forall|k: int| 0 <= k < i ==> out@[k]@ == v@[k]@,
        decreases v@.len() - i,
    {
        out.push(v[i].clone());
        i = i + 1;
    }
    assert(step_models(out@) =~= step_models(v@));
    out
}

fn clone_addresses(v: &Vec<Address>) -> (r: Vec<Address>)
    ensures
        r@ == v@,
{
    let mut out: Vec<Address> = Vec::new();
    let mut i: usize = 0;
    while i < v.len()
        invariant
            i <= v@.len(),
            out@ == v@.subrange(0, i as int),
        decreases v@.len() - i,
    {
        out.push(v[i]);
        i = i + 1;
        assert(out@ =~= v@.subrange(0, i as int));
    }
    assert(out@ =~= v@);
    out
}

impl TokenGraph {
    /// The hop from `current` along `edge`, when the pool's assets are known
    /// and hold both tokens.
    fn build_step(&self, current: Address, edge: &TokenEdge) -> (r: Option<PathStep>)
        requires
            self.wf(),
        ensures
            match r {
                Some(s) => self.step_of(current@, edge@) == Some(s@),
                None => self.step_of(current@, edge@) is None,
            },
    {
        let assets = match self.pool_assets.get(&edge.pool) {
            Some(a) => a,
            None => return None,
        };
        let input = match find_asset_in(assets, &current) {
            Some(x) => x,
            None => return None,
        };
        let output = match find_asset_in(assets, &edge.token) {
            Some(x) => x,
            None => return None,
        };
        Some(PathStep { pool: edge.pool.clone(), input, output })
    }
}


impl TokenGraph {
    /// Once no path is under construction, none is later and no more are
    /// found.
    proof fn lemma_empty_frontier(&self, start: Seq<u8>, target: Seq<u8>, l: nat, n: nat)
        requires
            self.frontier(start, target, l).len() == 0,
            l <= n,
        ensures
            self.frontier(start, target, n).len() == 0,
            self.paths_within(start, target, n) == self.paths_within(start, target, l),
        decreases n - l,
    {
        if n > l {
            self.lemma_empty_frontier(start, target, l, (n - 1) as nat);
            let f = self.frontier(start, target, (n - 1) as nat);
            assert(f =~= Seq::<PartialModel>::empty());
            assert(self.grow(target, f).1 =~= Seq::<Seq<StepModel>>::empty());
            assert(self.paths_within(start, target, n) =~= self.paths_within(start, target, (n - 1) as nat));
        }
    }

    /// Every route from `start` to `target` of at most `max_hops` hops that
    /// passes no token twice, those of one hop first, then those of two, and
    /// so on; within a length, in the order the edges were added. Nothing
    /// when `start` is `target`. Each path found is such a route, each such
    /// route whose hops come from the pools' recorded assets is found, and,
    /// where no token's list holds the same edge twice, none is found twice.
    pub fn find_paths(&self, start: Address, target: Address, max_hops: usize) -> (r: Vec<Vec<PathStep>>)
        requires
            self.wf(),
        ensures
            path_models(r@) == self.found_paths(start@, target@, max_hops as nat),
            forall|i: int|
                0 <= i < r@.len() ==> self.is_route(start@, target@, #[trigger] path_models(r@)[i])
                    && path_models(r@)[i].len() <= max_hops,
            forall|p: Seq<StepModel>|
                #[trigger] self.is_route(start@, target@, p) && self.hops_from_assets(p) && p.len()
                    <= max_hops ==> path_models(r@).contains(p),
            forall|i: int, j: int|
                0 <= i < j < r@.len() ==> (#[trigger] path_models(r@)[i]).len() <= (
                #[trigger] path_models(r@)[j]).len(),
            (forall|a: Seq<u8>| #[trigger] self.edges_of(a).no_duplicates()) ==> path_models(
                r@,
            ).no_duplicates(),
    {
        let mut results: Vec<Vec<PathStep>> = Vec::new();
        if start.same(&target) {
            assert(path_models(results@) =~= Seq::<Seq<StepModel>>::empty());
            assert forall|p: Seq<StepModel>| #[trigger] self.is_route(start@, target@, p) implies false by {
                assert(p[0].input.address != target@);
            }
            return results;
        }
        let mut visited0: Vec<Address> = Vec::new();
        visited0.push(start);
        let mut frontier: Vec<Partial> = Vec::new();
        frontier.push(Partial { current: start, steps: Vec::new(), visited: visited0 });
        proof {
            assert(step_models(frontier@[0].steps@) =~= Seq::<StepModel>::empty());
            assert(address_views(frontier@[0].visited@) =~= seq![start@]);
            assert(partial_models(frontier@) =~= self.frontier(start@, target@, 0));
            assert(path_models(results@) =~= self.paths_within(start@, target@, 0));
        }
        let mut level: usize = 0;
        while level < max_hops && frontier.len() > 0
            invariant
                self.wf(),
                start@ != target@,
                level <= max_hops,
                partial_models(frontier@) == self.frontier(start@, target@, level as nat),
                path_models(results@) == self.paths_within(start@, target@, level as nat),
            decreases max_hops - level,
        {
            let mut next: Vec<Partial> = Vec::new();
            let ghost fr = partial_models(frontier@);
            let ghost base = path_models(results@);
            let mut fi: usize = 0;
            proof {
                assert(partial_models(next@) =~= self.grow(target@, fr.subrange(0, 0)).0);
                assert(path_models(results@) =~= base + self.grow(target@, fr.subrange(0, 0)).1);
            }
            while fi < frontier.len()
                invariant
                    self.wf(),
                    fr == partial_models(frontier@),
                    fi <= frontier@.len(),
                    partial_models(next@) == self.grow(target@, fr.subrange(0, fi as int)).0,
                    path_models(results@) == base + self.grow(target@, fr.subrange(0, fi as int)).1,
                decreases frontier@.len() - fi,
            {
                let item = &frontier[fi];
                let ghost p = item@;
                let ghost n0 = partial_models(next@);
                let ghost r0 = path_models(results@);
                let ghost es = self.edges_of(p.current);
                proof {
                    assert(p == fr[fi as int]);
                    assert(partial_models(next@) =~= n0 + self.extend(target@, p, es.subrange(0, 0)).0);
                    assert(path_models(results@) =~= r0 + self.extend(target@, p, es.subrange(0, 0)).1);
                }
                match self.adjacency.get(&item.current) {
                    Some(edges) => {
                        let mut ei: usize = 0;
                        while ei < edges.len()
                            invariant
                                self.wf(),
                                item@ == p,
                                es == edge_models(edges@),
                                ei <= edges@.len(),
                                partial_models(next@) == n0 + self.extend(target@, p, es.subrange(0, ei as int)).0,
                                path_models(results@) == r0 + self.extend(target@, p, es.subrange(0, ei as int)).1,
                            decreases edges@.len() - ei,
                        {
                            let edge = &edges[ei];
                            let ghost prev = self.extend(target@, p, es.subrange(0, ei as int));
                            let ghost pn = partial_models(next@);
                            let ghost pr = path_models(results@);
                            proof {
                                assert(es.subrange(0, ei + 1).drop_last() =~= es.subrange(0, ei as int));
                                assert(es.subrange(0, ei + 1).last() == edge@);
                            }
                            let seen = contains_address(&item.visited, &edge.token);
                            proof {
                                if seen {
                                    let k = choose|k: int| 0 <= k < item.visited@.len() && #[trigger] item.visited@[k]@ == edge.token@;
                                    assert(p.visited[k] == edge.token@);
                                } else {
                                    assert forall|k: int| 0 <= k < p.visited.len() implies p.visited[k] != edge.token@ by {
                                        assert(item.visited@[k]@ == p.visited[k]);
                                    }
                                }
                            }
                            if !seen {
                                match self.build_step(item.current, edge) {
                                    Some(step) => {
                                        let ghost sm = step@;
                                        let mut np = clone_steps(&item.steps);
                                        let ghost np0 = np@;
                                        np.push(step);
                                        proof {
                                            assert(step_models(np@) =~= step_models(np0).push(sm));
                                        }
                                        if edge.token.same(&target) {
                                            results.push(np);
                                            proof {
                                                assert(path_models(results@) =~= pr.push(p.steps.push(sm)));
                                                assert(path_models(results@) =~= r0 + self.extend(target@, p, es.subrange(0, ei + 1)).1);
                                            }
                                        } else {
                                            let mut nv = clone_addresses(&item.visited);
                                            nv.push(edge.token);
                                            let child = Partial { current: edge.token, steps: np, visited: nv };
                                            proof {
                                                assert(address_views(nv@) =~= p.visited.push(edge.token@));
                                                assert(child@ == PartialModel {
                                                    current: edge.token@,
                                                    steps: p.steps.push(sm),
                                                    visited: p.visited.push(edge.token@),
                                                });
                                            }
                                            next.push(child);
                                            proof {
                                                assert(partial_models(next@) =~= pn.push(child@));
                                                assert(partial_models(next@) =~= n0 + self.extend(target@, p, es.subrange(0, ei + 1)).0);
                                            }
                                        }
                                    },
                                    None => {},
                                }
                            }
                            ei = ei + 1;
                        }
                        proof {
                            assert(es.subrange(0, ei as int) =~= es);
                        }
                    },
                    None => {
                        proof {
                            assert(es.len() == 0);
                            assert(es.subrange(0, 0) =~= es);
                        }
                    },
                }
                proof {
                    let sub = fr.subrange(0, fi + 1);
                    assert(sub.drop_last() =~= fr.subrange(0, fi as int));
                    assert(sub.last() == p);
                    let g = self.grow(target@, fr.subrange(0, fi as int));
                    let x = self.extend(target@, p, es);
                    assert(partial_models(next@) =~= g.0 + x.0);
                    assert(path_models(results@) =~= base + (g.1 + x.1));
                }
                fi = fi + 1;
            }
            proof {
                assert(fr.subrange(0, fi as int) =~= fr);
            }
            frontier = next;
            level = level + 1;
        }
        proof {
            if level < max_hops {
                self.lemma_empty_frontier(start@, target@, level as nat, max_hops as nat);
            }
            self.lemma_paths_within_are_routes(start@, target@, max_hops as nat);
            self.lemma_paths_within_sorted(start@, target@, max_hops as nat);
            assert forall|p: Seq<StepModel>| #[trigger] self.is_route(start@, target@, p) && self.hops_from_assets(p)
                && p.len() <= max_hops implies path_models(results@).contains(p) by {
                self.lemma_routes_found(start@, target@, p, max_hops as nat);
            }
            if forall|a: Seq<u8>| #[trigger] self.edges_of(a).no_duplicates() {
                self.lemma_paths_within_distinct(start@, target@, max_hops as nat);
            }
        }
        results
    }
}


impl TokenGraph {
    /// A path under construction after `k` hops from `start`: its hops lead
    /// from token to token through joining pools, no token is passed twice
    /// and none is `target`.
    pub open spec fn partial_ok(&self, start: Seq<u8>, target: Seq<u8>, p: PartialModel, k: nat) -> bool {
        &&& p.steps.len() == k
        &&& p.visited.len() == k + 1
        &&& p.visited[0] == start
        &&& p.visited[k as int] == p.current
        &&& p.visited.no_duplicates()
        &&& !p.visited.contains(target)
        &&& forall|i: int|
            #![trigger p.steps[i]]
            0 <= i < k ==> {
                &&& p.steps[i].input.address == p.visited[i]
                &&& p.steps[i].output.address == p.visited[i + 1]
                &&& self.joins(p.visited[i], p.visited[i + 1], p.steps[i].pool)
            }
    }

    proof fn lemma_step_of(&self, current: Seq<u8>, e: EdgeModel)
        ensures
            self.step_of(current, e) matches Some(s) ==> s.input.address == current
                && s.output.address == e.token && s.pool == e.pool,
    {
        if self.pool_assets.map().contains_key(e.pool) {
            let assets = asset_models(self.pool_assets.map()[e.pool]@);
            lemma_find_asset(assets, current);
            lemma_find_asset(assets, e.token);
        }
    }

    proof fn lemma_extend_ok(&self, start: Seq<u8>, target: Seq<u8>, p: PartialModel, es: Seq<EdgeModel>, k: nat)
        requires
            self.partial_ok(start, target, p, k),
            forall|j: int| 0 <= j < es.len() ==> self.joins(p.current, #[trigger] es[j].token, es[j].pool),
        ensures
            forall|i: int|
                0 <= i < self.extend(target, p, es).0.len() ==> self.partial_ok(
                    start,
                    target,
                    #[trigger] self.extend(target, p, es).0[i],
                    k + 1,
                ),
            forall|i: int|
                0 <= i < self.extend(target, p, es).1.len() ==> self.is_route(
                    start,
                    target,
                    #[trigger] self.extend(target, p, es).1[i],
                ) && self.extend(target, p, es).1[i].len() == k + 1,
        decreases es.len(),
    {
        if es.len() > 0 {
            let prev = self.extend(target, p, es.drop_last());
            assert forall|j: int| 0 <= j < es.drop_last().len() implies self.joins(p.current, #[trigger] es.drop_last()[j].token, es.drop_last()[j].pool) by {
                assert(es.drop_last()[j] == es[j]);
            }
            self.lemma_extend_ok(start, target, p, es.drop_last(), k);
            let e = es.last();
            assert(self.joins(p.current, es[es.len() - 1].token, es[es.len() - 1].pool));
            self.lemma_step_of(p.current, e);
            if !p.visited.contains(e.token) {
                if let Some(st) = self.step_of(p.current, e) {
                    let steps = p.steps.push(st);
                    let visited = p.visited.push(e.token);
                    assert forall|i: int| 0 <= i <= k implies #[trigger] steps[i].input.address == p.visited[i] by {
                        if i < k {
                            assert(steps[i] == p.steps[i]);
                        }
                    }
                    if e.token == target {
                        let r = steps;
                        assert(r[0].input.address == p.visited[0]);
                        assert forall|i: int| 0 <= i < r.len() - 1 implies #[trigger] r[i].output.address == r[i + 1].input.address by {
                            assert(r[i] == p.steps[i]);
                            assert(r[i + 1].input.address == p.visited[i + 1]);
                        }
                        assert forall|i: int| 0 <= i < r.len() implies self.joins(
                            #[trigger] r[i].input.address,
                            r[i].output.address,
                            r[i].pool,
                        ) by {
                            if i < k {
                                assert(r[i] == p.steps[i]);
                            }
                        }
                        assert forall|i: int, j: int| 0 <= i < j < r.len() implies #[trigger] r[i].input.address != #[trigger] r[j].input.address by {
                            assert(r[i].input.address == p.visited[i]);
                            assert(r[j].input.address == p.visited[j]);
                        }
                        assert forall|i: int| 0 <= i < r.len() implies #[trigger] r[i].input.address != target by {
                            assert(r[i].input.address == p.visited[i]);
                        }
                        assert(self.is_route(start, target, r));
                        let x = self.extend(target, p, es);
                        assert(x.1 == prev.1.push(r));
                        assert forall|i: int| 0 <= i < x.1.len() implies self.is_route(start, target, #[trigger] x.1[i]) && x.1[i].len() == k + 1 by {
                            if i < prev.1.len() {
                                assert(x.1[i] == prev.1[i]);
                            }
                        }
                    } else {
                        let c = PartialModel { current: e.token, steps, visited };
                        assert(visited.no_duplicates()) by {
                            assert forall|i: int, j: int| 0 <= i < visited.len() && 0 <= j < visited.len() && i != j implies visited[i] != visited[j] by {
                                if i < k + 1 && j < k + 1 {
                                    assert(visited[i] == p.visited[i] && visited[j] == p.visited[j]);
                                } else if i < k + 1 {
                                    assert(visited[i] == p.visited[i]);
                                } else if j < k + 1 {
                                    assert(visited[j] == p.visited[j]);
                                }
                            }
                        }
                        assert(!visited.contains(target)) by {
                            if visited.contains(target) {
                                let j = choose|j: int| 0 <= j < visited.len() && visited[j] == target;
                                if j < k + 1 {
                                    assert(p.visited[j] == target);
                                }
                            }
                        }
                        assert forall|i: int| #![trigger c.steps[i]] 0 <= i < k + 1 implies {
                            &&& c.steps[i].input.address == c.visited[i]
                            &&& c.steps[i].output.address == c.visited[i + 1]
                            &&& self.joins(c.visited[i], c.visited[i + 1], c.steps[i].pool)
                        } by {
                            if i < k {
                                assert(c.steps[i] == p.steps[i]);
                                assert(c.visited[i] == p.visited[i]);
                                assert(c.visited[i + 1] == p.visited[i + 1]);
                            } else {
                                assert(c.visited[i] == p.visited[i]);
                            }
                        }
                        assert(self.partial_ok(start, target, c, k + 1));
                        let x = self.extend(target, p, es);
                        assert(x.0 == prev.0.push(c));
                        assert forall|i: int| 0 <= i < x.0.len() implies self.partial_ok(start, target, #[trigger] x.0[i], k + 1) by {
                            if i < prev.0.len() {
                                assert(x.0[i] == prev.0[i]);
                            }
                        }
                    }
                }
            }
        }
    }

    proof fn lemma_grow_ok(&self, start: Seq<u8>, target: Seq<u8>, ps: Seq<PartialModel>, k: nat)
        requires
            forall|i: int| 0 <= i < ps.len() ==> self.partial_ok(start, target, #[trigger] ps[i], k),
        ensures
            forall|i: int|
                0 <= i < self.grow(target, ps).0.len() ==> self.partial_ok(
                    start,
                    target,
                    #[trigger] self.grow(target, ps).0[i],
                    k + 1,
                ),
            forall|i: int|
                0 <= i < self.grow(target, ps).1.len() ==> self.is_route(
                    start,
                    target,
                    #[trigger] self.grow(target, ps).1[i],
                ) && self.grow(target, ps).1[i].len() == k + 1,
        decreases ps.len(),
    {
        if ps.len() > 0 {
            let a = self.grow(target, ps.drop_last());
            assert forall|i: int| 0 <= i < ps.drop_last().len() implies self.partial_ok(start, target, #[trigger] ps.drop_last()[i], k) by {
                assert(ps.drop_last()[i] == ps[i]);
            }
            self.lemma_grow_ok(start, target, ps.drop_last(), k);
            let p = ps.last();
            assert(self.partial_ok(start, target, ps[ps.len() - 1], k));
            let es = self.edges_of(p.current);
            assert forall|j: int| 0 <= j < es.len() implies self.joins(p.current, #[trigger] es[j].token, es[j].pool) by {
                assert(es[j] == EdgeModel { token: es[j].token, pool: es[j].pool });
            }
            self.lemma_extend_ok(start, target, p, es, k);
            let b = self.extend(target, p, es);
            let g = self.grow(target, ps);
            assert forall|i: int| 0 <= i < g.0.len() implies self.partial_ok(start, target, #[trigger] g.0[i], k + 1) by {
                if i < a.0.len() {
                    assert(g.0[i] == a.0[i]);
                } else {
                    assert(g.0[i] == b.0[i - a.0.len()]);
                }
            }
            assert forall|i: int| 0 <= i < g.1.len() implies self.is_route(start, target, #[trigger] g.1[i]) && g.1[i].len() == k + 1 by {
                if i < a.1.len() {
                    assert(g.1[i] == a.1[i]);
                } else {
                    assert(g.1[i] == b.1[i - a.1.len()]);
                }
            }
        }
    }

    proof fn lemma_frontier_ok(&self, start: Seq<u8>, target: Seq<u8>, n: nat)
        requires
            start != target,
        ensures
            forall|i: int|
                0 <= i < self.frontier(start, target, n).len() ==> self.partial_ok(
                    start,
                    target,
                    #[trigger] self.frontier(start, target, n)[i],
                    n,
                ),
        decreases n,
    {
        if n == 0 {
            let p = PartialModel { current: start, steps: Seq::empty(), visited: seq![start] };
            assert(p.visited.no_duplicates());
            assert(!p.visited.contains(target)) by {
                if p.visited.contains(target) {
                    let j = choose|j: int| 0 <= j < p.visited.len() && p.visited[j] == target;
                    assert(p.visited[0] == start);
                }
            }
            assert(self.partial_ok(start, target, p, 0));
            assert(self.frontier(start, target, 0)[0] == p);
        } else {
            self.lemma_frontier_ok(start, target, (n - 1) as nat);
            self.lemma_grow_ok(start, target, self.frontier(start, target, (n - 1) as nat), (n - 1) as nat);
        }
    }

    /// Every path found within `n` hops is a route of 1 to `n` hops.
    pub proof fn lemma_paths_within_are_routes(&self, start: Seq<u8>, target: Seq<u8>, n: nat)
        requires
            start != target,
        ensures
            forall|i: int|
                0 <= i < self.paths_within(start, target, n).len() ==> self.is_route(
                    start,
                    target,
                    #[trigger] self.paths_within(start, target, n)[i],
                ) && self.paths_within(start, target, n)[i].len() <= n,
        decreases n,
    {
        if n > 0 {
            let m = (n - 1) as nat;
            self.lemma_paths_within_are_routes(start, target, m);
            self.lemma_frontier_ok(start, target, m);
            self.lemma_grow_ok(start, target, self.frontier(start, target, m), m);
            let a = self.paths_within(start, target, m);
            let b = self.grow(target, self.frontier(start, target, m)).1;
            let w = self.paths_within(start, target, n);
            assert forall|i: int| 0 <= i < w.len() implies self.is_route(start, target, #[trigger] w[i]) && w[i].len() <= n by {
                if i < a.len() {
                    assert(w[i] == a[i]);
                } else {
                    assert(w[i] == b[i - a.len()]);
                }
            }
        }
    }
}

impl TokenGraph {
    /// Every hop of `r` is the hop that the pool's recorded assets give for
    /// its two tokens.
    pub open spec fn hops_from_assets(&self, r: Seq<StepModel>) -> bool {
        forall|i: int|
            #![trigger r[i]]
            0 <= i < r.len() ==> self.step_of(
                r[i].input.address,
                EdgeModel { token: r[i].output.address, pool: r[i].pool },
            ) == Some(r[i])
    }

    proof fn lemma_extend_contains(&self, target: Seq<u8>, p: PartialModel, es: Seq<EdgeModel>, j: int, st: StepModel)
        requires
            0 <= j < es.len(),
            !p.visited.contains(es[j].token),
            self.step_of(p.current, es[j]) == Some(st),
        ensures
            es[j].token == target ==> self.extend(target, p, es).1.contains(p.steps.push(st)),
            es[j].token != target ==> self.extend(target, p, es).0.contains(
                PartialModel { current: es[j].token, steps: p.steps.push(st), visited: p.visited.push(es[j].token) },
            ),
        decreases es.len(),
    {
        let prev = self.extend(target, p, es.drop_last());
        let x = self.extend(target, p, es);
        let c = PartialModel { current: es[j].token, steps: p.steps.push(st), visited: p.visited.push(es[j].token) };
        if j == es.len() - 1 {
            if es[j].token == target {
                assert(x.1 == prev.1.push(p.steps.push(st)));
                assert(x.1[prev.1.len() as int] == p.steps.push(st));
            } else {
                assert(x.0 == prev.0.push(c));
                assert(x.0[prev.0.len() as int] == c);
            }
        } else {
            assert(es.drop_last()[j] == es[j]);
            self.lemma_extend_contains(target, p, es.drop_last(), j, st);
            if es[j].token == target {
                let m = choose|m: int| 0 <= m < prev.1.len() && prev.1[m] == p.steps.push(st);
                assert(x.1[m] == prev.1[m]);
            } else {
                let m = choose|m: int| 0 <= m < prev.0.len() && prev.0[m] == c;
                assert(x.0[m] == prev.0[m]);
            }
        }
    }

    proof fn lemma_grow_contains(&self, target: Seq<u8>, ps: Seq<PartialModel>, i: int, c: PartialModel, r: Seq<StepModel>)
        requires
            0 <= i < ps.len(),
        ensures
            self.extend(target, ps[i], self.edges_of(ps[i].current)).0.contains(c) ==> self.grow(
                target,
                ps,
            ).0.contains(c),
            self.extend(target, ps[i], self.edges_of(ps[i].current)).1.contains(r) ==> self.grow(
                target,
                ps,
            ).1.contains(r),
        decreases ps.len(),
    {
        let a = self.grow(target, ps.drop_last());
        let b = self.extend(target, ps.last(), self.edges_of(ps.last().current));
        let g = self.grow(target, ps);
        let x = self.extend(target, ps[i], self.edges_of(ps[i].current));
        if i == ps.len() - 1 {
            if x.0.contains(c) {
                let m = choose|m: int| 0 <= m < b.0.len() && b.0[m] == c;
                assert(g.0[a.0.len() + m] == c);
            }
            if x.1.contains(r) {
                let m = choose|m: int| 0 <= m < b.1.len() && b.1[m] == r;
                assert(g.1[a.1.len() + m] == r);
            }
        } else {
            assert(ps.drop_last()[i] == ps[i]);
            self.lemma_grow_contains(target, ps.drop_last(), i, c, r);
            if x.0.contains(c) {
                let m = choose|m: int| 0 <= m < a.0.len() && a.0[m] == c;
                assert(g.0[m] == c);
            }
            if x.1.contains(r) {
                let m = choose|m: int| 0 <= m < a.1.len() && a.1[m] == r;
                assert(g.1[m] == r);
            }
        }
    }

    /// Every path under construction whose hops come from the pools' assets
    /// is among those the search holds after as many hops.
    proof fn lemma_frontier_contains(&self, start: Seq<u8>, target: Seq<u8>, p: PartialModel, k: nat)
        requires
            self.partial_ok(start, target, p, k),
            self.hops_from_assets(p.steps),
        ensures
            self.frontier(start, target, k).contains(p),
        decreases k,
    {
        if k == 0 {
            let p0 = PartialModel { current: start, steps: Seq::empty(), visited: seq![start] };
            assert(p.steps =~= p0.steps);
            assert(p.visited =~= p0.visited);
            assert(self.frontier(start, target, 0)[0] == p0);
        } else {
            let l = k - 1;
            let q = PartialModel { current: p.visited[l], steps: p.steps.drop_last(), visited: p.visited.drop_last() };
            assert(q.visited.no_duplicates()) by {
                assert forall|i: int, j: int| 0 <= i < q.visited.len() && 0 <= j < q.visited.len() && i != j implies q.visited[i] != q.visited[j] by {
                    assert(q.visited[i] == p.visited[i] && q.visited[j] == p.visited[j]);
                }
            }
            assert(!q.visited.contains(target)) by {
                if q.visited.contains(target) {
                    let m = choose|m: int| 0 <= m < q.visited.len() && q.visited[m] == target;
                    assert(p.visited[m] == target);
                }
            }
            assert forall|i: int| #![trigger q.steps[i]] 0 <= i < l implies {
                &&& q.steps[i].input.address == q.visited[i]
                &&& q.steps[i].output.address == q.visited[i + 1]
                &&& self.joins(q.visited[i], q.visited[i + 1], q.steps[i].pool)
            } by {
                assert(q.steps[i] == p.steps[i]);
                assert(q.visited[i] == p.visited[i] && q.visited[i + 1] == p.visited[i + 1]);
            }
            assert(self.partial_ok(start, target, q, l as nat));
            assert forall|i: int| #![trigger q.steps[i]] 0 <= i < q.steps.len() implies self.step_of(
                q.steps[i].input.address,
                EdgeModel { token: q.steps[i].output.address, pool: q.steps[i].pool },
            ) == Some(q.steps[i]) by {
                assert(q.steps[i] == p.steps[i]);
            }
            self.lemma_frontier_contains(start, target, q, l as nat);
            let fr = self.frontier(start, target, l as nat);
            let fi = choose|fi: int| 0 <= fi < fr.len() && fr[fi] == q;
            let st = p.steps[l];
            assert(st.input.address == p.visited[l] && st.output.address == p.visited[l + 1]);
            assert(self.joins(p.visited[l], p.visited[l + 1], st.pool));
            let es = self.edges_of(q.current);
            let e = EdgeModel { token: p.visited[k as int], pool: st.pool };
            let idx = choose|idx: int| 0 <= idx < es.len() && es[idx] == e;
            assert(self.step_of(q.current, es[idx]) == Some(st));
            assert(!q.visited.contains(e.token)) by {
                if q.visited.contains(e.token) {
                    let m = choose|m: int| 0 <= m < q.visited.len() && q.visited[m] == e.token;
                    assert(p.visited[m] == p.visited[k as int]);
                }
            }
            assert(e.token != target) by {
                assert(p.visited[k as int] == e.token);
            }
            self.lemma_extend_contains(target, q, es, idx, st);
            let c = PartialModel { current: e.token, steps: q.steps.push(st), visited: q.visited.push(e.token) };
            assert(c.steps =~= p.steps);
            assert(c.visited =~= p.visited);
            assert(c == p);
            self.lemma_grow_contains(target, fr, fi, p, Seq::empty());
        }
    }

    proof fn lemma_paths_within_prefix(&self, start: Seq<u8>, target: Seq<u8>, m: nat, n: nat)
        requires
            m <= n,
        ensures
            self.paths_within(start, target, m).len() <= self.paths_within(start, target, n).len(),
            forall|i: int|
                0 <= i < self.paths_within(start, target, m).len() ==> #[trigger] self.paths_within(
                    start,
                    target,
                    n,
                )[i] == self.paths_within(start, target, m)[i],
        decreases n - m,
    {
        if m < n {
            self.lemma_paths_within_prefix(start, target, m, (n - 1) as nat);
        }
    }

    /// Every route whose hops come from the pools' assets and that has at
    /// most `n` hops is found within `n` hops.
    pub proof fn lemma_routes_found(&self, start: Seq<u8>, target: Seq<u8>, r: Seq<StepModel>, n: nat)
        requires
            self.is_route(start, target, r),
            self.hops_from_assets(r),
            r.len() <= n,
        ensures
            self.paths_within(start, target, n).contains(r),
    {
        let k = r.len() as int;
        let l = k - 1;
        let visited = Seq::new(k as nat, |i: int| r[i].input.address);
        let q = PartialModel { current: r[l].input.address, steps: r.drop_last(), visited };
        assert(visited.no_duplicates()) by {
            assert forall|i: int, j: int| 0 <= i < visited.len() && 0 <= j < visited.len() && i != j implies visited[i] != visited[j] by {
                if i < j {
                    assert(r[i].input.address != r[j].input.address);
                } else {
                    assert(r[j].input.address != r[i].input.address);
                }
            }
        }
        assert(!visited.contains(target)) by {
            if visited.contains(target) {
                let m = choose|m: int| 0 <= m < visited.len() && visited[m] == target;
                assert(r[m].input.address != target);
            }
        }
        assert forall|i: int| #![trigger q.steps[i]] 0 <= i < l implies {
            &&& q.steps[i].input.address == q.visited[i]
            &&& q.steps[i].output.address == q.visited[i + 1]
            &&& self.joins(q.visited[i], q.visited[i + 1], q.steps[i].pool)
        } by {
            assert(q.steps[i] == r[i]);
            assert(r[i].output.address == r[i + 1].input.address);
            assert(self.joins(r[i].input.address, r[i].output.address, r[i].pool));
        }
        assert(self.partial_ok(start, target, q, l as nat));
        assert forall|i: int| #![trigger q.steps[i]] 0 <= i < q.steps.len() implies self.step_of(
            q.steps[i].input.address,
            EdgeModel { token: q.steps[i].output.address, pool: q.steps[i].pool },
        ) == Some(q.steps[i]) by {
            assert(q.steps[i] == r[i]);
        }
        self.lemma_frontier_contains(start, target, q, l as nat);
        let fr = self.frontier(start, target, l as nat);
        let fi = choose|fi: int| 0 <= fi < fr.len() && fr[fi] == q;
        let st = r[l];
        assert(self.joins(st.input.address, st.output.address, st.pool));
        let es = self.edges_of(q.current);
        let e = EdgeModel { token: st.output.address, pool: st.pool };
        let idx = choose|idx: int| 0 <= idx < es.len() && es[idx] == e;
        assert(self.step_of(q.current, es[idx]) == Some(st));
        assert(e.token == target);
        self.lemma_extend_contains(target, q, es, idx, st);
        assert(q.steps.push(st) =~= r);
        self.lemma_grow_contains(target, fr, fi, q, r);
        let g = self.grow(target, fr).1;
        let m = choose|m: int| 0 <= m < g.len() && g[m] == r;
        let w = self.paths_within(start, target, k as nat);
        let a = self.paths_within(start, target, l as nat);
        assert(w == a + g);
        assert(w[a.len() + m] == r);
        self.lemma_paths_within_prefix(start, target, k as nat, n);
        assert(self.paths_within(start, target, n)[a.len() + m] == r);
    }

    /// The paths found within `n` hops come shortest first.
    pub proof fn lemma_paths_within_sorted(&self, start: Seq<u8>, target: Seq<u8>, n: nat)
        requires
            start != target,
        ensures
            forall|i: int, j: int|
                0 <= i < j < self.paths_within(start, target, n).len() ==> (#[trigger] self.paths_within(
                    start,
                    target,
                    n,
                )[i]).len() <= (#[trigger] self.paths_within(start, target, n)[j]).len(),
        decreases n,
    {
        if n > 0 {
            let m = (n - 1) as nat;
            self.lemma_paths_within_sorted(start, target, m);
            self.lemma_paths_within_are_routes(start, target, m);
            self.lemma_frontier_ok(start, target, m);
            self.lemma_grow_ok(start, target, self.frontier(start, target, m), m);
            let a = self.paths_within(start, target, m);
            let b = self.grow(target, self.frontier(start, target, m)).1;
            let w = self.paths_within(start, target, n);
            assert forall|i: int, j: int| 0 <= i < j < w.len() implies (#[trigger] w[i]).len() <= (#[trigger] w[j]).len() by {
                if j < a.len() {
                    assert(w[i] == a[i] && w[j] == a[j]);
                } else if i < a.len() {
                    assert(w[i] == a[i] && w[j] == b[j - a.len()]);
                } else {
                    assert(w[i] == b[i - a.len()] && w[j] == b[j - a.len()]);
                }
            }
        }
    }
}

impl TokenGraph {
    /// A hop goes along an edge: to the edge's token, through its pool.
    pub open spec fn hop_along(s: StepModel, e: EdgeModel) -> bool {
        s.output.address == e.token && s.pool == e.pool
    }

    proof fn lemma_extend_distinct(&self, target: Seq<u8>, p: PartialModel, es: Seq<EdgeModel>)
        requires
            es.no_duplicates(),
        ensures
            forall|x: int|
                #![trigger self.extend(target, p, es).0[x]]
                0 <= x < self.extend(target, p, es).0.len() ==> {
                    &&& self.extend(target, p, es).0[x].steps.len() == p.steps.len() + 1
                    &&& self.extend(target, p, es).0[x].steps.drop_last() == p.steps
                    &&& exists|m: int|
                        0 <= m < es.len() && Self::hop_along(
                            self.extend(target, p, es).0[x].steps.last(),
                            #[trigger] es[m],
                        )
                },
            forall|x: int|
                #![trigger self.extend(target, p, es).1[x]]
                0 <= x < self.extend(target, p, es).1.len() ==> {
                    &&& self.extend(target, p, es).1[x].len() == p.steps.len() + 1
                    &&& self.extend(target, p, es).1[x].drop_last() == p.steps
                    &&& exists|m: int|
                        0 <= m < es.len() && Self::hop_along(
                            self.extend(target, p, es).1[x].last(),
                            #[trigger] es[m],
                        )
                },
            forall|x: int, y: int|
                0 <= x < y < self.extend(target, p, es).0.len() ==> (#[trigger] self.extend(
                    target,
                    p,
                    es,
                ).0[x]).steps != (#[trigger] self.extend(target, p, es).0[y]).steps,
            forall|x: int, y: int|
                0 <= x < y < self.extend(target, p, es).1.len() ==> #[trigger] self.extend(
                    target,
                    p,
                    es,
                ).1[x] != #[trigger] self.extend(target, p, es).1[y],
        decreases es.len(),
    {
        if es.len() > 0 {
            let d = es.drop_last();
            assert(d.no_duplicates()) by {
                assert forall|i: int, j: int| 0 <= i < d.len() && 0 <= j < d.len() && i != j implies d[i] != d[j] by {
                    assert(d[i] == es[i] && d[j] == es[j]);
                }
            }
            self.lemma_extend_distinct(target, p, d);
            let prev = self.extend(target, p, d);
            let x0 = self.extend(target, p, es);
            let e = es.last();
            let l = es.len() - 1;
            self.lemma_step_of(p.current, e);
            // children made before come from edges other than the last one
            assert forall|x: int| 0 <= x < prev.0.len() implies !Self::hop_along(prev.0[x].steps.last(), e) by {
                let m = choose|m: int| 0 <= m < d.len() && Self::hop_along(prev.0[x].steps.last(), #[trigger] d[m]);
                assert(d[m] == es[m]);
                if Self::hop_along(prev.0[x].steps.last(), e) {
                    assert(es[m] == es[l]);
                }
            }
            assert forall|x: int| 0 <= x < prev.1.len() implies !Self::hop_along(prev.1[x].last(), e) by {
                let m = choose|m: int| 0 <= m < d.len() && Self::hop_along(prev.1[x].last(), #[trigger] d[m]);
                assert(d[m] == es[m]);
                if Self::hop_along(prev.1[x].last(), e) {
                    assert(es[m] == es[l]);
                }
            }
            assert forall|x: int| #![trigger x0.0[x]] 0 <= x < x0.0.len() implies {
                &&& x0.0[x].steps.len() == p.steps.len() + 1
                &&& x0.0[x].steps.drop_last() == p.steps
                &&& exists|m: int| 0 <= m < es.len() && Self::hop_along(x0.0[x].steps.last(), #[trigger] es[m])
            } by {
                if x < prev.0.len() {
                    assert(x0.0[x] == prev.0[x]);
                    let m = choose|m: int| 0 <= m < d.len() && Self::hop_along(prev.0[x].steps.last(), #[trigger] d[m]);
                    assert(d[m] == es[m]);
                } else {
                    let st = self.step_of(p.current, e)->0;
                    assert(x0.0[x].steps == p.steps.push(st));
                    assert(x0.0[x].steps.drop_last() =~= p.steps);
                    assert(Self::hop_along(x0.0[x].steps.last(), es[l]));
                }
            }
            assert forall|x: int| #![trigger x0.1[x]] 0 <= x < x0.1.len() implies {
                &&& x0.1[x].len() == p.steps.len() + 1
                &&& x0.1[x].drop_last() == p.steps
                &&& exists|m: int| 0 <= m < es.len() && Self::hop_along(x0.1[x].last(), #[trigger] es[m])
            } by {
                if x < prev.1.len() {
                    assert(x0.1[x] == prev.1[x]);
                    let m = choose|m: int| 0 <= m < d.len() && Self::hop_along(prev.1[x].last(), #[trigger] d[m]);
                    assert(d[m] == es[m]);
                } else {
                    let st = self.step_of(p.current, e)->0;
                    assert(x0.1[x] == p.steps.push(st));
                    assert(x0.1[x].drop_last() =~= p.steps);
                    assert(Self::hop_along(x0.1[x].last(), es[l]));
                }
            }
            assert forall|x: int, y: int| 0 <= x < y < x0.0.len() implies (#[trigger] x0.0[x]).steps != (#[trigger] x0.0[y]).steps by {
                if y < prev.0.len() {
                    assert(x0.0[x] == prev.0[x] && x0.0[y] == prev.0[y]);
                } else {
                    assert(x0.0[x] == prev.0[x]);
                    assert(Self::hop_along(x0.0[y].steps.last(), e));
                }
            }
            assert forall|x: int, y: int| 0 <= x < y < x0.1.len() implies #[trigger] x0.1[x] != #[trigger] x0.1[y] by {
                if y < prev.1.len() {
                    assert(x0.1[x] == prev.1[x] && x0.1[y] == prev.1[y]);
                } else {
                    assert(x0.1[x] == prev.1[x]);
                    assert(Self::hop_along(x0.1[y].last(), e));
                }
            }
        }
    }
}

impl TokenGraph {
    proof fn lemma_grow_distinct(&self, target: Seq<u8>, ps: Seq<PartialModel>)
        requires
            forall|a: Seq<u8>| #[trigger] self.edges_of(a).no_duplicates(),
            forall|x: int, y: int| 0 <= x < y < ps.len() ==> (#[trigger] ps[x]).steps != (#[trigger] ps[y]).steps,
        ensures
            forall|x: int|
                0 <= x < self.grow(target, ps).0.len() ==> exists|y: int|
                    0 <= y < ps.len() && (#[trigger] self.grow(target, ps).0[x]).steps.drop_last()
                        == #[trigger] ps[y].steps,
            forall|x: int|
                0 <= x < self.grow(target, ps).1.len() ==> exists|y: int|
                    0 <= y < ps.len() && (#[trigger] self.grow(target, ps).1[x]).drop_last()
                        == #[trigger] ps[y].steps,
            forall|x: int, y: int|
                0 <= x < y < self.grow(target, ps).0.len() ==> (#[trigger] self.grow(
                    target,
                    ps,
                ).0[x]).steps != (#[trigger] self.grow(target, ps).0[y]).steps,
            forall|x: int, y: int|
                0 <= x < y < self.grow(target, ps).1.len() ==> #[trigger] self.grow(target, ps).1[x]
                    != #[trigger] self.grow(target, ps).1[y],
        decreases ps.len(),
    {
        if ps.len() > 0 {
            let d = ps.drop_last();
            assert forall|x: int, y: int| 0 <= x < y < d.len() implies (#[trigger] d[x]).steps != (#[trigger] d[y]).steps by {
                assert(d[x] == ps[x] && d[y] == ps[y]);
            }
            self.lemma_grow_distinct(target, d);
            let a = self.grow(target, d);
            let p = ps.last();
            let l = ps.len() - 1;
            let es = self.edges_of(p.current);
            assert(es.no_duplicates());
            self.lemma_extend_distinct(target, p, es);
            let b = self.extend(target, p, es);
            let g = self.grow(target, ps);
            assert forall|x: int| 0 <= x < g.0.len() implies exists|y: int|
                0 <= y < ps.len() && (#[trigger] g.0[x]).steps.drop_last() == #[trigger] ps[y].steps by {
                if x < a.0.len() {
                    assert(g.0[x] == a.0[x]);
                    let y = choose|y: int| 0 <= y < d.len() && (#[trigger] a.0[x]).steps.drop_last() == #[trigger] d[y].steps;
                    assert(d[y] == ps[y]);
                } else {
                    assert(g.0[x] == b.0[x - a.0.len()]);
                    assert(ps[l] == p);
                }
            }
            assert forall|x: int| 0 <= x < g.1.len() implies exists|y: int|
                0 <= y < ps.len() && (#[trigger] g.1[x]).drop_last() == #[trigger] ps[y].steps by {
                if x < a.1.len() {
                    assert(g.1[x] == a.1[x]);
                    let y = choose|y: int| 0 <= y < d.len() && (#[trigger] a.1[x]).drop_last() == #[trigger] d[y].steps;
                    assert(d[y] == ps[y]);
                } else {
                    assert(g.1[x] == b.1[x - a.1.len()]);
                    assert(ps[l] == p);
                }
            }
            assert forall|x: int, y: int| 0 <= x < y < g.0.len() implies (#[trigger] g.0[x]).steps != (#[trigger] g.0[y]).steps by {
                if y < a.0.len() {
                    assert(g.0[x] == a.0[x] && g.0[y] == a.0[y]);
                } else if x >= a.0.len() {
                    assert(g.0[x] == b.0[x - a.0.len()] && g.0[y] == b.0[y - a.0.len()]);
                } else {
                    assert(g.0[x] == a.0[x] && g.0[y] == b.0[y - a.0.len()]);
                    let z = choose|z: int| 0 <= z < d.len() && (#[trigger] a.0[x]).steps.drop_last() == #[trigger] d[z].steps;
                    assert(d[z] == ps[z]);
                    assert(ps[z].steps != ps[l].steps);
                }
            }
            assert forall|x: int, y: int| 0 <= x < y < g.1.len() implies #[trigger] g.1[x] != #[trigger] g.1[y] by {
                if y < a.1.len() {
                    assert(g.1[x] == a.1[x] && g.1[y] == a.1[y]);
                } else if x >= a.1.len() {
                    assert(g.1[x] == b.1[x - a.1.len()] && g.1[y] == b.1[y - a.1.len()]);
                } else {
                    assert(g.1[x] == a.1[x] && g.1[y] == b.1[y - a.1.len()]);
                    let z = choose|z: int| 0 <= z < d.len() && (#[trigger] a.1[x]).drop_last() == #[trigger] d[z].steps;
                    assert(d[z] == ps[z]);
                    assert(ps[z].steps != ps[l].steps);
                }
            }
        }
    }

    proof fn lemma_frontier_distinct(&self, start: Seq<u8>, target: Seq<u8>, n: nat)
        requires
            forall|a: Seq<u8>| #[trigger] self.edges_of(a).no_duplicates(),
        ensures
            forall|x: int, y: int|
                0 <= x < y < self.frontier(start, target, n).len() ==> (#[trigger] self.frontier(
                    start,
                    target,
                    n,
                )[x]).steps != (#[trigger] self.frontier(start, target, n)[y]).steps,
        decreases n,
    {
        if n > 0 {
            self.lemma_frontier_distinct(start, target, (n - 1) as nat);
            self.lemma_grow_distinct(target, self.frontier(start, target, (n - 1) as nat));
        }
    }

    /// Where no token's list holds the same edge twice, the search finds
    /// each path at most once.
    pub proof fn lemma_paths_within_distinct(&self, start: Seq<u8>, target: Seq<u8>, n: nat)
        requires
            start != target,
            forall|a: Seq<u8>| #[trigger] self.edges_of(a).no_duplicates(),
        ensures
            self.paths_within(start, target, n).no_duplicates(),
        decreases n,
    {
        if n > 0 {
            let m = (n - 1) as nat;
            self.lemma_paths_within_distinct(start, target, m);
            self.lemma_paths_within_are_routes(start, target, m);
            self.lemma_frontier_ok(start, target, m);
            self.lemma_grow_ok(start, target, self.frontier(start, target, m), m);
            self.lemma_frontier_distinct(start, target, m);
            self.lemma_grow_distinct(target, self.frontier(start, target, m));
            let a = self.paths_within(start, target, m);
            let b = self.grow(target, self.frontier(start, target, m)).1;
            let w = self.paths_within(start, target, n);
            assert(w == a + b);
            assert forall|x: int, y: int| 0 <= x < w.len() && 0 <= y < w.len() && x != y implies w[x] != w[y] by {
                if x < a.len() && y < a.len() {
                    assert(w[x] == a[x] && w[y] == a[y]);
                } else if x >= a.len() && y >= a.len() {
                    assert(w[x] == b[x - a.len()] && w[y] == b[y - a.len()]);
                    if x < y {
                        assert(b[x - a.len()] != b[y - a.len()]);
                    } else {
                        assert(b[y - a.len()] != b[x - a.len()]);
                    }
                } else if x < a.len() {
                    assert(w[x] == a[x] && w[y] == b[y - a.len()]);
                    assert(a[x].len() <= m);
                    assert(b[y - a.len()].len() == n);
                } else {
                    assert(w[y] == a[y] && w[x] == b[x - a.len()]);
                    assert(a[y].len() <= m);
                    assert(b[x - a.len()].len() == n);
                }
            }
        }
    }
}

/// In a list whose addresses are all different, the asset found for the
/// address of an entry is that entry.
proof fn lemma_find_asset_distinct(s: Seq<AssetModel>, i: int)
    requires
        0 <= i < s.len(),
        distinct_addresses(s),
    ensures
        find_asset(s, s[i].address) == Some(s[i]),
    decreases s.len(),
{
    if i > 0 {
        let t = s.subrange(1, s.len() as int);
        assert(s[0].address != s[i].address);
        assert(t[i - 1] == s[i]);
        assert forall|x: int, y: int| 0 <= x < t.len() && 0 <= y < t.len() && x != y implies t[x].address != t[y].address by {
            assert(t[x] == s[x + 1] && t[y] == s[y + 1]);
        }
        lemma_find_asset_distinct(t, i - 1);
    }
}

/// Adding a pool whose tokens have different addresses makes each pair of
/// them a one-hop path: a search from one of its tokens to another finds the
/// hop through the pool within one hop.
pub proof fn lemma_added_pool_pairs_found(
    before: TokenGraph,
    after: TokenGraph,
    pool: crate::types::PoolIdModel,
    tokens: Seq<AssetModel>,
    i: int,
    j: int,
)
    requires
        tokens.len() >= 2,
        pool_added(before, after, pool, tokens),
        distinct_addresses(tokens),
        0 <= i < tokens.len(),
        0 <= j < tokens.len(),
        i != j,
    ensures
        after.paths_within(tokens[i].address, tokens[j].address, 1).contains(
            seq![StepModel { pool, input: tokens[i], output: tokens[j] }],
        ),
{
    let st = StepModel { pool, input: tokens[i], output: tokens[j] };
    let r = seq![st];
    lemma_find_asset_distinct(tokens, i);
    lemma_find_asset_distinct(tokens, j);
    assert(after.joins(tokens[i].address, tokens[j].address, pool));
    assert(after.step_of(tokens[i].address, EdgeModel { token: tokens[j].address, pool }) == Some(st));
    assert(r[0] == st);
    assert(after.is_route(tokens[i].address, tokens[j].address, r));
    assert(after.hops_from_assets(r));
    after.lemma_routes_found(tokens[i].address, tokens[j].address, r, 1);
}

} // verus!
