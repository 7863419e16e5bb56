//! Path finding for swaps: routes through the token graph, as path legs.
use vstd::prelude::*;
use vstd::std_specs::convert::FromSpecImpl;
use vstd::string::*;

use crate::search::path_models;
use crate::token_graph::{PathStep, StepModel, TokenGraph};
use crate::types::{Asset, PathLeg, PathLegModel};

verus! {

/// Limits on a path search: at most `max_hops` hops.
#[derive(Debug)]
pub struct PathConstraints {
    pub max_hops: usize,
    pub whitelist: Vec<Asset>,
}

/// Why a path search gave nothing.
#[derive(Debug, PartialEq, Eq)]
pub enum PathFindingError {
    NotFound,
    Calculation(String),
}

impl PathFindingError {
    /// The error's message.
    pub fn message(&self) -> (r: String)
        ensures
            r@ == match self {
                PathFindingError::NotFound => "未找到有效路径"@,
                PathFindingError::Calculation(m) => "计算失败: "@ + m@,
            },
    {
        match self {
            PathFindingError::NotFound => String::from_str("未找到有效路径"),
            PathFindingError::Calculation(m) => String::from_str("计算失败: ").concat(m.as_str()),
        }
    }
}

/// A leg for a hop; its fee is left open.
pub open spec fn leg_of(s: StepModel) -> PathLegModel {
    PathLegModel { pool: s.pool, input: s.input, output: s.output, fee: None }
}

pub open spec fn legs_of(r: Seq<StepModel>) -> Seq<PathLegModel> {
    r.map_values(|s: StepModel| leg_of(s))
}

pub open spec fn leg_paths(v: Seq<Vec<PathLeg>>) -> Seq<Seq<PathLegModel>> {
    v.map_values(|p: Vec<PathLeg>| p@.map_values(|l: PathLeg| l@))
}

impl From<PathStep> for PathLeg {
    fn from(step: PathStep) -> (r: PathLeg) {
        PathLeg { pool: step.pool, input: step.input, output: step.output, fee: None }
    }
}

impl FromSpecImpl<PathStep> for PathLeg {
    open spec fn obeys_from_spec() -> bool {
        true
    }

    open spec fn from_spec(step: PathStep) -> PathLeg {
        PathLeg { pool: step.pool, input: step.input, output: step.output, fee: None }
    }
}

/// Something that proposes paths from one asset to another.
pub trait PathFinder {
    fn best_paths(&self, from: Asset, to: Asset, constraints: Option<PathConstraints>) -> Result<
        Vec<Vec<PathLeg>>,
        PathFindingError,
    >;
}

/// A path finder that searches a token graph.
#[derive(Debug)]
pub struct GraphPathFinder {
    graph: TokenGraph,
}

impl GraphPathFinder {
    #[verifier::type_invariant]
    spec fn inv(self) -> bool {
        self.graph.wf()
    }

    /// The graph searched.
    pub closed spec fn graph(&self) -> TokenGraph {
        self.graph
    }

    pub fn new(graph: TokenGraph) -> (r: GraphPathFinder)
        requires
            graph.wf(),
        ensures
            r.graph() == graph,
    {
        GraphPathFinder { graph }
    }
}

/// The hop limit of a search: three unless the constraints say otherwise.
pub open spec fn max_hops_of(constraints: Option<PathConstraints>) -> nat {
    match constraints {
        Some(c) => c.max_hops as nat,
        None => 3,
    }
}

impl PathFinder for GraphPathFinder {
    /// The routes that the graph search finds, each hop as a leg; `NotFound`
    /// when there is none.
    fn best_paths(&self, from: Asset, to: Asset, constraints: Option<PathConstraints>) -> (r: Result<
        Vec<Vec<PathLeg>>,
        PathFindingError,
    >)
        ensures
            ({
                let found = self.graph().found_paths(
                    from.address@,
                    to.address@,
                    max_hops_of(constraints),
                );
                &&& found.len() == 0 <==> r is Err
                &&& r matches Err(e) ==> e is NotFound
                &&& r matches Ok(v) ==> leg_paths(v@) == found.map_values(
                    |p: Seq<StepModel>| legs_of(p),
                )
            }),
    {
        proof {
            use_type_invariant(self);
        }
        let max_hops = match &constraints {
            Some(c) => c.max_hops,
            None => 3,
        };
        let steps = self.graph.find_paths(from.address, to.address, max_hops);
        let ghost found = path_models(steps@);
        if steps.len() == 0 {
            return Err(PathFindingError::NotFound);
        }
        let mut out: Vec<Vec<PathLeg>> = Vec::new();
        let mut i: usize = 0;
        while i < steps.len()
            invariant
                i <= steps@.len(),
                found == path_models(steps@),
                leg_paths(out@) == found.subrange(0, i as int).map_values(
                    |p: Seq<StepModel>| legs_of(p),
                ),
            decreases steps@.len() - i,
        {
            let path = &steps[i];
            let mut legs: Vec<PathLeg> = Vec::new();
            let mut j: usize = 0;
            while j < path.len()
                invariant
                    j <= path@.len(),
                    legs@.len() == j,
                    forall|k: int| 0 <= k < j ==> #[trigger] legs@[k]@ == leg_of(path@[k]@),
                decreases path@.len() - j,
            {
                legs.push(PathLeg::from(path[j].clone()));
                j = j + 1;
            }
            let ghost before = leg_paths(out@);
            out.push(legs);
            proof {
                assert(found[i as int] == path@.map_values(|x: PathStep| x@));
                assert(legs@.map_values(|l: PathLeg| l@) =~= legs_of(found[i as int]));
                assert(leg_paths(out@) =~= before.push(legs_of(found[i as int])));
                assert(found.subrange(0, i + 1).map_values(|p: Seq<StepModel>| legs_of(p))
                    =~= found.subrange(0, i as int).map_values(|p: Seq<StepModel>| legs_of(p)).push(
                    legs_of(found[i as int]),
                ));
            }
            i = i + 1;
        }
        proof {
            assert(found.subrange(0, i as int) =~= found);
        }
        Ok(out)
    }
}

} // verus!
