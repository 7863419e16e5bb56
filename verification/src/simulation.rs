//! Swap simulation: requests, results, errors and the calculator interface.
use vstd::prelude::*;
use vstd::std_specs::convert::FromSpecImpl;
use vstd::string::*;

use crate::state::{state_error_text, PoolSnapshot, SnapshotModel, StateError};
use crate::types::{Amount, PathLeg, PathLegModel};

verus! {

/// A swap to simulate along a path of legs.
#[derive(Debug)]
pub struct SwapSimulationRequest {
    pub path: Vec<PathLeg>,
    pub amount_in: Amount,
    pub min_amount_out: Option<Amount>,
    pub sandbox: bool,
}

/// What a simulation gives: the amount out, the slippage against the
/// pools' spot prices, the fees, each pool's snapshot after its leg, the
/// path taken and a name for each step (`input->output` symbols).
#[derive(Debug)]
pub struct SwapSimulationResult {
    pub amount_out: Amount,
    pub slippage_bps: u64,
    pub fees_paid: Amount,
    pub snapshots: Vec<PoolSnapshot>,
    pub executed_path: Vec<PathLeg>,
    pub step_names: Vec<String>,
}

/// Why a simulation failed.
#[derive(Debug)]
pub enum SimulationError {
    State(StateError),
    Calculation(String),
    InvalidPath,
}

impl SimulationError {
    /// The error's message.
    pub fn message(&self) -> (r: String)
        ensures
            r@ == match self {
                SimulationError::State(e) => "状态错误: "@ + state_error_text(*e),
                SimulationError::Calculation(m) => "计算失败: "@ + m@,
                SimulationError::InvalidPath => "路径无效"@,
            },
    {
        match self {
            SimulationError::State(e) => String::from_str("状态错误: ").concat(e.message().as_str()),
            SimulationError::Calculation(m) => String::from_str("计算失败: ").concat(m.as_str()),
            SimulationError::InvalidPath => String::from_str("路径无效"),
        }
    }
}

impl From<StateError> for SimulationError {
    fn from(e: StateError) -> (r: SimulationError) {
        SimulationError::State(e)
    }
}

impl FromSpecImpl<StateError> for SimulationError {
    open spec fn obeys_from_spec() -> bool {
        true
    }

    open spec fn from_spec(e: StateError) -> SimulationError {
        SimulationError::State(e)
    }
}

pub open spec fn leg_models(v: Seq<PathLeg>) -> Seq<PathLegModel> {
    v.map_values(|l: PathLeg| l@)
}

pub open spec fn snapshot_models(v: Seq<PoolSnapshot>) -> Seq<SnapshotModel> {
    v.map_values(|s: PoolSnapshot| s@)
}

/// A copy of a path.
pub fn clone_legs(v: &Vec<PathLeg>) -> (r: Vec<PathLeg>)
    ensures
        leg_models(r@) == leg_models(v@),
{
    let mut out: Vec<PathLeg> = Vec::new();
    let mut i: usize = 0;
    while i < v.len()
        invariant
            i <= v@.len(),
            out@.len() == i,
            forall|k: int| 0 <= k < i ==> out@[k]@ == v@[k]@,
        decreases v@.len() - i,
    {
        out.push(v[i].clone());
        i = i + 1;
    }
    assert(leg_models(out@) =~= leg_models(v@));
    out
}

/// The step name of a leg: the two symbols joined by `->`.
pub open spec fn step_name(l: PathLegModel) -> Seq<char> {
    l.input.symbol + "->"@ + l.output.symbol
}

pub fn leg_step_name(leg: &PathLeg) -> (r: String)
    ensures
        r@ == step_name(leg@),
{
    let s = leg.input.symbol.clone().concat("->");
    s.concat(leg.output.symbol.as_str())
}

/// Something that simulates swaps.
pub trait SwapCalculator {
    /// The requests that the calculator can take: those on which its
    /// arithmetic does not overflow.
    spec fn accepts(&self, request: &SwapSimulationRequest) -> bool;

    fn simulate(&self, request: SwapSimulationRequest) -> Result<SwapSimulationResult, SimulationError>
        requires
            self.accepts(&request),
    ;
}

/// A calculator that hands the amount in back unchanged.
#[derive(Debug, Default)]
pub struct NoopSwapCalculator;

impl SwapCalculator for NoopSwapCalculator {
    open spec fn accepts(&self, request: &SwapSimulationRequest) -> bool {
        true
    }

    /// Refuses an empty path; otherwise the amount out is the amount in,
    /// with no fees, no slippage and no snapshots.
    fn simulate(&self, request: SwapSimulationRequest) -> (r: Result<SwapSimulationResult, SimulationError>)
        ensures
            request.path@.len() == 0 ==> r matches Err(SimulationError::InvalidPath),
            request.path@.len() > 0 ==> (r matches Ok(res) && res.amount_out == request.amount_in
                && res.slippage_bps == 0 && res.fees_paid == Amount(0) && res.snapshots@.len() == 0
                && leg_models(res.executed_path@) == leg_models(request.path@)
                && res.step_names@.len() == 0),
    {
        if request.path.len() == 0 {
            return Err(SimulationError::InvalidPath);
        }
        let executed_path = clone_legs(&request.path);
        Ok(
            SwapSimulationResult {
                amount_out: request.amount_in,
                slippage_bps: 0,
                fees_paid: Amount(0),
                snapshots: Vec::new(),
                executed_path,
                step_names: Vec::new(),
            },
        )
    }
}

} // verus!
