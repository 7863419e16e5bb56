//! Swap simulation over PancakeSwap V2 pairs kept in a pool repository.
use vstd::prelude::*;
use vstd::string::*;

use crate::num::{pow256, pow64, u256_div, u256_mul, u256_sub, U256};
use crate::pancake_v2::state::{
    lemma_v2_amount_out_constant_product, max_u128, normalized_id, refreshed, v2_after_swap, v2_amount_out, v2_direction, v2_fee_paid,
    v2_quote_error, v2_quote_fits, v2_reserve_in, v2_reserve_out, PancakeV2PoolState,
    V2ExtraModel, V2StateModel,
};
use crate::repository::{lookup, InMemoryPoolRepository, PoolRepository};
use crate::simulation::{
    clone_legs, leg_models, leg_step_name, snapshot_models, step_name, SimulationError,
    SwapCalculator, SwapSimulationRequest, SwapSimulationResult,
};
use crate::state::{ExtraModel, SnapshotModel, StateError};
use crate::text::{decimal, u128_text};
use crate::types::{
    pool_type_label_spec, Amount, PathLegModel, PoolIdModel, PoolIdentifier, PoolType,
    PoolTypeModel,
};

verus! {

/// The V2 pair that a stored snapshot restores to, if it holds V2 data.
pub open spec fn v2_state_from(sm: SnapshotModel) -> Option<V2StateModel> {
    match sm.extra {
        ExtraModel::PancakeV2(x) => Some(
            refreshed(
                V2StateModel {
                    id: normalized_id(sm.id, pool_type_label_spec(sm.id.pool_type)),
                    token0: x.token0,
                    token1: x.token1,
                    reserve0: x.reserve0,
                    reserve1: x.reserve1,
                    total_supply: x.total_supply,
                    reserves: sm.reserves,
                },
            ),
        ),
        _ => None,
    }
}

/// The snapshot of a V2 pair.
pub open spec fn v2_snapshot_model(s: V2StateModel) -> SnapshotModel {
    SnapshotModel {
        id: s.id,
        reserves: s.reserves,
        extra: ExtraModel::PancakeV2(
            V2ExtraModel {
                token0: s.token0,
                token1: s.token1,
                reserve0: s.reserve0,
                reserve1: s.reserve1,
                total_supply: s.total_supply,
            },
        ),
    }
}

/// The fee of a leg: its own, else the calculator's.
pub open spec fn leg_fee(leg: PathLegModel, default_fee: u32) -> u32 {
    match leg.fee {
        Some(f) => f,
        None => default_fee,
    }
}

/// The spot-price output `amount_in * reserve_out / reserve_in`, rounded down.
pub open spec fn spot_out(amount_in: nat, reserve_in: nat, reserve_out: nat) -> nat {
    (amount_in * reserve_out) / reserve_in
}

/// How far, in basis points of the spot-price output, the amount out falls
/// short of it; capped at the largest `u64`.
pub open spec fn slippage_of(amount_in: nat, reserve_in: nat, reserve_out: nat, amount_out: nat) -> nat {
    let expected = spot_out(amount_in, reserve_in, reserve_out);
    if expected > amount_out {
        let slip = ((expected - amount_out) as nat * 10000) / expected;
        if slip > u64::MAX {
            u64::MAX as nat
        } else {
            slip
        }
    } else {
        0
    }
}

/// Why a V2 simulation stops.
pub enum V2Failure {
    NotV2Pool,
    PoolNotFound,
    NotV2Snapshot,
    /// The quote failed: `true` for invalid input, `false` for a failed update.
    Quote(bool),
    FeeOverflow,
}

/// Where a simulation stands after some legs.
pub struct V2Run {
    pub amount: u128,
    pub fees: u128,
    pub slippage: u64,
    pub snapshots: Seq<SnapshotModel>,
}

/// One leg: the amount out, the fees and slippage so far, and the pool's
/// snapshot after the swap.
pub open spec fn v2_leg(
    repo: Map<PoolIdModel, SnapshotModel>,
    default_fee: u32,
    leg: PathLegModel,
    amount: u128,
    fees: u128,
    slippage: u64,
) -> Result<(u128, u128, u64, SnapshotModel), V2Failure> {
    if leg.pool.pool_type != PoolTypeModel::PancakeV2 {
        Err(V2Failure::NotV2Pool)
    } else {
        match lookup(repo, leg.pool) {
            None => Err(V2Failure::PoolNotFound),
            Some(sm) => match v2_state_from(sm) {
                None => Err(V2Failure::NotV2Snapshot),
                Some(s) => {
                    let fee = leg_fee(leg, default_fee);
                    match v2_quote_error(s, leg.input.address, leg.output.address, amount, fee) {
                        Some(b) => Err(V2Failure::Quote(b)),
                        None => {
                            let d = v2_direction(s, leg.input.address, leg.output.address)->0;
                            let rin = v2_reserve_in(s, d);
                            let rout = v2_reserve_out(s, d);
                            let out = v2_amount_out(rin, rout, amount as nat, fee as nat);
                            let paid = v2_fee_paid(amount, fee);
                            if fees + paid > max_u128() {
                                Err(V2Failure::FeeOverflow)
                            } else {
                                let slip = slippage + slippage_of(amount as nat, rin, rout, out);
                                Ok(
                                    (
                                        out as u128,
                                        (fees + paid) as u128,
                                        (if slip > u64::MAX {
                                            u64::MAX as int
                                        } else {
                                            slip
                                        }) as u64,
                                        v2_snapshot_model(v2_after_swap(s, d, amount as nat, out)),
                                    ),
                                )
                            }
                        },
                    }
                },
            },
        }
    }
}

/// The 256-bit arithmetic of a leg fits (the `ethers` operations would
/// panic otherwise): the quote's product, and the slippage product once the
/// quote and the fee sum have gone through.
pub open spec fn v2_leg_fits(
    repo: Map<PoolIdModel, SnapshotModel>,
    default_fee: u32,
    leg: PathLegModel,
    amount: u128,
    fees: u128,
) -> bool {
    leg.pool.pool_type == PoolTypeModel::PancakeV2 ==> match lookup(repo, leg.pool) {
        None => true,
        Some(sm) => match v2_state_from(sm) {
            None => true,
            Some(s) => {
                let fee = leg_fee(leg, default_fee);
                &&& v2_quote_fits(s, leg.input.address, leg.output.address, amount, fee)
                &&& (v2_quote_error(s, leg.input.address, leg.output.address, amount, fee) is None
                    && fees + v2_fee_paid(amount, fee) <= max_u128() ==> {
                    let d = v2_direction(s, leg.input.address, leg.output.address)->0;
                    let rin = v2_reserve_in(s, d);
                    let rout = v2_reserve_out(s, d);
                    let out = v2_amount_out(rin, rout, amount as nat, fee as nat);
                    let expected = spot_out(amount as nat, rin, rout);
                    expected > out ==> (expected - out) * 10000 < pow256()
                })
            },
        },
    }
}

/// The legs taken one after another, each from what the one before gave.
pub open spec fn v2_run(
    repo: Map<PoolIdModel, SnapshotModel>,
    default_fee: u32,
    legs: Seq<PathLegModel>,
    amount_in: u128,
) -> Result<V2Run, V2Failure>
    decreases legs.len(),
{
    if legs.len() == 0 {
        Ok(V2Run { amount: amount_in, fees: 0, slippage: 0, snapshots: Seq::empty() })
    } else {
        match v2_run(repo, default_fee, legs.drop_last(), amount_in) {
            Err(f) => Err(f),
            Ok(r) => match v2_leg(repo, default_fee, legs.last(), r.amount, r.fees, r.slippage) {
                Err(f) => Err(f),
                Ok((a, fees, slip, snap)) => Ok(
                    V2Run { amount: a, fees, slippage: slip, snapshots: r.snapshots.push(snap) },
                ),
            },
        }
    }
}

/// Every leg that the run reaches fits.
pub open spec fn v2_run_fits(
    repo: Map<PoolIdModel, SnapshotModel>,
    default_fee: u32,
    legs: Seq<PathLegModel>,
    amount_in: u128,
) -> bool
    decreases legs.len(),
{
    legs.len() > 0 ==> {
        &&& v2_run_fits(repo, default_fee, legs.drop_last(), amount_in)
        &&& (v2_run(repo, default_fee, legs.drop_last(), amount_in) matches Ok(r) ==> v2_leg_fits(
            repo,
            default_fee,
            legs.last(),
            r.amount,
            r.fees,
        ))
    }
}

proof fn lemma_run_fits_prefix(
    repo: Map<PoolIdModel, SnapshotModel>,
    default_fee: u32,
    legs: Seq<PathLegModel>,
    amount_in: u128,
    i: int,
)
    requires
        v2_run_fits(repo, default_fee, legs, amount_in),
        0 <= i <= legs.len(),
    ensures
        v2_run_fits(repo, default_fee, legs.subrange(0, i), amount_in),
    decreases legs.len() - i,
{
    if i < legs.len() {
        lemma_run_fits_prefix(repo, default_fee, legs, amount_in, i + 1);
        assert(legs.subrange(0, i + 1).drop_last() =~= legs.subrange(0, i));
    } else {
        assert(legs.subrange(0, i) =~= legs);
    }
}

/// The error a failure is reported with.
pub open spec fn v2_failure_reported(f: V2Failure, r: Result<SwapSimulationResult, SimulationError>) -> bool {
    match f {
        V2Failure::NotV2Pool => r matches Err(SimulationError::Calculation(m)) && m@
            == "路径中包含非 Pancake V2 池子"@,
        V2Failure::PoolNotFound => r matches Err(SimulationError::State(StateError::NotFound)),
        V2Failure::NotV2Snapshot => r matches Err(SimulationError::State(StateError::Serialize(_))),
        V2Failure::Quote(true) => r matches Err(SimulationError::State(StateError::Invalid(_))),
        V2Failure::Quote(false) => r matches Err(
            SimulationError::State(StateError::UpdateFailed(_)),
        ),
        V2Failure::FeeOverflow => r matches Err(SimulationError::Calculation(m)) && m@
            == "累计手续费溢出"@,
    }
}

/// The message of an output below the requested minimum.
pub open spec fn below_minimum_text(amount: u128, min: u128) -> Seq<char> {
    "模拟输出 "@ + decimal(amount as nat) + " 低于最小要求 "@ + decimal(min as nat)
}

/// Swap simulation over V2 pairs: each leg is quoted on the pair's stored
/// state at the leg's fee, else at `fee_bps`.
#[derive(Debug)]
pub struct PancakeV2SwapCalculator {
    pub repository: InMemoryPoolRepository,
    pub fee_bps: u32,
}

impl PancakeV2SwapCalculator {
    pub fn new(repository: InMemoryPoolRepository, fee_bps: u32) -> (r: PancakeV2SwapCalculator)
        ensures
            r.repository@ == repository@,
            r.fee_bps == fee_bps,
    {
        PancakeV2SwapCalculator { repository, fee_bps }
    }

    fn select_fee(&self, leg_fee: Option<u32>) -> (r: u32)
        ensures
            r == match leg_fee {
                Some(f) => f,
                None => self.fee_bps,
            },
    {
        match leg_fee {
            Some(f) => f,
            None => self.fee_bps,
        }
    }

    fn load_state(&self, id: &PoolIdentifier) -> (r: Result<PancakeV2PoolState, SimulationError>)
        ensures
            match lookup(self.repository@, id@) {
                None => r matches Err(SimulationError::State(StateError::NotFound)),
                Some(sm) => match v2_state_from(sm) {
                    None => r matches Err(SimulationError::State(StateError::Serialize(_))),
                    Some(s) => r matches Ok(st) && st.wf() && st@ == s,
                },
            },
    {
        let snapshot = match self.repository.get(id) {
            Ok(Some(s)) => s,
            Ok(None) => return Err(SimulationError::State(StateError::NotFound)),
            Err(e) => return Err(SimulationError::State(e)),
        };
        match PancakeV2PoolState::from_snapshot(&snapshot) {
            Ok(s) => Ok(s),
            Err(e) => Err(SimulationError::State(e)),
        }
    }
}


/// Whether the run can be taken without overflow; an empty path always can.
pub open spec fn v2_accepts(
    repo: Map<PoolIdModel, SnapshotModel>,
    default_fee: u32,
    legs: Seq<PathLegModel>,
    amount_in: u128,
) -> bool {
    legs.len() == 0 || v2_run_fits(repo, default_fee, legs, amount_in)
}

pub open spec fn step_names_of(v: Seq<String>) -> Seq<Seq<char>> {
    v.map_values(|s: String| s@)
}

/// The requested minimum, zero when there is none.
pub open spec fn minimum_of(min_out: Option<Amount>) -> u128 {
    match min_out {
        Some(Amount(m)) => m,
        None => 0,
    }
}

/// The output falls below the requested minimum.
pub open spec fn below_minimum(amount: u128, min_out: Option<Amount>) -> bool {
    min_out is Some && amount < minimum_of(min_out)
}

/// What a simulation of `legs` from `amount_in` gives: `InvalidPath` for an
/// empty path, the failure of the first leg that fails, an error when the
/// output is below `min_out`, and otherwise the run's numbers.
pub open spec fn v2_outcome(
    repo: Map<PoolIdModel, SnapshotModel>,
    default_fee: u32,
    legs: Seq<PathLegModel>,
    amount_in: u128,
    min_out: Option<Amount>,
    r: Result<SwapSimulationResult, SimulationError>,
) -> bool {
    if legs.len() == 0 {
        r matches Err(SimulationError::InvalidPath)
    } else {
        match v2_run(repo, default_fee, legs, amount_in) {
            Err(f) => v2_failure_reported(f, r),
            Ok(run) => if below_minimum(run.amount, min_out) {
                r matches Err(SimulationError::Calculation(msg)) && msg@ == below_minimum_text(
                    run.amount,
                    minimum_of(min_out),
                )
            } else {
                r matches Ok(res) && res.amount_out == Amount(run.amount) && res.slippage_bps
                    == run.slippage && res.fees_paid == Amount(run.fees) && snapshot_models(
                    res.snapshots@,
                ) == run.snapshots && leg_models(res.executed_path@) == legs && step_names_of(
                    res.step_names@,
                ) == legs.map_values(|l: PathLegModel| step_name(l))
            },
        }
    }
}

proof fn lemma_run_err_extends(
    repo: Map<PoolIdModel, SnapshotModel>,
    default_fee: u32,
    legs: Seq<PathLegModel>,
    amount_in: u128,
    j: int,
)
    requires
        0 <= j <= legs.len(),
        v2_run(repo, default_fee, legs.subrange(0, j), amount_in) is Err,
        v2_run_fits(repo, default_fee, legs.subrange(0, j), amount_in),
    ensures
        v2_run(repo, default_fee, legs, amount_in) == v2_run(repo, default_fee, legs.subrange(0, j), amount_in),
        v2_run_fits(repo, default_fee, legs, amount_in),
    decreases legs.len() - j,
{
    if j == legs.len() {
        assert(legs.subrange(0, j) =~= legs);
    } else {
        let p = legs.subrange(0, j + 1);
        assert(p.drop_last() =~= legs.subrange(0, j));
        lemma_run_err_extends(repo, default_fee, legs, amount_in, j + 1);
    }
}

/// Whether a quote's 256-bit product fits.
fn quote_fits(state: &PancakeV2PoolState, input: &crate::types::Asset, output: &crate::types::Asset, amount: u128, fee: u32) -> (r: bool)
    ensures
        r == v2_quote_fits(state@, input@.address, output@.address, amount, fee),
{
    let zero_to_one: bool;
    if input.address.same(&state.token0.address) && output.address.same(&state.token1.address) {
        zero_to_one = true;
    } else if input.address.same(&state.token1.address) && output.address.same(&state.token0.address) {
        zero_to_one = false;
    } else {
        return true;
    }
    if amount == 0 || fee > 10000 {
        return true;
    }
    let rin = if zero_to_one { state.reserve0 } else { state.reserve1 };
    let rout = if zero_to_one { state.reserve1 } else { state.reserve0 };
    if rin == 0 || rout == 0 {
        return true;
    }
    let f: u128 = (10000 - fee) as u128;
    proof {
        assert((amount as nat) * (f as nat) < pow256()) by (nonlinear_arith)
            requires
                amount < 0x1_0000_0000_0000_0000_0000_0000_0000_0000,
                f <= 10000,
                pow256() == 0x1_0000_0000_0000_0000_0000_0000_0000_0000_0000_0000_0000_0000_0000_0000_0000_0000,
        ;
    }
    let p = u256_mul(U256::from_u128(amount), U256::from_u128(f));
    match crate::num::u256_checked_mul(p, U256::from_u128(rout)) {
        Some(_) => true,
        None => false,
    }
}


impl PancakeV2SwapCalculator {
    /// Simulates the request, or gives `None` where the `ethers` arithmetic
    /// would overflow and panic.
    pub fn simulate_checked(&self, request: &SwapSimulationRequest) -> (r: Option<
        Result<SwapSimulationResult, SimulationError>,
    >)
        ensures
            r is None <==> !v2_accepts(
                self.repository@,
                self.fee_bps,
                leg_models(request.path@),
                request.amount_in.0,
            ),
            r matches Some(x) ==> v2_outcome(
                self.repository@,
                self.fee_bps,
                leg_models(request.path@),
                request.amount_in.0,
                request.min_amount_out,
                x,
            ),
    {
        let ghost repo = self.repository@;
        let ghost fee0 = self.fee_bps;
        let ghost legs = leg_models(request.path@);
        let ghost a0 = request.amount_in.0;
        if request.path.len() == 0 {
            return Some(Err(SimulationError::InvalidPath));
        }
        let mut amount_in: u128 = request.amount_in.0;
        let mut total_fees: u128 = 0;
        let mut snapshots: Vec<crate::state::PoolSnapshot> = Vec::new();
        let mut slippage_bps: u64 = 0;
        let mut step_names: Vec<String> = Vec::new();
        let n = request.path.len();
        let mut i: usize = 0;
        proof {
            assert(legs.subrange(0, 0) =~= Seq::<PathLegModel>::empty());
            assert(snapshot_models(snapshots@) =~= Seq::<SnapshotModel>::empty());
            assert(step_names_of(step_names@) =~= legs.subrange(0, 0).map_values(
                |l: PathLegModel| step_name(l),
            ));
        }
        while i < n
            invariant
                n == request.path@.len(),
                n > 0,
                i <= n,
                repo == self.repository@,
                fee0 == self.fee_bps,
                legs == leg_models(request.path@),
                a0 == request.amount_in.0,
                v2_run_fits(repo, fee0, legs.subrange(0, i as int), a0),
                v2_run(repo, fee0, legs.subrange(0, i as int), a0) == Ok::<V2Run, V2Failure>(
                    V2Run {
                        amount: amount_in,
                        fees: total_fees,
                        slippage: slippage_bps,
                        snapshots: snapshot_models(snapshots@),
                    },
                ),
                step_names_of(step_names@) == legs.subrange(0, i as int).map_values(
                    |l: PathLegModel| step_name(l),
                ),
            decreases n - i,
        {
            let leg = &request.path[i];
            let ghost p1 = legs.subrange(0, i + 1);
            proof {
                assert(p1.drop_last() =~= legs.subrange(0, i as int));
                assert(p1.last() == leg@);
            }
            let is_v2 = match leg.pool.pool_type {
                PoolType::PancakeV2 => true,
                _ => false,
            };
            if !is_v2 {
                proof {
                    lemma_run_err_extends(repo, fee0, legs, a0, i + 1);
                }
                return Some(
                    Err(SimulationError::Calculation(String::from_str("路径中包含非 Pancake V2 池子"))),
                );
            }
            let fee_bps = self.select_fee(leg.fee);
            let state = match self.load_state(&leg.pool) {
                Ok(st) => st,
                Err(e) => {
                    proof {
                        lemma_run_err_extends(repo, fee0, legs, a0, i + 1);
                    }
                    return Some(Err(e));
                },
            };
            if !quote_fits(&state, &leg.input, &leg.output, amount_in, fee_bps) {
                proof {
                    if v2_run_fits(repo, fee0, legs, a0) {
                        lemma_run_fits_prefix(repo, fee0, legs, a0, i + 1);
                    }
                }
                return None;
            }
            let (amount_out, fee_paid, next_state) = match state.quote_swap(
                &leg.input,
                &leg.output,
                amount_in,
                fee_bps,
            ) {
                Ok(t) => t,
                Err(e) => {
                    proof {
                        lemma_run_err_extends(repo, fee0, legs, a0, i + 1);
                    }
                    return Some(Err(SimulationError::State(e)));
                },
            };
            let new_fees = match total_fees.checked_add(fee_paid) {
                Some(v) => v,
                None => {
                    proof {
                        lemma_run_err_extends(repo, fee0, legs, a0, i + 1);
                    }
                    return Some(Err(SimulationError::Calculation(String::from_str("累计手续费溢出"))));
                },
            };
            let reserve_in: u128;
            let reserve_out: u128;
            if leg.input.address.same(&state.token0.address) && leg.output.address.same(
                &state.token1.address,
            ) {
                reserve_in = state.reserve0;
                reserve_out = state.reserve1;
            } else if leg.input.address.same(&state.token1.address) && leg.output.address.same(
                &state.token0.address,
            ) {
                reserve_in = state.reserve1;
                reserve_out = state.reserve0;
            } else {
                return Some(Err(SimulationError::Calculation(String::from_str("路径资产与池子不匹配"))));
            }
            if reserve_in == 0 || reserve_out == 0 {
                return Some(Err(SimulationError::Calculation(String::from_str("池子储备不足"))));
            }
            proof {
                assert((amount_in as nat) * (reserve_out as nat) < pow256()) by (nonlinear_arith)
                    requires
                        amount_in < 0x1_0000_0000_0000_0000_0000_0000_0000_0000,
                        reserve_out < 0x1_0000_0000_0000_0000_0000_0000_0000_0000,
                        pow256() == 0x1_0000_0000_0000_0000_0000_0000_0000_0000_0000_0000_0000_0000_0000_0000_0000_0000,
                ;
            }
            let expected_out = u256_div(
                u256_mul(U256::from_u128(amount_in), U256::from_u128(reserve_out)),
                U256::from_u128(reserve_in),
            );
            let actual_out = U256::from_u128(amount_out);
            let ghost slip_spec = slippage_of(amount_in as nat, reserve_in as nat, reserve_out as nat, amount_out as nat);
            let mut leg_slip: u64 = 0;
            if actual_out.lt(&expected_out) && !expected_out.is_zero() {
                let diff = u256_sub(expected_out, actual_out);
                let prod = match crate::num::u256_checked_mul(diff, U256::from_u64(10000)) {
                    Some(p) => p,
                    None => {
                        proof {
                            if v2_run_fits(repo, fee0, legs, a0) {
                                lemma_run_fits_prefix(repo, fee0, legs, a0, i + 1);
                            }
                        }
                        return None;
                    },
                };
                let slip = u256_div(prod, expected_out);
                let capped = slip.min(&U256::from_u64(u64::MAX));
                proof {
                    assert(pow64() == u64::MAX + 1);
                }
                leg_slip = capped.as_u64();
            }
            assert(leg_slip == slip_spec);
            slippage_bps = slippage_bps.saturating_add(leg_slip);
            total_fees = new_fees;
            amount_in = amount_out;
            let snap = match next_state.to_snapshot() {
                Ok(sn) => sn,
                Err(e) => return Some(Err(SimulationError::State(e))),
            };
            let ghost before_snaps = snapshot_models(snapshots@);
            let ghost before_names = step_names_of(step_names@);
            proof {
                assert(snap@ == v2_snapshot_model(next_state@));
            }
            snapshots.push(snap);
            step_names.push(leg_step_name(leg));
            proof {
                assert(snapshot_models(snapshots@) =~= before_snaps.push(snap@));
                assert(step_names_of(step_names@) =~= before_names.push(step_name(leg@)));
                assert(p1.map_values(|l: PathLegModel| step_name(l)) =~= legs.subrange(0, i as int).map_values(
                    |l: PathLegModel| step_name(l),
                ).push(step_name(leg@)));
            }
            i = i + 1;
        }
        proof {
            assert(legs.subrange(0, n as int) =~= legs);
        }
        if let Some(m) = request.min_amount_out {
            if amount_in < m.0 {
                let text = String::from_str("模拟输出 ").concat(u128_text(amount_in).as_str());
                let text = text.concat(" 低于最小要求 ").concat(u128_text(m.0).as_str());
                return Some(Err(SimulationError::Calculation(text)));
            }
        }
        let executed_path = clone_legs(&request.path);
        Some(
            Ok(
                SwapSimulationResult {
                    amount_out: Amount(amount_in),
                    slippage_bps,
                    fees_paid: Amount(total_fees),
                    snapshots,
                    executed_path,
                    step_names,
                },
            ),
        )
    }
}

impl SwapCalculator for PancakeV2SwapCalculator {
    open spec fn accepts(&self, request: &SwapSimulationRequest) -> bool {
        v2_accepts(self.repository@, self.fee_bps, leg_models(request.path@), request.amount_in.0)
    }

    /// Simulates the swap leg by leg on the stored pairs; see `v2_outcome`.
    fn simulate(&self, request: SwapSimulationRequest) -> (r: Result<SwapSimulationResult, SimulationError>)
        ensures
            v2_outcome(
                self.repository@,
                self.fee_bps,
                leg_models(request.path@),
                request.amount_in.0,
                request.min_amount_out,
                r,
            ),
    {
        match self.simulate_checked(&request) {
            Some(x) => x,
            None => Err(SimulationError::InvalidPath),
        }
    }
}


/// Simulating a one-leg path gives the pair's own quote: its amount out and
/// fee, and the pair's snapshot after the swap.
pub proof fn lemma_one_leg_is_quote(
    repo: Map<PoolIdModel, SnapshotModel>,
    default_fee: u32,
    leg: PathLegModel,
    amount_in: u128,
    s: V2StateModel,
)
    requires
        leg.pool.pool_type == PoolTypeModel::PancakeV2,
        lookup(repo, leg.pool) matches Some(sm) && v2_state_from(sm) == Some(s),
        v2_quote_error(s, leg.input.address, leg.output.address, amount_in, leg_fee(leg, default_fee))
            is None,
    ensures
        ({
            let fee = leg_fee(leg, default_fee);
            let d = v2_direction(s, leg.input.address, leg.output.address)->0;
            let out = v2_amount_out(v2_reserve_in(s, d), v2_reserve_out(s, d), amount_in as nat, fee as nat);
            v2_run(repo, default_fee, seq![leg], amount_in) matches Ok(run) && run.amount == out
                && run.fees == v2_fee_paid(amount_in, fee) && run.snapshots == seq![
                v2_snapshot_model(v2_after_swap(s, d, amount_in as nat, out)),
            ]
        }),
{
    let legs = seq![leg];
    assert(legs.drop_last() =~= Seq::<PathLegModel>::empty());
    assert(legs.last() == leg);
    let fee = leg_fee(leg, default_fee);
    crate::pancake_v2::state::lemma_quote_keeps_product(s, leg.input.address, leg.output.address, amount_in, fee);
    assert(v2_fee_paid(amount_in, fee) <= max_u128()) by {
        if amount_in as nat * fee as nat <= max_u128() {
            assert((amount_in as nat * fee as nat) / 10000 <= amount_in as nat * fee as nat);
        }
    }
    let d = v2_direction(s, leg.input.address, leg.output.address)->0;
    let out = v2_amount_out(v2_reserve_in(s, d), v2_reserve_out(s, d), amount_in as nat, fee as nat);
    assert(out < crate::num::pow128());
    let first = v2_run(repo, default_fee, legs.drop_last(), amount_in);
    assert(first == Ok::<V2Run, V2Failure>(V2Run { amount: amount_in, fees: 0, slippage: 0, snapshots: Seq::empty() }));
    let step = v2_leg(repo, default_fee, leg, amount_in, 0, 0);
    assert(step matches Ok(t) && t.0 == out && t.1 == v2_fee_paid(amount_in, fee));
    assert(Seq::<SnapshotModel>::empty().push(v2_snapshot_model(v2_after_swap(s, d, amount_in as nat, out)))
        =~= seq![v2_snapshot_model(v2_after_swap(s, d, amount_in as nat, out))]);
}

/// A leg's amount out and pool snapshot depend on the amount it is given
/// alone; the fees so far only decide whether the total still fits.
proof fn lemma_leg_fees_so_far(
    repo: Map<PoolIdModel, SnapshotModel>,
    default_fee: u32,
    leg: PathLegModel,
    amount: u128,
    f1: u128,
    s1: u64,
    f2: u128,
    s2: u64,
)
    requires
        f2 <= f1,
        v2_leg(repo, default_fee, leg, amount, f1, s1) is Ok,
    ensures
        v2_leg(repo, default_fee, leg, amount, f2, s2) matches Ok(b) && v2_leg(
            repo,
            default_fee,
            leg,
            amount,
            f1,
            s1,
        ) matches Ok(a) && b.0 == a.0 && b.3 == a.3 && b.1 + f1 == a.1 + f2,
{
}

/// Simulating a path made of one path followed by another is simulating
/// the first from the amount in and then the second from what the first
/// gave: the amount out is the second's, the fees add up and the pool
/// snapshots follow one another. In particular each leg after the first is
/// fed the amount out of the leg before it.
pub proof fn lemma_v2_run_split(
    repo: Map<PoolIdModel, SnapshotModel>,
    default_fee: u32,
    p: Seq<PathLegModel>,
    q: Seq<PathLegModel>,
    amount_in: u128,
)
    ensures
        v2_run(repo, default_fee, p + q, amount_in) matches Ok(r) ==> (v2_run(
            repo,
            default_fee,
            p,
            amount_in,
        ) matches Ok(r1) && v2_run(repo, default_fee, q, r1.amount) matches Ok(r2) && r.amount
            == r2.amount && r.fees == r1.fees + r2.fees && r.snapshots == r1.snapshots
            + r2.snapshots),
    decreases q.len(),
{
    let pq = p + q;
    if q.len() == 0 {
        assert(pq =~= p);
        if let Ok(r1) = v2_run(repo, default_fee, p, amount_in) {
            assert(r1.snapshots + Seq::<SnapshotModel>::empty() =~= r1.snapshots);
        }
    } else {
        let qd = q.drop_last();
        assert(pq.drop_last() =~= p + qd);
        assert(pq.last() == q.last());
        lemma_v2_run_split(repo, default_fee, p, qd, amount_in);
        if let Ok(r) = v2_run(repo, default_fee, pq, amount_in) {
            let r_mid = v2_run(repo, default_fee, p + qd, amount_in)->Ok_0;
            let r1 = v2_run(repo, default_fee, p, amount_in)->Ok_0;
            let r2_mid = v2_run(repo, default_fee, qd, r1.amount)->Ok_0;
            lemma_leg_fees_so_far(
                repo,
                default_fee,
                q.last(),
                r_mid.amount,
                r_mid.fees,
                r_mid.slippage,
                r2_mid.fees,
                r2_mid.slippage,
            );
            let r2 = v2_run(repo, default_fee, q, r1.amount)->Ok_0;
            assert(r.snapshots =~= r1.snapshots + r2.snapshots);
        }
    }
}

/// Simulating a two-leg path: the second leg swaps what the first gave.
pub proof fn lemma_v2_run_two_legs(
    repo: Map<PoolIdModel, SnapshotModel>,
    default_fee: u32,
    l1: PathLegModel,
    l2: PathLegModel,
    amount_in: u128,
)
    ensures
        v2_run(repo, default_fee, seq![l1, l2], amount_in) matches Ok(r) ==> (v2_run(
            repo,
            default_fee,
            seq![l1],
            amount_in,
        ) matches Ok(r1) && v2_run(repo, default_fee, seq![l2], r1.amount) matches Ok(r2)
            && r.amount == r2.amount && r.fees == r1.fees + r2.fees),
{
    assert(seq![l1] + seq![l2] =~= seq![l1, l2]);
    lemma_v2_run_split(repo, default_fee, seq![l1], seq![l2], amount_in);
}

/// One leg of a simulation: the pool is a V2 pair in the repository that
/// trades the leg's two tokens, and the amount out is the constant-product
/// amount for the reserve of the input token and that of the output token
/// at the leg's fee: the largest `out` with
/// `out * (reserve_in * 10000 + w) <= w * reserve_out`, where `w` is the
/// amount in times `10000 - fee`. The fee paid is added to the fees so far,
/// and is `amount * fee / 10000` where that product fits in 128 bits.
pub proof fn lemma_v2_leg_constant_product(
    repo: Map<PoolIdModel, SnapshotModel>,
    default_fee: u32,
    leg: PathLegModel,
    amount: u128,
    fees: u128,
    slippage: u64,
)
    ensures
        v2_leg(repo, default_fee, leg, amount, fees, slippage) matches Ok(x) ==> (lookup(
            repo,
            leg.pool,
        ) matches Some(sm) && v2_state_from(sm) matches Some(s) && {
            let fee = leg_fee(leg, default_fee);
            let forward = leg.input.address == s.token0.address && leg.output.address
                == s.token1.address;
            let backward = leg.input.address == s.token1.address && leg.output.address
                == s.token0.address;
            let rin: nat = if forward { s.reserve0 as nat } else { s.reserve1 as nat };
            let rout: nat = if forward { s.reserve1 as nat } else { s.reserve0 as nat };
            let w = amount * (10000 - fee);
            &&& forward || backward
            &&& fee <= 10000 && amount > 0 && rin > 0 && rout > 0
            &&& x.0 * (rin * 10000 + w) <= w * rout
            &&& w * rout < (x.0 + 1) * (rin * 10000 + w)
            &&& x.0 > 0 && x.0 < rout
            &&& amount * fee <= max_u128() ==> x.1 == fees + amount * fee / 10000
        }),
{
    if let Ok(x) = v2_leg(repo, default_fee, leg, amount, fees, slippage) {
        let sm = lookup(repo, leg.pool)->0;
        let s = v2_state_from(sm)->0;
        let fee = leg_fee(leg, default_fee);
        let d = v2_direction(s, leg.input.address, leg.output.address)->0;
        lemma_v2_amount_out_constant_product(
            v2_reserve_in(s, d),
            v2_reserve_out(s, d),
            amount as nat,
            fee as nat,
        );
    }
}

} // verus!
