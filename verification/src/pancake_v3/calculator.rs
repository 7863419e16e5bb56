//! Swap simulation over PancakeSwap V3 pools at their current price.
use vstd::prelude::*;
use vstd::string::*;

use crate::num::{pow128, pow192, pow256, u256_checked_mul, u256_div, u256_mul, U256};
use crate::pancake_v2::state::{max_u128, normalized_id};
use crate::pancake_v3::state::{PancakeV3PoolState, V3ExtraModel, V3StateModel};
use crate::repository::{lookup, InMemoryPoolRepository, PoolRepository};
use crate::simulation::{
    clone_legs, leg_models, snapshot_models, SimulationError, SwapCalculator,
    SwapSimulationRequest, SwapSimulationResult,
};
use crate::pancake_v2::calculator::{below_minimum, below_minimum_text, minimum_of};
use crate::state::{ExtraModel, SnapshotModel, StateError};
use crate::text::u128_text;
use crate::types::{
    pool_type_label_spec, Amount, Asset, PathLegModel, PoolIdModel, PoolIdentifier, PoolType,
    PoolTypeModel,
};

verus! {

/// The V3 pool that a stored snapshot restores to, if it holds V3 data.
pub open spec fn v3_state_from(sm: SnapshotModel) -> Option<V3StateModel> {
    match sm.extra {
        ExtraModel::PancakeV3(x) => Some(
            V3StateModel {
                id: normalized_id(sm.id, pool_type_label_spec(sm.id.pool_type)),
                token0: x.token0,
                token1: x.token1,
                sqrt_price_x96: x.sqrt_price_x96,
                liquidity: x.liquidity,
                tick: x.tick,
                reserves: sm.reserves,
                ticks: x.ticks,
                fees_token0: x.fees_token0,
                fees_token1: x.fees_token1,
            },
        ),
        _ => None,
    }
}

/// The snapshot of a V3 pool.
pub open spec fn v3_snapshot_model(s: V3StateModel) -> SnapshotModel {
    SnapshotModel {
        id: s.id,
        reserves: s.reserves,
        extra: ExtraModel::PancakeV3(
            V3ExtraModel {
                token0: s.token0,
                token1: s.token1,
                sqrt_price_x96: s.sqrt_price_x96,
                liquidity: s.liquidity,
                tick: s.tick,
                ticks: s.ticks,
                fees_token0: s.fees_token0,
                fees_token1: s.fees_token1,
            },
        ),
    }
}

/// The fee charged on the amount in, in basis points, rounded down.
pub open spec fn v3_fee_paid(amount_in: u128, fee_bps: u32) -> nat {
    (amount_in as nat * fee_bps as nat) / 10000
}

/// A quote at the pool's current price `P = (sqrt_price_x96)^2 / 2^192`:
/// token0 to token1 gives `(amount - fee) * P`, token1 to token0 gives
/// `(amount - fee) / P`, both rounded down; or the error's message.
pub open spec fn v3_quote(s: V3StateModel, input: Seq<u8>, output: Seq<u8>, amount_in: u128, fee_bps: u32) -> Result<
    (nat, nat),
    Seq<char>,
> {
    let px = s.sqrt_price_x96 * s.sqrt_price_x96;
    let paid = v3_fee_paid(amount_in, fee_bps);
    let after = (amount_in - paid) as nat;
    if input == s.token0.address && output == s.token1.address {
        if after * px >= pow256() {
            Err("输出溢出"@)
        } else {
            Ok(((after * px) / pow192(), paid))
        }
    } else if input == s.token1.address && output == s.token0.address {
        if px / pow192() == 0 || px == 0 {
            Err("价格为 0"@)
        } else if after * pow192() >= pow256() {
            Err("输出溢出"@)
        } else {
            Ok(((after * pow192()) / px, paid))
        }
    } else {
        Err("路径资产与池子不匹配"@)
    }
}

/// The quote runs without overflow (the square of the price must fit in
/// 256 bits, the fee product and the amount less the fee in `u128`, and an
/// amount out in `u128`).
pub open spec fn v3_quote_fits(s: V3StateModel, input: Seq<u8>, output: Seq<u8>, amount_in: u128, fee_bps: u32) -> bool {
    &&& s.sqrt_price_x96 * s.sqrt_price_x96 < pow256()
    &&& amount_in as nat * fee_bps as nat <= max_u128()
    &&& v3_fee_paid(amount_in, fee_bps) <= amount_in
    &&& (v3_quote(s, input, output, amount_in, fee_bps) matches Ok((out, _)) ==> out < pow128())
}

/// The amount left after the fee never shrinks when more is paid in (for a
/// fee of at most 100%).
proof fn lemma_after_fee_monotone(a: u128, b: u128, fee_bps: u32)
    requires
        a <= b,
        fee_bps <= 10000,
    ensures
        v3_fee_paid(a, fee_bps) <= a,
        v3_fee_paid(b, fee_bps) <= b,
        a - v3_fee_paid(a, fee_bps) <= b - v3_fee_paid(b, fee_bps),
{
    let f = fee_bps as int;
    let pa = (a as int * f) / 10000;
    let pb = (b as int * f) / 10000;
    assert(pa <= a) by (nonlinear_arith)
        requires
            pa == (a as int * f) / 10000,
            0 <= f <= 10000,
            a >= 0,
    ;
    assert(pb <= b) by (nonlinear_arith)
        requires
            pb == (b as int * f) / 10000,
            0 <= f <= 10000,
            b >= 0,
    ;
    assert(pb <= pa + (b - a)) by (nonlinear_arith)
        requires
            pa == (a as int * f) / 10000,
            pb == (b as int * f) / 10000,
            0 <= f <= 10000,
            0 <= a <= b,
    {
        assert(b as int * f <= a as int * f + (b - a) * 10000) by (nonlinear_arith)
            requires
                0 <= f <= 10000,
                0 <= a <= b,
        ;
        assert((a as int * f) < (pa + 1) * 10000);
        assert(b as int * f < (pa + (b - a) + 1) * 10000);
    }
}

/// Paying more in never gives less out: at a fee of at most 100%, where
/// both quotes succeed, the larger amount in gives at least as much out, in
/// either direction.
pub proof fn lemma_v3_quote_monotone(
    s: V3StateModel,
    input: Seq<u8>,
    output: Seq<u8>,
    a: u128,
    b: u128,
    fee_bps: u32,
)
    requires
        a <= b,
        fee_bps <= 10000,
        v3_quote(s, input, output, a, fee_bps) is Ok,
        v3_quote(s, input, output, b, fee_bps) is Ok,
    ensures
        v3_quote(s, input, output, a, fee_bps)->Ok_0.0 <= v3_quote(s, input, output, b, fee_bps)->Ok_0.0,
{
    lemma_after_fee_monotone(a, b, fee_bps);
    let px = s.sqrt_price_x96 * s.sqrt_price_x96;
    let xa = (a - v3_fee_paid(a, fee_bps)) as nat;
    let xb = (b - v3_fee_paid(b, fee_bps)) as nat;
    assert(xa <= xb);
    if input == s.token0.address && output == s.token1.address {
        assert(xa * px <= xb * px) by (nonlinear_arith)
            requires
                xa <= xb,
                px >= 0,
        ;
        assert((xa * px) / pow192() <= (xb * px) / pow192()) by (nonlinear_arith)
            requires
                xa * px <= xb * px,
                pow192() > 0,
        ;
    } else {
        assert(xa * pow192() <= xb * pow192()) by (nonlinear_arith)
            requires
                xa <= xb,
                pow192() > 0,
        ;
        assert((xa * pow192()) / px <= (xb * pow192()) / px) by (nonlinear_arith)
            requires
                xa * pow192() <= xb * pow192(),
                px > 0,
        ;
    }
}

/// A quote is the amount in less the fee, converted at the pool's price
/// `P = sqrt_price^2 / 2^192` and rounded down: the fee is the largest
/// `paid` with `paid * 10000 <= amount * fee_bps`; token0 to token1 gives the
/// largest `out` with `out * 2^192 <= (amount - paid) * sqrt_price^2`, and
/// token1 to token0 the largest `out` with
/// `out * sqrt_price^2 <= (amount - paid) * 2^192`.
pub proof fn lemma_v3_quote_at_price(
    s: V3StateModel,
    input: Seq<u8>,
    output: Seq<u8>,
    amount_in: u128,
    fee_bps: u32,
)
    requires
        fee_bps <= 10000,
    ensures
        v3_quote(s, input, output, amount_in, fee_bps) matches Ok((out, paid)) ==> {
            let px = s.sqrt_price_x96 * s.sqrt_price_x96;
            let after = amount_in - paid;
            &&& paid * 10000 <= amount_in * fee_bps < (paid + 1) * 10000
            &&& input == s.token0.address && output == s.token1.address ==> out * pow192() <= after
                * px < (out + 1) * pow192()
            &&& !(input == s.token0.address && output == s.token1.address) ==> input
                == s.token1.address && output == s.token0.address && px > 0 && out * px <= after
                * pow192() < (out + 1) * px
        },
{
    if let Ok((out, paid)) = v3_quote(s, input, output, amount_in, fee_bps) {
        let px = s.sqrt_price_x96 * s.sqrt_price_x96;
        let f = amount_in as nat * fee_bps as nat;
        assert(paid == f / 10000);
        assert(paid * 10000 <= f < (paid + 1) * 10000) by (nonlinear_arith)
            requires
                paid == f / 10000,
                f >= 0,
        ;
        assert(paid <= amount_in) by (nonlinear_arith)
            requires
                paid * 10000 <= f,
                f == amount_in as nat * fee_bps as nat,
                fee_bps <= 10000,
        ;
        let after = (amount_in - paid) as nat;
        if input == s.token0.address && output == s.token1.address {
            let x = after * px;
            assert(out == x / pow192());
            assert(out * pow192() <= x < (out + 1) * pow192()) by (nonlinear_arith)
                requires
                    out == x / pow192(),
                    pow192() > 0,
                    x >= 0,
            ;
        } else {
            let x = after * pow192();
            assert(px > 0);
            assert(out == x / px);
            assert(out * px <= x < (out + 1) * px) by (nonlinear_arith)
                requires
                    out == x / px,
                    px > 0,
                    x >= 0,
            ;
        }
    }
}

/// Quotes a swap at the pool's current price.
pub fn quote_v3_swap(
    state: &PancakeV3PoolState,
    input: &Asset,
    output: &Asset,
    amount_in: u128,
    fee_bps: u32,
) -> (r: Result<(u128, u128), SimulationError>)
    requires
        v3_quote_fits(state@, input@.address, output@.address, amount_in, fee_bps),
    ensures
        match v3_quote(state@, input@.address, output@.address, amount_in, fee_bps) {
            Ok((out, paid)) => r matches Ok((a, f)) && a == out && f == paid,
            Err(m) => r matches Err(SimulationError::Calculation(msg)) && msg@ == m,
        },
{
    let sqrt_price = state.sqrt_price_x96;
    let price_x192 = u256_mul(sqrt_price, sqrt_price);
    let q192 = U256::q192();
    let price = u256_div(price_x192, q192);
    let fee: u128 = fee_bps as u128;
    let fee_denom: u128 = 10_000;
    let fee_paid = amount_in * fee / fee_denom;
    let amount_after_fee = amount_in - fee_paid;
    if input.address.same(&state.token0.address) && output.address.same(&state.token1.address) {
        let prod = match u256_checked_mul(U256::from_u128(amount_after_fee), price_x192) {
            Some(p) => p,
            None => return Err(SimulationError::Calculation(String::from_str("输出溢出"))),
        };
        let amount_out = u256_div(prod, q192);
        Ok((amount_out.as_u128(), fee_paid))
    } else if input.address.same(&state.token1.address) && output.address.same(&state.token0.address) {
        if price.is_zero() {
            return Err(SimulationError::Calculation(String::from_str("价格为 0")));
        }
        if price_x192.is_zero() {
            return Err(SimulationError::Calculation(String::from_str("价格为 0")));
        }
        let prod = match u256_checked_mul(U256::from_u128(amount_after_fee), q192) {
            Some(p) => p,
            None => return Err(SimulationError::Calculation(String::from_str("输出溢出"))),
        };
        let amount_out = u256_div(prod, price_x192);
        Ok((amount_out.as_u128(), fee_paid))
    } else {
        Err(SimulationError::Calculation(String::from_str("路径资产与池子不匹配")))
    }
}

/// The fee of a leg: its own, else one basis point.
pub open spec fn v3_leg_fee(leg: PathLegModel) -> u32 {
    match leg.fee {
        Some(f) => f,
        None => 100,
    }
}

/// Why a V3 simulation stops.
pub enum V3Failure {
    NotV3Pool,
    PoolNotFound,
    NotV3Snapshot,
    Quote(Seq<char>),
    FeeOverflow,
}

/// Where a V3 simulation stands after some legs.
pub struct V3Run {
    pub amount: u128,
    pub fees: u128,
    pub snapshots: Seq<SnapshotModel>,
}

/// One leg: the amount out, the fees so far and the pool's snapshot, which
/// a quote leaves as it was.
pub open spec fn v3_leg(repo: Map<PoolIdModel, SnapshotModel>, leg: PathLegModel, amount: u128, fees: u128) -> Result<
    (u128, u128, SnapshotModel),
    V3Failure,
> {
    if leg.pool.pool_type != PoolTypeModel::PancakeV3 {
        Err(V3Failure::NotV3Pool)
    } else {
        match lookup(repo, leg.pool) {
            None => Err(V3Failure::PoolNotFound),
            Some(sm) => match v3_state_from(sm) {
                None => Err(V3Failure::NotV3Snapshot),
                Some(s) => match v3_quote(
                    s,
                    leg.input.address,
                    leg.output.address,
                    amount,
                    v3_leg_fee(leg),
                ) {
                    Err(m) => Err(V3Failure::Quote(m)),
                    Ok((out, paid)) => if fees + paid > max_u128() {
                        Err(V3Failure::FeeOverflow)
                    } else {
                        Ok((out as u128, (fees + paid) as u128, v3_snapshot_model(s)))
                    },
                },
            },
        }
    }
}

pub open spec fn v3_leg_fits(repo: Map<PoolIdModel, SnapshotModel>, leg: PathLegModel, amount: u128) -> bool {
    leg.pool.pool_type == PoolTypeModel::PancakeV3 ==> match lookup(repo, leg.pool) {
        None => true,
        Some(sm) => match v3_state_from(sm) {
            None => true,
            Some(s) => v3_quote_fits(s, leg.input.address, leg.output.address, amount, v3_leg_fee(leg)),
        },
    }
}

/// The legs taken one after another, each from what the one before gave.
pub open spec fn v3_run(repo: Map<PoolIdModel, SnapshotModel>, legs: Seq<PathLegModel>, amount_in: u128) -> Result<
    V3Run,
    V3Failure,
>
    decreases legs.len(),
{
    if legs.len() == 0 {
        Ok(V3Run { amount: amount_in, fees: 0, snapshots: Seq::empty() })
    } else {
        match v3_run(repo, legs.drop_last(), amount_in) {
            Err(f) => Err(f),
            Ok(r) => match v3_leg(repo, legs.last(), r.amount, r.fees) {
                Err(f) => Err(f),
                Ok((a, fees, snap)) => Ok(V3Run { amount: a, fees, snapshots: r.snapshots.push(snap) }),
            },
        }
    }
}

pub open spec fn v3_run_fits(repo: Map<PoolIdModel, SnapshotModel>, legs: Seq<PathLegModel>, amount_in: u128) -> bool
    decreases legs.len(),
{
    legs.len() > 0 ==> {
        &&& v3_run_fits(repo, legs.drop_last(), amount_in)
        &&& (v3_run(repo, legs.drop_last(), amount_in) matches Ok(r) ==> v3_leg_fits(
            repo,
            legs.last(),
            r.amount,
        ))
    }
}

pub open spec fn v3_accepts(repo: Map<PoolIdModel, SnapshotModel>, legs: Seq<PathLegModel>, amount_in: u128) -> bool {
    legs.len() == 0 || v3_run_fits(repo, legs, amount_in)
}

pub open spec fn v3_failure_reported(f: V3Failure, r: Result<SwapSimulationResult, SimulationError>) -> bool {
    match f {
        V3Failure::NotV3Pool => r matches Err(SimulationError::Calculation(m)) && m@
            == "路径包含非 Pancake V3 池子"@,
        V3Failure::PoolNotFound => r matches Err(SimulationError::State(StateError::NotFound)),
        V3Failure::NotV3Snapshot => r matches Err(SimulationError::State(StateError::Serialize(_))),
        V3Failure::Quote(msg) => r matches Err(SimulationError::Calculation(m)) && m@ == msg,
        V3Failure::FeeOverflow => r matches Err(SimulationError::Calculation(m)) && m@
            == "累计手续费溢出"@,
    }
}

/// What a V3 simulation gives: `InvalidPath` for an empty path, the first
/// failure, an error below the minimum, else the run's numbers with no
/// slippage and no step names.
pub open spec fn v3_outcome(
    repo: Map<PoolIdModel, SnapshotModel>,
    legs: Seq<PathLegModel>,
    amount_in: u128,
    min_out: Option<Amount>,
    r: Result<SwapSimulationResult, SimulationError>,
) -> bool {
    if legs.len() == 0 {
        r matches Err(SimulationError::InvalidPath)
    } else {
        match v3_run(repo, legs, amount_in) {
            Err(f) => v3_failure_reported(f, r),
            Ok(run) => if below_minimum(run.amount, min_out) {
                r matches Err(SimulationError::Calculation(msg)) && msg@ == below_minimum_text(
                    run.amount,
                    minimum_of(min_out),
                )
            } else {
                r matches Ok(res) && res.amount_out == Amount(run.amount) && res.slippage_bps == 0
                    && res.fees_paid == Amount(run.fees) && snapshot_models(res.snapshots@)
                    == run.snapshots && leg_models(res.executed_path@) == legs
                    && res.step_names@.len() == 0
            },
        }
    }
}

proof fn lemma_v3_fits_prefix(repo: Map<PoolIdModel, SnapshotModel>, legs: Seq<PathLegModel>, amount_in: u128, i: int)
    requires
        v3_run_fits(repo, legs, amount_in),
        0 <= i <= legs.len(),
    ensures
        v3_run_fits(repo, legs.subrange(0, i), amount_in),
    decreases legs.len() - i,
{
    if i < legs.len() {
        lemma_v3_fits_prefix(repo, legs, amount_in, i + 1);
        assert(legs.subrange(0, i + 1).drop_last() =~= legs.subrange(0, i));
    } else {
        assert(legs.subrange(0, i) =~= legs);
    }
}

proof fn lemma_v3_err_extends(repo: Map<PoolIdModel, SnapshotModel>, legs: Seq<PathLegModel>, amount_in: u128, j: int)
    requires
        0 <= j <= legs.len(),
        v3_run(repo, legs.subrange(0, j), amount_in) is Err,
        v3_run_fits(repo, legs.subrange(0, j), amount_in),
    ensures
        v3_run(repo, legs, amount_in) == v3_run(repo, legs.subrange(0, j), amount_in),
        v3_run_fits(repo, legs, amount_in),
    decreases legs.len() - j,
{
    if j == legs.len() {
        assert(legs.subrange(0, j) =~= legs);
    } else {
        assert(legs.subrange(0, j + 1).drop_last() =~= legs.subrange(0, j));
        lemma_v3_err_extends(repo, legs, amount_in, j + 1);
    }
}

/// Swap simulation over V3 pools at their current price.
#[derive(Debug)]
pub struct PancakeV3SwapCalculator {
    pub repository: InMemoryPoolRepository,
}

impl PancakeV3SwapCalculator {
    pub fn new(repository: InMemoryPoolRepository) -> (r: PancakeV3SwapCalculator)
        ensures
            r.repository@ == repository@,
    {
        PancakeV3SwapCalculator { repository }
    }

    fn load_state(&self, id: &PoolIdentifier) -> (r: Result<PancakeV3PoolState, SimulationError>)
        ensures
            match lookup(self.repository@, id@) {
                None => r matches Err(SimulationError::State(StateError::NotFound)),
                Some(sm) => match v3_state_from(sm) {
                    None => r matches Err(SimulationError::State(StateError::Serialize(_))),
                    Some(s) => r matches Ok(st) && st.wf() && st@ == s,
                },
            },
    {
        let snapshot = match self.repository.get(id) {
            Ok(Some(s)) => s,
            Ok(None) => return Err(SimulationError::State(StateError::NotFound)),
            Err(e) => return Err(SimulationError::State(e)),
        };
        match PancakeV3PoolState::from_snapshot(&snapshot) {
            Ok(s) => Ok(s),
            Err(e) => Err(SimulationError::State(e)),
        }
    }

    /// Simulates the request, or gives `None` where the arithmetic would
    /// overflow and panic.
    pub fn simulate_checked(&self, request: &SwapSimulationRequest) -> (r: Option<
        Result<SwapSimulationResult, SimulationError>,
    >)
        ensures
            r is None <==> !v3_accepts(self.repository@, leg_models(request.path@), request.amount_in.0),
            r matches Some(x) ==> v3_outcome(
                self.repository@,
                leg_models(request.path@),
                request.amount_in.0,
                request.min_amount_out,
                x,
            ),
    {
        let ghost repo = self.repository@;
        let ghost legs = leg_models(request.path@);
        let ghost a0 = request.amount_in.0;
        if request.path.len() == 0 {
            return Some(Err(SimulationError::InvalidPath));
        }
        let mut amount_in: u128 = request.amount_in.0;
        let mut total_fees: u128 = 0;
        let mut snapshots: Vec<crate::state::PoolSnapshot> = Vec::new();
        let n = request.path.len();
        let mut i: usize = 0;
        proof {
            assert(legs.subrange(0, 0) =~= Seq::<PathLegModel>::empty());
            assert(snapshot_models(snapshots@) =~= Seq::<SnapshotModel>::empty());
        }
        while i < n
            invariant
                n == request.path@.len(),
                n > 0,
                i <= n,
                repo == self.repository@,
                legs == leg_models(request.path@),
                a0 == request.amount_in.0,
                v3_run_fits(repo, legs.subrange(0, i as int), a0),
                v3_run(repo, legs.subrange(0, i as int), a0) == Ok::<V3Run, V3Failure>(
                    V3Run { amount: amount_in, fees: total_fees, snapshots: snapshot_models(snapshots@) },
                ),
            decreases n - i,
        {
            let leg = &request.path[i];
            let ghost p1 = legs.subrange(0, i + 1);
            proof {
                assert(p1.drop_last() =~= legs.subrange(0, i as int));
                assert(p1.last() == leg@);
            }
            let is_v3 = match leg.pool.pool_type {
                PoolType::PancakeV3 => true,
                _ => false,
            };
            if !is_v3 {
                proof {
                    lemma_v3_err_extends(repo, legs, a0, i + 1);
                }
                return Some(
                    Err(SimulationError::Calculation(String::from_str("路径包含非 Pancake V3 池子"))),
                );
            }
            let state = match self.load_state(&leg.pool) {
                Ok(st) => st,
                Err(e) => {
                    proof {
                        lemma_v3_err_extends(repo, legs, a0, i + 1);
                    }
                    return Some(Err(e));
                },
            };
            let fee = match leg.fee {
                Some(f) => f,
                None => 100,
            };
            if !quote_fits_v3(&state, &leg.input, &leg.output, amount_in, fee) {
                proof {
                    if v3_run_fits(repo, legs, a0) {
                        lemma_v3_fits_prefix(repo, legs, a0, i + 1);
                    }
                }
                return None;
            }
            let (amount_out, fee_paid) = match quote_v3_swap(
                &state,
                &leg.input,
                &leg.output,
                amount_in,
                fee,
            ) {
                Ok(t) => t,
                Err(e) => {
                    proof {
                        lemma_v3_err_extends(repo, legs, a0, i + 1);
                    }
                    return Some(Err(e));
                },
            };
            total_fees = match total_fees.checked_add(fee_paid) {
                Some(v) => v,
                None => {
                    proof {
                        lemma_v3_err_extends(repo, legs, a0, i + 1);
                    }
                    return Some(Err(SimulationError::Calculation(String::from_str("累计手续费溢出"))));
                },
            };
            amount_in = amount_out;
            let ghost before = snapshot_models(snapshots@);
            let snap = state.snapshot();
            proof {
                assert(snap@ == v3_snapshot_model(state@));
            }
            snapshots.push(snap);
            proof {
                assert(snapshot_models(snapshots@) =~= before.push(snap@));
            }
            i = i + 1;
        }
        proof {
            assert(legs.subrange(0, n as int) =~= legs);
        }
        if let Some(m) = request.min_amount_out {
            if amount_in < m.0 {
                let text = String::from_str("模拟输出 ").concat(u128_text(amount_in).as_str());
                let text = text.concat(" 低于最小要求 ").concat(u128_text(m.0).as_str());
                return Some(Err(SimulationError::Calculation(text)));
            }
        }
        let executed_path = clone_legs(&request.path);
        Some(
            Ok(
                SwapSimulationResult {
                    amount_out: Amount(amount_in),
                    slippage_bps: 0,
                    fees_paid: Amount(total_fees),
                    snapshots,
                    executed_path,
                    step_names: Vec::new(),
                },
            ),
        )
    }
}

/// Whether a V3 quote runs without overflow.
fn quote_fits_v3(state: &PancakeV3PoolState, input: &Asset, output: &Asset, amount_in: u128, fee_bps: u32) -> (r: bool)
    ensures
        r == v3_quote_fits(state@, input@.address, output@.address, amount_in, fee_bps),
{
    let sqrt_price = state.sqrt_price_x96;
    let price_x192 = match u256_checked_mul(sqrt_price, sqrt_price) {
        Some(p) => p,
        None => return false,
    };
    let fee_prod = match amount_in.checked_mul(fee_bps as u128) {
        Some(p) => p,
        None => return false,
    };
    let fee_paid = fee_prod / 10_000;
    if fee_paid > amount_in {
        return false;
    }
    let after = amount_in - fee_paid;
    let q192 = U256::q192();
    let limit = U256::from_u128(u128::MAX);
    if input.address.same(&state.token0.address) && output.address.same(&state.token1.address) {
        match u256_checked_mul(U256::from_u128(after), price_x192) {
            Some(p) => !limit.lt(&u256_div(p, q192)),
            None => true,
        }
    } else if input.address.same(&state.token1.address) && output.address.same(&state.token0.address) {
        if u256_div(price_x192, q192).is_zero() || price_x192.is_zero() {
            return true;
        }
        match u256_checked_mul(U256::from_u128(after), q192) {
            Some(p) => !limit.lt(&u256_div(p, price_x192)),
            None => true,
        }
    } else {
        true
    }
}

impl SwapCalculator for PancakeV3SwapCalculator {
    open spec fn accepts(&self, request: &SwapSimulationRequest) -> bool {
        v3_accepts(self.repository@, leg_models(request.path@), request.amount_in.0)
    }

    /// Simulates the swap leg by leg at each pool's current price; see
    /// `v3_outcome`.
    fn simulate(&self, request: SwapSimulationRequest) -> (r: Result<SwapSimulationResult, SimulationError>)
        ensures
            v3_outcome(
                self.repository@,
                leg_models(request.path@),
                request.amount_in.0,
                request.min_amount_out,
                r,
            ),
    {
        match self.simulate_checked(&request) {
            Some(x) => x,
            None => Err(SimulationError::InvalidPath),
        }
    }
}

/// A leg's amount out and pool snapshot depend on the amount it is given
/// alone; the fees so far only decide whether the total still fits.
proof fn lemma_v3_leg_fees_so_far(
    repo: Map<PoolIdModel, SnapshotModel>,
    leg: PathLegModel,
    amount: u128,
    f1: u128,
    f2: u128,
)
    requires
        f2 <= f1,
        v3_leg(repo, leg, amount, f1) is Ok,
    ensures
        v3_leg(repo, leg, amount, f2) matches Ok(b) && v3_leg(repo, leg, amount, f1) matches Ok(a)
            && b.0 == a.0 && b.2 == a.2 && b.1 + f1 == a.1 + f2,
{
}

/// Simulating a path made of one path followed by another is simulating
/// the first from the amount in and then the second from what the first
/// gave: the amount out is the second's, the fees add up and the pool
/// snapshots follow one another. In particular each leg after the first is
/// fed the amount out of the leg before it.
pub proof fn lemma_v3_run_split(
    repo: Map<PoolIdModel, SnapshotModel>,
    p: Seq<PathLegModel>,
    q: Seq<PathLegModel>,
    amount_in: u128,
)
    ensures
        v3_run(repo, p + q, amount_in) matches Ok(r) ==> (v3_run(repo, p, amount_in) matches Ok(r1)
            && v3_run(repo, q, r1.amount) matches Ok(r2) && r.amount == r2.amount && r.fees
            == r1.fees + r2.fees && r.snapshots == r1.snapshots + r2.snapshots),
    decreases q.len(),
{
    let pq = p + q;
    if q.len() == 0 {
        assert(pq =~= p);
        if let Ok(r1) = v3_run(repo, p, amount_in) {
            assert(r1.snapshots + Seq::<SnapshotModel>::empty() =~= r1.snapshots);
        }
    } else {
        let qd = q.drop_last();
        assert(pq.drop_last() =~= p + qd);
        assert(pq.last() == q.last());
        lemma_v3_run_split(repo, p, qd, amount_in);
        if let Ok(r) = v3_run(repo, pq, amount_in) {
            let r_mid = v3_run(repo, p + qd, amount_in)->Ok_0;
            let r1 = v3_run(repo, p, amount_in)->Ok_0;
            let r2_mid = v3_run(repo, qd, r1.amount)->Ok_0;
            lemma_v3_leg_fees_so_far(repo, q.last(), r_mid.amount, r_mid.fees, r2_mid.fees);
            let r2 = v3_run(repo, q, r1.amount)->Ok_0;
            assert(r.snapshots =~= r1.snapshots + r2.snapshots);
        }
    }
}

} // verus!
