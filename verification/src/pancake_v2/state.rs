//! The state of a PancakeSwap V2 pair: two reserves under the constant
//! product rule.
use vstd::prelude::*;
use vstd::string::*;

use crate::event::EventEnvelope;
use crate::num::{pow128, pow256, u256_add, u256_div, u256_mul, U256};
use crate::pancake_v2::event::{v2_parse_result, PancakeV2Event, PancakeV2EventError};
use crate::state::{PoolSnapshot, Reserves, SnapshotExtra, StateError};
use crate::types::{
    pool_type_label_spec, Address, Asset, AssetModel, ChainNamespace, ChainNamespaceModel,
    PoolIdModel, PoolIdentifier, PoolType, PoolTypeModel,
};

verus! {

/// The V2-specific part of a snapshot.
#[derive(Debug)]
pub struct PancakeV2SnapshotExtra {
    pub token0: Asset,
    pub token1: Asset,
    pub reserve0: u128,
    pub reserve1: u128,
    pub total_supply: Option<u128>,
}

/// The abstract value of the V2-specific part of a snapshot.
pub struct V2ExtraModel {
    pub token0: AssetModel,
    pub token1: AssetModel,
    pub reserve0: u128,
    pub reserve1: u128,
    pub total_supply: Option<u128>,
}

impl View for PancakeV2SnapshotExtra {
    type V = V2ExtraModel;

    open spec fn view(&self) -> V2ExtraModel {
        V2ExtraModel {
            token0: self.token0@,
            token1: self.token1@,
            reserve0: self.reserve0,
            reserve1: self.reserve1,
            total_supply: self.total_supply,
        }
    }
}

impl Clone for PancakeV2SnapshotExtra {
    fn clone(&self) -> (r: PancakeV2SnapshotExtra)
        ensures
            r@ == self@,
    {
        PancakeV2SnapshotExtra {
            token0: self.token0.clone(),
            token1: self.token1.clone(),
            reserve0: self.reserve0,
            reserve1: self.reserve1,
            total_supply: self.total_supply,
        }
    }
}

/// The abstract value of a V2 pool state.
pub struct V2StateModel {
    pub id: PoolIdModel,
    pub token0: AssetModel,
    pub token1: AssetModel,
    pub reserve0: u128,
    pub reserve1: u128,
    pub total_supply: Option<u128>,
    pub reserves: Map<AssetModel, u128>,
}

/// A PancakeSwap V2 pair.
#[derive(Debug)]
pub struct PancakeV2PoolState {
    pub id: PoolIdentifier,
    pub token0: Asset,
    pub token1: Asset,
    pub reserve0: u128,
    pub reserve1: u128,
    pub total_supply: Option<u128>,
    pub reserves: Reserves,
}

impl View for PancakeV2PoolState {
    type V = V2StateModel;

    open spec fn view(&self) -> V2StateModel {
        V2StateModel {
            id: self.id@,
            token0: self.token0@,
            token1: self.token1@,
            reserve0: self.reserve0,
            reserve1: self.reserve1,
            total_supply: self.total_supply,
            reserves: self.reserves@,
        }
    }
}

/// The state with new reserve numbers; the per-asset map is left as it was.
pub open spec fn with_reserves(s: V2StateModel, reserve0: u128, reserve1: u128) -> V2StateModel {
    V2StateModel {
        id: s.id,
        token0: s.token0,
        token1: s.token1,
        reserve0,
        reserve1,
        total_supply: s.total_supply,
        reserves: s.reserves,
    }
}

/// The per-asset map brought in line with the two reserve numbers.
pub open spec fn refreshed(s: V2StateModel) -> V2StateModel {
    V2StateModel {
        id: s.id,
        token0: s.token0,
        token1: s.token1,
        reserve0: s.reserve0,
        reserve1: s.reserve1,
        total_supply: s.total_supply,
        reserves: s.reserves.insert(s.token0, s.reserve0).insert(s.token1, s.reserve1),
    }
}

/// An identifier as a V2 state keeps it: the DEX label of the given pool
/// type and the EVM namespace.
pub open spec fn normalized_id(id: PoolIdModel, dex: Seq<char>) -> PoolIdModel {
    PoolIdModel {
        chain_namespace: ChainNamespaceModel::Evm,
        chain_id: id.chain_id,
        dex,
        address: id.address,
        pool_type: id.pool_type,
    }
}

/// How applying an event ends: applied, refused as meant for another pair,
/// refused because an amount does not fit, or with some other error.
pub enum ApplyOutcome {
    Applied,
    Invalid,
    UpdateFailed,
    OtherError,
}

pub open spec fn outcome_of(r: Result<(), StateError>) -> ApplyOutcome {
    match r {
        Ok(()) => ApplyOutcome::Applied,
        Err(StateError::Invalid(_)) => ApplyOutcome::Invalid,
        Err(StateError::UpdateFailed(_)) => ApplyOutcome::UpdateFailed,
        Err(_) => ApplyOutcome::OtherError,
    }
}

pub open spec fn max_u128() -> nat {
    (pow128() - 1) as nat
}

/// The effect of a V2 event on a pair: the state after it and how it ends.
/// The pair address must match; amounts must fit in 128 bits. Mint adds,
/// burn subtracts, swap adds the amount in and subtracts the amount out,
/// sync overwrites. Reserve 0 is updated before reserve 1 is checked, so a
/// failure on reserve 1 leaves the new reserve 0 in place and the per-asset
/// map as it was.
pub open spec fn v2_apply(s: V2StateModel, e: PancakeV2Event) -> (V2StateModel, ApplyOutcome) {
    match e {
        PancakeV2Event::PairCreated { .. } => (s, ApplyOutcome::Applied),
        PancakeV2Event::Mint { pair, amount0, amount1, .. } => {
            if pair@ != s.id.address {
                (s, ApplyOutcome::Invalid)
            } else if amount0@ > max_u128() || amount1@ > max_u128() {
                (s, ApplyOutcome::UpdateFailed)
            } else if s.reserve0 + amount0@ > max_u128() {
                (s, ApplyOutcome::UpdateFailed)
            } else if s.reserve1 + amount1@ > max_u128() {
                (with_reserves(s, (s.reserve0 + amount0@) as u128, s.reserve1), ApplyOutcome::UpdateFailed)
            } else {
                (
                    refreshed(
                        with_reserves(
                            s,
                            (s.reserve0 + amount0@) as u128,
                            (s.reserve1 + amount1@) as u128,
                        ),
                    ),
                    ApplyOutcome::Applied,
                )
            }
        },
        PancakeV2Event::Burn { pair, amount0, amount1, .. } => {
            if pair@ != s.id.address {
                (s, ApplyOutcome::Invalid)
            } else if amount0@ > max_u128() || amount1@ > max_u128() {
                (s, ApplyOutcome::UpdateFailed)
            } else if s.reserve0 < amount0@ {
                (s, ApplyOutcome::UpdateFailed)
            } else if s.reserve1 < amount1@ {
                (with_reserves(s, (s.reserve0 - amount0@) as u128, s.reserve1), ApplyOutcome::UpdateFailed)
            } else {
                (
                    refreshed(
                        with_reserves(
                            s,
                            (s.reserve0 - amount0@) as u128,
                            (s.reserve1 - amount1@) as u128,
                        ),
                    ),
                    ApplyOutcome::Applied,
                )
            }
        },
        PancakeV2Event::Swap { pair, amount0_in, amount1_in, amount0_out, amount1_out, .. } => {
            if pair@ != s.id.address {
                (s, ApplyOutcome::Invalid)
            } else if amount0_in@ > max_u128() || amount1_in@ > max_u128() || amount0_out@
                > max_u128() || amount1_out@ > max_u128() {
                (s, ApplyOutcome::UpdateFailed)
            } else if s.reserve0 + amount0_in@ > max_u128() || s.reserve0 + amount0_in@
                < amount0_out@ {
                (s, ApplyOutcome::UpdateFailed)
            } else if s.reserve1 + amount1_in@ > max_u128() || s.reserve1 + amount1_in@
                < amount1_out@ {
                (
                    with_reserves(s, (s.reserve0 + amount0_in@ - amount0_out@) as u128, s.reserve1),
                    ApplyOutcome::UpdateFailed,
                )
            } else {
                (
                    refreshed(
                        with_reserves(
                            s,
                            (s.reserve0 + amount0_in@ - amount0_out@) as u128,
                            (s.reserve1 + amount1_in@ - amount1_out@) as u128,
                        ),
                    ),
                    ApplyOutcome::Applied,
                )
            }
        },
        PancakeV2Event::Sync { pair, reserve0, reserve1 } => {
            if pair@ != s.id.address {
                (s, ApplyOutcome::Invalid)
            } else if reserve0@ > max_u128() {
                (s, ApplyOutcome::UpdateFailed)
            } else if reserve1@ > max_u128() {
                (with_reserves(s, reserve0@ as u128, s.reserve1), ApplyOutcome::UpdateFailed)
            } else {
                (
                    refreshed(with_reserves(s, reserve0@ as u128, reserve1@ as u128)),
                    ApplyOutcome::Applied,
                )
            }
        },
    }
}

/// The constant product output: the amount in less the fee, times the
/// output reserve, over the input reserve plus the amount in less the fee
/// (all scaled by the fee denominator 10 000), rounded down.
pub open spec fn v2_amount_out(reserve_in: nat, reserve_out: nat, amount_in: nat, fee_bps: nat) -> nat {
    let with_fee = amount_in * (10000 - fee_bps) as nat;
    (with_fee * reserve_out) / (reserve_in * 10000 + with_fee)
}

/// The reserves (in, out) that a swap from `input` to `output` trades
/// against, when the two assets are the pair's tokens.
pub open spec fn v2_direction(s: V2StateModel, input: Seq<u8>, output: Seq<u8>) -> Option<bool> {
    if input == s.token0.address && output == s.token1.address {
        Some(true)
    } else if input == s.token1.address && output == s.token0.address {
        Some(false)
    } else {
        None
    }
}

pub open spec fn v2_reserve_in(s: V2StateModel, zero_to_one: bool) -> nat {
    if zero_to_one {
        s.reserve0 as nat
    } else {
        s.reserve1 as nat
    }
}

pub open spec fn v2_reserve_out(s: V2StateModel, zero_to_one: bool) -> nat {
    if zero_to_one {
        s.reserve1 as nat
    } else {
        s.reserve0 as nat
    }
}

/// The 256-bit product of the quote fits (the `ethers` multiplication would
/// panic otherwise); only the inputs that reach the product are asked.
pub open spec fn v2_quote_fits(s: V2StateModel, input: Seq<u8>, output: Seq<u8>, amount_in: u128, fee_bps: u32) -> bool {
    match v2_direction(s, input, output) {
        Some(d) => amount_in == 0 || fee_bps > 10000 || v2_reserve_in(s, d) == 0 || v2_reserve_out(
            s,
            d,
        ) == 0 || amount_in as nat * (10000 - fee_bps) as nat * v2_reserve_out(s, d) < pow256(),
        None => true,
    }
}

/// The fee charged on the amount in, in basis points, rounded down; the
/// product saturates at the largest 128-bit value.
pub open spec fn v2_fee_paid(amount_in: u128, fee_bps: u32) -> nat {
    if amount_in as nat * fee_bps as nat > max_u128() {
        max_u128() / 10000
    } else {
        (amount_in as nat * fee_bps as nat) / 10000
    }
}

/// The state after a quoted swap: the input reserve grows by the amount in,
/// the output reserve shrinks by the amount out, and the map follows.
pub open spec fn v2_after_swap(s: V2StateModel, zero_to_one: bool, amount_in: nat, amount_out: nat) -> V2StateModel {
    if zero_to_one {
        refreshed(with_reserves(s, (s.reserve0 + amount_in) as u128, (s.reserve1 - amount_out) as u128))
    } else {
        refreshed(with_reserves(s, (s.reserve0 - amount_out) as u128, (s.reserve1 + amount_in) as u128))
    }
}

/// Whether the quote fails, and with which error kind (`true` for invalid
/// input, `false` for a failed update).
pub open spec fn v2_quote_error(s: V2StateModel, input: Seq<u8>, output: Seq<u8>, amount_in: u128, fee_bps: u32) -> Option<bool> {
    if amount_in == 0 || fee_bps > 10000 {
        Some(true)
    } else {
        match v2_direction(s, input, output) {
            None => Some(true),
            Some(d) => {
                if v2_reserve_in(s, d) == 0 || v2_reserve_out(s, d) == 0 {
                    Some(true)
                } else if v2_amount_out(
                    v2_reserve_in(s, d),
                    v2_reserve_out(s, d),
                    amount_in as nat,
                    fee_bps as nat,
                ) == 0 {
                    Some(true)
                } else if v2_reserve_in(s, d) + amount_in > max_u128() {
                    Some(false)
                } else {
                    None
                }
            },
        }
    }
}

proof fn lemma_quote_bounds(reserve_in: nat, reserve_out: nat, amount_in: nat, fee_bps: nat)
    requires
        reserve_in > 0,
        reserve_out > 0,
        fee_bps <= 10000,
    ensures
        v2_amount_out(reserve_in, reserve_out, amount_in, fee_bps) < reserve_out,
        (reserve_in + amount_in) * (reserve_out - v2_amount_out(
            reserve_in,
            reserve_out,
            amount_in,
            fee_bps,
        )) >= reserve_in * reserve_out,
{
    let f = (10000 - fee_bps) as nat;
    let w = amount_in * f;
    let den = reserve_in * 10000 + w;
    let x = v2_amount_out(reserve_in, reserve_out, amount_in, fee_bps);
    assert(den > 0) by (nonlinear_arith)
        requires
            reserve_in > 0,
            den == reserve_in * 10000 + w,
    ;
    assert(x * den <= w * reserve_out) by (nonlinear_arith)
        requires
            den > 0,
            x == (w * reserve_out) / den,
    ;
    assert(w * reserve_out < den * reserve_out) by (nonlinear_arith)
        requires
            den == reserve_in * 10000 + w,
            reserve_in > 0,
            reserve_out > 0,
    ;
    assert(x < reserve_out) by (nonlinear_arith)
        requires
            x * den <= w * reserve_out,
            w * reserve_out < den * reserve_out,
            den > 0,
    ;
    if f > 0 {
        assert(x * (reserve_in + amount_in) * f <= x * den) by (nonlinear_arith)
            requires
                den == reserve_in * 10000 + amount_in * f,
                f <= 10000,
        ;
        assert(x * (reserve_in + amount_in) <= amount_in * reserve_out) by (nonlinear_arith)
            requires
                x * (reserve_in + amount_in) * f <= x * den,
                x * den <= w * reserve_out,
                w == amount_in * f,
                f > 0,
        ;
    } else {
        assert(w == 0) by (nonlinear_arith)
            requires
                w == amount_in * f,
                f == 0,
        ;
        assert(x == 0) by (nonlinear_arith)
            requires
                x == (w * reserve_out) / den,
                w == 0,
                den > 0,
        ;
    }
    assert((reserve_in + amount_in) * (reserve_out - x) >= reserve_in * reserve_out)
        by (nonlinear_arith)
        requires
            x * (reserve_in + amount_in) <= amount_in * reserve_out,
            x < reserve_out,
    ;
}

/// A 256-bit value as `u128`, refused when it does not fit.
fn u256_to_u128(value: &U256) -> (r: Result<u128, StateError>)
    ensures
        value@ <= max_u128() ==> (r matches Ok(v) && v == value@),
        value@ > max_u128() ==> r matches Err(StateError::UpdateFailed(_)),
{
    let max = U256::from_u128(u128::MAX);
    if max.lt(value) {
        return Err(StateError::UpdateFailed(String::from_str("数值超过 u128 范围")));
    }
    Ok(value.as_u128())
}

impl PancakeV2PoolState {
    pub open spec fn wf(&self) -> bool {
        self.reserves.wf()
    }

    fn refresh_reserves(&mut self)
        requires
            old(self).wf(),
        ensures
            final(self).wf(),
            final(self)@ == refreshed(old(self)@),
    {
        self.reserves.set(self.token0.clone(), self.reserve0);
        self.reserves.set(self.token1.clone(), self.reserve1);
    }

    /// A new pair with zero reserves; the identifier is labelled
    /// `pancake_v2` in the EVM namespace.
    pub fn new(id: PoolIdentifier, token0: Asset, token1: Asset) -> (r: PancakeV2PoolState)
        ensures
            r.wf(),
            r@.id == normalized_id(id@, "pancake_v2"@),
            r@.token0 == token0@,
            r@.token1 == token1@,
            r@.reserve0 == 0,
            r@.reserve1 == 0,
            r@.total_supply is None,
            r@.reserves == Map::<AssetModel, u128>::empty().insert(token0@, 0).insert(token1@, 0),
    {
        let mut id = id;
        id.dex = PoolType::PancakeV2.label();
        id.chain_namespace = ChainNamespace::Evm;
        let mut state = PancakeV2PoolState {
            id,
            token0,
            token1,
            reserve0: 0,
            reserve1: 0,
            total_supply: None,
            reserves: Reserves::new(),
        };
        state.refresh_reserves();
        state
    }

    /// Restores a pair from a snapshot that holds V2 data; the identifier
    /// is labelled by its own pool type.
    pub fn from_snapshot(snapshot: &PoolSnapshot) -> (r: Result<PancakeV2PoolState, StateError>)
        requires
            snapshot.wf(),
        ensures
            match snapshot@.extra {
                crate::state::ExtraModel::PancakeV2(x) => r matches Ok(s) && s.wf() && s@
                    == refreshed(
                    V2StateModel {
                        id: normalized_id(snapshot@.id, pool_type_label_spec(snapshot@.id.pool_type)),
                        token0: x.token0,
                        token1: x.token1,
                        reserve0: x.reserve0,
                        reserve1: x.reserve1,
                        total_supply: x.total_supply,
                        reserves: snapshot@.reserves,
                    },
                ),
                _ => r matches Err(StateError::Serialize(m)) && m@ == "快照不含 PancakeSwap V2 数据"@,
            },
    {
        let extra = match &snapshot.extra {
            SnapshotExtra::PancakeV2(x) => x.clone(),
            _ => {
                return Err(
                    StateError::Serialize(String::from_str("快照不含 PancakeSwap V2 数据")),
                );
            },
        };
        let mut id = snapshot.id.clone();
        id.dex = id.pool_type.label();
        id.chain_namespace = ChainNamespace::Evm;
        let mut state = PancakeV2PoolState {
            id,
            token0: extra.token0,
            token1: extra.token1,
            reserve0: extra.reserve0,
            reserve1: extra.reserve1,
            total_supply: extra.total_supply,
            reserves: snapshot.reserves.clone(),
        };
        state.refresh_reserves();
        Ok(state)
    }

    /// The snapshot of this pair.
    pub fn to_snapshot(&self) -> (r: Result<PoolSnapshot, StateError>)
        requires
            self.wf(),
        ensures
            r matches Ok(snap) && snap.wf() && snap@.id == self@.id && snap@.reserves
                == self@.reserves && snap@.extra == crate::state::ExtraModel::PancakeV2(
                V2ExtraModel {
                    token0: self@.token0,
                    token1: self@.token1,
                    reserve0: self@.reserve0,
                    reserve1: self@.reserve1,
                    total_supply: self@.total_supply,
                },
            ),
    {
        let extra = PancakeV2SnapshotExtra {
            token0: self.token0.clone(),
            token1: self.token1.clone(),
            reserve0: self.reserve0,
            reserve1: self.reserve1,
            total_supply: self.total_supply,
        };
        Ok(
            PoolSnapshot {
                id: self.id.clone(),
                reserves: self.reserves.clone(),
                extra: SnapshotExtra::PancakeV2(extra),
            },
        )
    }

    pub fn id(&self) -> (r: &PoolIdentifier)
        ensures
            r@ == self@.id,
    {
        &self.id
    }

    pub fn reserves(&self) -> (r: &Reserves)
        ensures
            r@ == self@.reserves,
    {
        &self.reserves
    }

    pub fn token0(&self) -> (r: &Asset)
        ensures
            r@ == self@.token0,
    {
        &self.token0
    }

    pub fn token1(&self) -> (r: &Asset)
        ensures
            r@ == self@.token1,
    {
        &self.token1
    }

    pub fn reserve0(&self) -> (r: u128)
        ensures
            r == self@.reserve0,
    {
        self.reserve0
    }

    pub fn reserve1(&self) -> (r: u128)
        ensures
            r == self@.reserve1,
    {
        self.reserve1
    }

    /// Overwrites both reserves.
    pub fn set_reserves(&mut self, reserve0: u128, reserve1: u128)
        requires
            old(self).wf(),
        ensures
            final(self).wf(),
            final(self)@ == refreshed(with_reserves(old(self)@, reserve0, reserve1)),
    {
        self.reserve0 = reserve0;
        self.reserve1 = reserve1;
        self.refresh_reserves();
    }

    pub fn set_total_supply(&mut self, total_supply: Option<u128>)
        requires
            old(self).wf(),
        ensures
            final(self).wf(),
            final(self)@ == (V2StateModel { total_supply, ..old(self)@ }),
    {
        self.total_supply = total_supply;
    }

    fn ensure_pair(&self, pair: &Address) -> (r: Result<(), StateError>)
        ensures
            pair@ == self@.id.address ==> r is Ok,
            pair@ != self@.id.address ==> r matches Err(StateError::Invalid(_)),
    {
        if self.id.address.same(pair) {
            Ok(())
        } else {
            Err(StateError::Invalid(String::from_str("事件地址与池子不匹配")))
        }
    }

    /// Applies a V2 event to the pair.
    pub fn apply_pancake_event(&mut self, event: &PancakeV2Event) -> (r: Result<(), StateError>)
        requires
            old(self).wf(),
        ensures
            final(self).wf(),
            (final(self)@, outcome_of(r)) == v2_apply(old(self)@, *event),
    {
        match event {
            PancakeV2Event::PairCreated { .. } => Ok(()),
            PancakeV2Event::Mint { pair, amount0, amount1, .. } => {
                self.ensure_pair(pair)?;
                let a0 = u256_to_u128(amount0)?;
                let a1 = u256_to_u128(amount1)?;
                self.reserve0 = match self.reserve0.checked_add(a0) {
                    Some(v) => v,
                    None => return Err(StateError::UpdateFailed(String::from_str("reserve0 溢出"))),
                };
                self.reserve1 = match self.reserve1.checked_add(a1) {
                    Some(v) => v,
                    None => return Err(StateError::UpdateFailed(String::from_str("reserve1 溢出"))),
                };
                self.refresh_reserves();
                Ok(())
            },
            PancakeV2Event::Burn { pair, amount0, amount1, .. } => {
                self.ensure_pair(pair)?;
                let a0 = u256_to_u128(amount0)?;
                let a1 = u256_to_u128(amount1)?;
                self.reserve0 = match self.reserve0.checked_sub(a0) {
                    Some(v) => v,
                    None => return Err(StateError::UpdateFailed(String::from_str("reserve0 不足"))),
                };
                self.reserve1 = match self.reserve1.checked_sub(a1) {
                    Some(v) => v,
                    None => return Err(StateError::UpdateFailed(String::from_str("reserve1 不足"))),
                };
                self.refresh_reserves();
                Ok(())
            },
            PancakeV2Event::Swap { pair, amount0_in, amount1_in, amount0_out, amount1_out, .. } => {
                self.ensure_pair(pair)?;
                let a0_in = u256_to_u128(amount0_in)?;
                let a1_in = u256_to_u128(amount1_in)?;
                let a0_out = u256_to_u128(amount0_out)?;
                let a1_out = u256_to_u128(amount1_out)?;
                self.reserve0 = match self.reserve0.checked_add(a0_in) {
                    Some(v) => match v.checked_sub(a0_out) {
                        Some(w) => w,
                        None => return Err(StateError::UpdateFailed(String::from_str("reserve0 计算失败"))),
                    },
                    None => return Err(StateError::UpdateFailed(String::from_str("reserve0 计算失败"))),
                };
                self.reserve1 = match self.reserve1.checked_add(a1_in) {
                    Some(v) => match v.checked_sub(a1_out) {
                        Some(w) => w,
                        None => return Err(StateError::UpdateFailed(String::from_str("reserve1 计算失败"))),
                    },
                    None => return Err(StateError::UpdateFailed(String::from_str("reserve1 计算失败"))),
                };
                self.refresh_reserves();
                Ok(())
            },
            PancakeV2Event::Sync { pair, reserve0, reserve1 } => {
                self.ensure_pair(pair)?;
                self.reserve0 = u256_to_u128(reserve0)?;
                self.reserve1 = u256_to_u128(reserve1)?;
                self.refresh_reserves();
                Ok(())
            },
        }
    }

    /// Reads a log as a V2 event and applies it; logs of other events are
    /// left alone, unreadable ones refused.
    pub fn apply_event(&mut self, event: &EventEnvelope) -> (r: Result<(), StateError>)
        requires
            old(self).wf(),
        ensures
            final(self).wf(),
            forall|parsed: Result<PancakeV2Event, PancakeV2EventError>|
                #[trigger] v2_parse_result(event@, parsed) ==> match parsed {
                    Ok(e) => (final(self)@, outcome_of(r)) == v2_apply(old(self)@, e),
                    Err(PancakeV2EventError::Unsupported) => r is Ok && final(self)@ == old(self)@,
                    Err(_) => r matches Err(StateError::UpdateFailed(_)) && final(self)@ == old(
                        self,
                    )@,
                },
    {
        match PancakeV2Event::try_from(event) {
            Ok(parsed) => self.apply_pancake_event(&parsed),
            Err(PancakeV2EventError::Unsupported) => Ok(()),
            Err(PancakeV2EventError::MissingTopics) => Err(
                StateError::UpdateFailed(String::from_str("缺少事件主题(topic)")),
            ),
            Err(PancakeV2EventError::Decode(m)) => Err(
                StateError::UpdateFailed(String::from_str("事件数据解析失败: ").concat(m.as_str())),
            ),
        }
    }

    /// Quotes a swap of `amount_in` of `input_asset` for `output_asset` at a
    /// fee of `fee_bps` basis points: the amount out, the fee paid and the
    /// pair as it would be after the swap.
    pub fn quote_swap(
        &self,
        input_asset: &Asset,
        output_asset: &Asset,
        amount_in: u128,
        fee_bps: u32,
    ) -> (r: Result<(u128, u128, PancakeV2PoolState), StateError>)
        requires
            self.wf(),
            v2_quote_fits(self@, input_asset@.address, output_asset@.address, amount_in, fee_bps),
        ensures
            match v2_quote_error(self@, input_asset@.address, output_asset@.address, amount_in, fee_bps) {
                Some(true) => r matches Err(StateError::Invalid(_)),
                Some(false) => r matches Err(StateError::UpdateFailed(_)),
                None => {
                    let d = v2_direction(self@, input_asset@.address, output_asset@.address)->0;
                    let out = v2_amount_out(
                        v2_reserve_in(self@, d),
                        v2_reserve_out(self@, d),
                        amount_in as nat,
                        fee_bps as nat,
                    );
                    r matches Ok((amount_out, fee_paid, next)) && amount_out == out && fee_paid
                        == v2_fee_paid(amount_in, fee_bps) && next.wf() && next@ == v2_after_swap(
                        self@,
                        d,
                        amount_in as nat,
                        out,
                    )
                },
            },
    {
        if amount_in == 0 {
            return Err(StateError::Invalid(String::from_str("amount_in 不能为 0")));
        }
        let fee_denom: u128 = 10_000;
        let fee_num = match fee_denom.checked_sub(fee_bps as u128) {
            Some(v) => v,
            None => return Err(StateError::Invalid(String::from_str("手续费配置异常"))),
        };
        let zero_to_one: bool;
        let reserve_in: u128;
        let reserve_out: u128;
        if input_asset.address.same(&self.token0.address) && output_asset.address.same(&self.token1.address) {
            zero_to_one = true;
            reserve_in = self.reserve0;
            reserve_out = self.reserve1;
        } else if input_asset.address.same(&self.token1.address) && output_asset.address.same(
            &self.token0.address,
        ) {
            zero_to_one = false;
            reserve_in = self.reserve1;
            reserve_out = self.reserve0;
        } else {
            return Err(StateError::Invalid(String::from_str("输入输出资产与池子不匹配")));
        }
        if reserve_in == 0 || reserve_out == 0 {
            return Err(StateError::Invalid(String::from_str("池子储备不足")));
        }
        proof {
            assert(amount_in as nat * fee_num as nat <= max_u128() * 10000) by (nonlinear_arith)
                requires
                    amount_in <= max_u128(),
                    fee_num <= 10000,
            ;
            assert(reserve_in as nat * 10000 <= max_u128() * 10000) by (nonlinear_arith)
                requires
                    reserve_in <= max_u128(),
            ;
            lemma_quote_bounds(reserve_in as nat, reserve_out as nat, amount_in as nat, fee_bps as nat);
        }
        let amount_in_u256 = U256::from_u128(amount_in);
        let reserve_in_u256 = U256::from_u128(reserve_in);
        let reserve_out_u256 = U256::from_u128(reserve_out);
        let fee_num_u256 = U256::from_u128(fee_num);
        let fee_denom_u256 = U256::from_u128(fee_denom);
        let amount_in_with_fee = u256_mul(amount_in_u256, fee_num_u256);
        let numerator = u256_mul(amount_in_with_fee, reserve_out_u256);
        let denominator = u256_add(u256_mul(reserve_in_u256, fee_denom_u256), amount_in_with_fee);
        if denominator.is_zero() {
            return Err(StateError::Invalid(String::from_str("swap 除数为 0")));
        }
        let amount_out_u256 = u256_div(numerator, denominator);
        if amount_out_u256.is_zero() {
            return Err(StateError::Invalid(String::from_str("输出数量为 0")));
        }
        let amount_out = match u256_to_u128(&amount_out_u256) {
            Ok(v) => v,
            Err(e) => return Err(e),
        };
        let mut next_state = self.duplicate();
        if zero_to_one {
            next_state.reserve0 = match next_state.reserve0.checked_add(amount_in) {
                Some(v) => v,
                None => return Err(StateError::UpdateFailed(String::from_str("reserve0 更新失败"))),
            };
            next_state.reserve1 = match next_state.reserve1.checked_sub(amount_out) {
                Some(v) => v,
                None => return Err(StateError::UpdateFailed(String::from_str("reserve1 更新失败"))),
            };
        } else {
            next_state.reserve1 = match next_state.reserve1.checked_add(amount_in) {
                Some(v) => v,
                None => return Err(StateError::UpdateFailed(String::from_str("reserve1 更新失败"))),
            };
            next_state.reserve0 = match next_state.reserve0.checked_sub(amount_out) {
                Some(v) => v,
                None => return Err(StateError::UpdateFailed(String::from_str("reserve0 更新失败"))),
            };
        }
        next_state.refresh_reserves();
        let fee_paid = match amount_in.checked_mul(fee_bps as u128) {
            Some(v) => v,
            None => u128::MAX,
        } / fee_denom;
        Ok((amount_out, fee_paid, next_state))
    }

    /// A copy of the pair.
    pub fn duplicate(&self) -> (r: PancakeV2PoolState)
        ensures
            r@ == self@,
            self.wf() ==> r.wf(),
    {
        PancakeV2PoolState {
            id: self.id.clone(),
            token0: self.token0.clone(),
            token1: self.token1.clone(),
            reserve0: self.reserve0,
            reserve1: self.reserve1,
            total_supply: self.total_supply,
            reserves: self.reserves.clone(),
        }
    }
}

impl Clone for PancakeV2PoolState {
    fn clone(&self) -> (r: PancakeV2PoolState)
        ensures
            r@ == self@,
            self.wf() ==> r.wf(),
    {
        self.duplicate()
    }
}

} // verus!

verus! {

/// A quoted swap never takes the whole output reserve, and the product of
/// the two reserves after it is at least the product before it.
pub proof fn lemma_quote_keeps_product(
    s: V2StateModel,
    input: Seq<u8>,
    output: Seq<u8>,
    amount_in: u128,
    fee_bps: u32,
)
    requires
        v2_quote_error(s, input, output, amount_in, fee_bps) is None,
    ensures
        ({
            let d = v2_direction(s, input, output)->0;
            let out = v2_amount_out(
                v2_reserve_in(s, d),
                v2_reserve_out(s, d),
                amount_in as nat,
                fee_bps as nat,
            );
            let after = v2_after_swap(s, d, amount_in as nat, out);
            &&& 0 < out < v2_reserve_out(s, d)
            &&& after.reserve0 as nat * after.reserve1 as nat >= s.reserve0 as nat * s.reserve1 as nat
        }),
{
    let d = v2_direction(s, input, output)->0;
    let rin = v2_reserve_in(s, d);
    let rout = v2_reserve_out(s, d);
    let out = v2_amount_out(rin, rout, amount_in as nat, fee_bps as nat);
    lemma_quote_bounds(rin, rout, amount_in as nat, fee_bps as nat);
    if d {
        assert((rin + amount_in) * (rout - out) == (rout - out) * (rin + amount_in))
            by (nonlinear_arith);
        assert(rin * rout == rout * rin) by (nonlinear_arith);
    }
}

/// Paying more in never gives less out: the constant-product output grows
/// with the amount in (for a pair with a positive input reserve).
pub proof fn lemma_amount_out_monotone(reserve_in: nat, reserve_out: nat, a: nat, b: nat, fee_bps: nat)
    requires
        reserve_in > 0,
        a <= b,
    ensures
        v2_amount_out(reserve_in, reserve_out, a, fee_bps) <= v2_amount_out(
            reserve_in,
            reserve_out,
            b,
            fee_bps,
        ),
{
    let f = (10000 - fee_bps) as nat;
    let x = a * f;
    let y = b * f;
    let d = reserve_in * 10000;
    let r = reserve_out;
    assert(x <= y) by (nonlinear_arith)
        requires
            x == a * f,
            y == b * f,
            a <= b,
    ;
    assert(d > 0) by (nonlinear_arith)
        requires
            d == reserve_in * 10000,
            reserve_in > 0,
    ;
    let q = (x * r) / (d + x);
    let p = (y * r) / (d + y);
    assert(q * (d + x) <= x * r) by (nonlinear_arith)
        requires
            q == (x * r) / (d + x),
            d + x > 0,
    ;
    assert(x * (d + y) <= y * (d + x)) by (nonlinear_arith)
        requires
            x <= y,
            d >= 0,
    ;
    assert(q * (d + y) * (d + x) <= y * r * (d + x)) by (nonlinear_arith)
        requires
            q * (d + x) <= x * r,
            x * (d + y) <= y * (d + x),
            q >= 0,
            r >= 0,
            d + y >= 0,
    ;
    assert(q * (d + y) <= y * r) by (nonlinear_arith)
        requires
            q * (d + y) * (d + x) <= y * r * (d + x),
            d + x > 0,
    ;
    assert(q <= p) by (nonlinear_arith)
        requires
            q * (d + y) <= y * r,
            p == (y * r) / (d + y),
            d + y > 0,
            q >= 0,
    ;
}

/// Refreshing the per-asset map twice is refreshing it once.
pub proof fn lemma_refresh_idempotent(s: V2StateModel)
    ensures
        refreshed(refreshed(s)) == refreshed(s),
{
    assert(refreshed(refreshed(s)).reserves =~= refreshed(s).reserves);
}

/// A mint that succeeds, followed by a burn of the same amounts, gives the
/// pair back its reserves.
pub proof fn lemma_mint_then_burn(
    s: V2StateModel,
    pair: Address,
    sender: Address,
    to: Address,
    amount0: U256,
    amount1: U256,
)
    requires
        v2_apply(s, PancakeV2Event::Mint { pair, sender, amount0, amount1 }).1
            == ApplyOutcome::Applied,
    ensures
        ({
            let minted = v2_apply(s, PancakeV2Event::Mint { pair, sender, amount0, amount1 }).0;
            let burned = v2_apply(minted, PancakeV2Event::Burn { pair, sender, to, amount0, amount1 });
            &&& burned.1 == ApplyOutcome::Applied
            &&& burned.0.reserve0 == s.reserve0
            &&& burned.0.reserve1 == s.reserve1
            &&& burned.0 == refreshed(s)
        }),
{
    let minted = v2_apply(s, PancakeV2Event::Mint { pair, sender, amount0, amount1 }).0;
    let burned = v2_apply(minted, PancakeV2Event::Burn { pair, sender, to, amount0, amount1 });
    assert(burned.0.reserves =~= refreshed(s).reserves);
}

/// A sync that succeeds sets both reserves to the synced values.
pub proof fn lemma_sync_sets_reserves(s: V2StateModel, pair: Address, reserve0: U256, reserve1: U256)
    requires
        pair@ == s.id.address,
        reserve0@ <= max_u128(),
        reserve1@ <= max_u128(),
    ensures
        v2_apply(s, PancakeV2Event::Sync { pair, reserve0, reserve1 }).1 == ApplyOutcome::Applied,
        v2_apply(s, PancakeV2Event::Sync { pair, reserve0, reserve1 }).0.reserve0 == reserve0@,
        v2_apply(s, PancakeV2Event::Sync { pair, reserve0, reserve1 }).0.reserve1 == reserve1@,
{
}

/// Restoring the snapshot of a pair gives the same pair back, when its
/// identifier is already normalised and its per-asset map refreshed.
pub proof fn lemma_v2_snapshot_roundtrip(s: V2StateModel)
    requires
        s == refreshed(s),
        s.id == normalized_id(s.id, pool_type_label_spec(s.id.pool_type)),
    ensures
        refreshed(
            V2StateModel {
                id: normalized_id(s.id, pool_type_label_spec(s.id.pool_type)),
                token0: s.token0,
                token1: s.token1,
                reserve0: s.reserve0,
                reserve1: s.reserve1,
                total_supply: s.total_supply,
                reserves: s.reserves,
            },
        ) == s,
{
}

/// What an applied V2 event leaves of the pair besides its reserves: the
/// identity, the tokens and the supply are kept, and the per-asset map
/// holds the two reserves for the two tokens.
pub open spec fn v2_rest_kept(s: V2StateModel, t: V2StateModel) -> bool {
    &&& t.id == s.id
    &&& t.token0 == s.token0
    &&& t.token1 == s.token1
    &&& t.total_supply == s.total_supply
    &&& t.reserves.contains_key(t.token1) && t.reserves[t.token1] == t.reserve1
    &&& t.reserves.contains_key(t.token0)
    &&& t.token0 != t.token1 ==> t.reserves[t.token0] == t.reserve0
}

/// A swap moves each reserve by what came in less what went out: reserve0
/// by amount0In - amount0Out and reserve1 by amount1In - amount1Out. It is
/// refused as `Invalid` when the log is another pair's, and it applies
/// exactly when every amount fits in 128 bits and, for each token, the
/// reserve plus what came in fits and covers what went out.
pub proof fn lemma_v2_swap_applied(s: V2StateModel, e: PancakeV2Event)
    requires
        e matches PancakeV2Event::Swap { .. },
    ensures
        e matches PancakeV2Event::Swap { pair, amount0_in, amount1_in, amount0_out, amount1_out, .. }
            ==> {
            let (t, o) = v2_apply(s, e);
            &&& (o == ApplyOutcome::Invalid) == (pair@ != s.id.address)
            &&& (o == ApplyOutcome::Applied) == (pair@ == s.id.address && amount0_in@ <= max_u128()
                && amount1_in@ <= max_u128() && amount0_out@ <= max_u128() && amount1_out@
                <= max_u128() && s.reserve0 + amount0_in@ <= max_u128() && amount0_out@
                <= s.reserve0 + amount0_in@ && s.reserve1 + amount1_in@ <= max_u128()
                && amount1_out@ <= s.reserve1 + amount1_in@)
            &&& o == ApplyOutcome::Applied ==> {
                &&& t.reserve0 == s.reserve0 + amount0_in@ - amount0_out@
                &&& t.reserve1 == s.reserve1 + amount1_in@ - amount1_out@
                &&& v2_rest_kept(s, t)
            }
        },
{
}

/// A mint adds its amounts to the reserves; it applies exactly when the
/// log is the pair's and both new reserves fit in 128 bits.
pub proof fn lemma_v2_mint_applied(s: V2StateModel, e: PancakeV2Event)
    requires
        e matches PancakeV2Event::Mint { .. },
    ensures
        e matches PancakeV2Event::Mint { pair, amount0, amount1, .. } ==> {
            let (t, o) = v2_apply(s, e);
            &&& (o == ApplyOutcome::Invalid) == (pair@ != s.id.address)
            &&& (o == ApplyOutcome::Applied) == (pair@ == s.id.address && s.reserve0 + amount0@
                <= max_u128() && s.reserve1 + amount1@ <= max_u128())
            &&& o == ApplyOutcome::Applied ==> {
                &&& t.reserve0 == s.reserve0 + amount0@
                &&& t.reserve1 == s.reserve1 + amount1@
                &&& v2_rest_kept(s, t)
            }
        },
{
}

/// A burn takes its amounts out of the reserves; it applies exactly when
/// the log is the pair's, both amounts fit in 128 bits and the reserves
/// cover them.
pub proof fn lemma_v2_burn_applied(s: V2StateModel, e: PancakeV2Event)
    requires
        e matches PancakeV2Event::Burn { .. },
    ensures
        e matches PancakeV2Event::Burn { pair, amount0, amount1, .. } ==> {
            let (t, o) = v2_apply(s, e);
            &&& (o == ApplyOutcome::Invalid) == (pair@ != s.id.address)
            &&& (o == ApplyOutcome::Applied) == (pair@ == s.id.address && amount0@ <= max_u128()
                && amount1@ <= max_u128() && amount0@ <= s.reserve0 && amount1@ <= s.reserve1)
            &&& o == ApplyOutcome::Applied ==> {
                &&& t.reserve0 == s.reserve0 - amount0@
                &&& t.reserve1 == s.reserve1 - amount1@
                &&& v2_rest_kept(s, t)
            }
        },
{
}

/// A sync sets the reserves to its own; it applies exactly when the log is
/// the pair's and both values fit in 128 bits.
pub proof fn lemma_v2_sync_applied(s: V2StateModel, e: PancakeV2Event)
    requires
        e matches PancakeV2Event::Sync { .. },
    ensures
        e matches PancakeV2Event::Sync { pair, reserve0, reserve1 } ==> {
            let (t, o) = v2_apply(s, e);
            &&& (o == ApplyOutcome::Invalid) == (pair@ != s.id.address)
            &&& (o == ApplyOutcome::Applied) == (pair@ == s.id.address && reserve0@ <= max_u128()
                && reserve1@ <= max_u128())
            &&& o == ApplyOutcome::Applied ==> {
                &&& t.reserve0 == reserve0@
                &&& t.reserve1 == reserve1@
                &&& v2_rest_kept(s, t)
            }
        },
{
}

/// The constant-product amount out: with `w` the amount in less the fee
/// (`amount_in * (10000 - fee_bps)`), the amount out is the largest `out`
/// with `out * (reserve_in * 10000 + w) <= w * reserve_out`, so the product
/// of the reserves does not fall, and it is less than the output reserve.
pub proof fn lemma_v2_amount_out_constant_product(reserve_in: nat, reserve_out: nat, amount_in: nat, fee_bps: nat)
    requires
        fee_bps <= 10000,
        reserve_in > 0,
    ensures
        ({
            let w = amount_in * (10000 - fee_bps);
            let d = reserve_in * 10000 + w;
            let out = v2_amount_out(reserve_in, reserve_out, amount_in, fee_bps);
            &&& out * d <= w * reserve_out
            &&& w * reserve_out < (out + 1) * d
            &&& reserve_out > 0 ==> out < reserve_out
        }),
{
    let w = amount_in * (10000 - fee_bps) as nat;
    let d = reserve_in * 10000 + w;
    let x = w * reserve_out;
    let out = v2_amount_out(reserve_in, reserve_out, amount_in, fee_bps);
    assert(w == amount_in * (10000 - fee_bps));
    assert(out == x / d);
    assert(d > 0) by (nonlinear_arith)
        requires
            reserve_in > 0,
            d == reserve_in * 10000 + w,
            w >= 0,
    ;
    assert((x / d) * d <= x && x < (x / d + 1) * d) by (nonlinear_arith)
        requires
            d > 0,
            x >= 0,
    ;
    assert(reserve_out > 0 ==> out < reserve_out) by (nonlinear_arith)
        requires
            out * d <= x,
            x == w * reserve_out,
            d == reserve_in * 10000 + w,
            reserve_in > 0,
            w >= 0,
            out >= 0,
    ;
}

/// A quote that succeeds trades the input token's reserve against the
/// output token's: the amount out is the constant-product amount for those
/// two reserves (see `lemma_v2_amount_out_constant_product`), positive and
/// less than the output reserve, and the pair after the swap holds the
/// input reserve plus the amount in and the output reserve less the amount
/// out.
pub proof fn lemma_v2_quote_swap_effect(s: V2StateModel, input: Seq<u8>, output: Seq<u8>, amount_in: u128, fee_bps: u32)
    requires
        v2_quote_error(s, input, output, amount_in, fee_bps) is None,
    ensures
        ({
            let d = v2_direction(s, input, output)->0;
            let out = v2_amount_out(v2_reserve_in(s, d), v2_reserve_out(s, d), amount_in as nat, fee_bps as nat);
            let t = v2_after_swap(s, d, amount_in as nat, out);
            let forward = input == s.token0.address && output == s.token1.address;
            let rin: nat = if forward { s.reserve0 as nat } else { s.reserve1 as nat };
            let rout: nat = if forward { s.reserve1 as nat } else { s.reserve0 as nat };
            let w = amount_in * (10000 - fee_bps);
            &&& forward || (input == s.token1.address && output == s.token0.address)
            &&& out * (rin * 10000 + w) <= w * rout < (out + 1) * (rin * 10000 + w)
            &&& 0 < out < rout
            &&& forward ==> t.reserve0 == s.reserve0 + amount_in && t.reserve1 == s.reserve1 - out
            &&& !forward ==> t.reserve1 == s.reserve1 + amount_in && t.reserve0 == s.reserve0 - out
            &&& t.id == s.id && t.token0 == s.token0 && t.token1 == s.token1
        }),
{
    let d = v2_direction(s, input, output)->0;
    lemma_v2_amount_out_constant_product(v2_reserve_in(s, d), v2_reserve_out(s, d), amount_in as nat, fee_bps as nat);
}

} // verus!
