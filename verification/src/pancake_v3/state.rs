//! The state of a PancakeSwap V3 pool: price, liquidity, ticks and reserves.
use vstd::prelude::*;
use vstd::string::*;

use crate::assoc::AssocList;
use crate::event::EventEnvelope;
use crate::num::{pow128, pow256, u256_add, u256_sub, I256, U256};
use crate::pancake_v2::state::{max_u128, normalized_id};
use crate::pancake_v3::event::{v3_parse_result, v3_ticks_fit, PancakeV3Event, PancakeV3EventError};
use crate::state::{PoolSnapshot, Reserves, SnapshotExtra, StateError};
use crate::types::{
    pool_type_label_spec, Asset, AssetModel, ChainNamespace, PoolIdModel, PoolIdentifier,
    PoolType,
};

verus! {

/// Liquidity recorded at one tick.
#[derive(Clone, Copy, Debug)]
pub struct TickInfo {
    pub liquidity_net: U256,
    pub liquidity_gross: U256,
}

/// The abstract value of a tick's record.
pub struct TickModel {
    pub net: nat,
    pub gross: nat,
}

impl View for TickInfo {
    type V = TickModel;

    open spec fn view(&self) -> TickModel {
        TickModel { net: self.liquidity_net@, gross: self.liquidity_gross@ }
    }
}

/// The ticks' records as abstract values.
pub open spec fn tick_models(m: Map<i32, TickInfo>) -> Map<i32, TickModel> {
    m.map_values(|t: TickInfo| t@)
}

/// The V3-specific part of a snapshot.
#[derive(Debug)]
pub struct PancakeV3Snapshot {
    pub token0: Asset,
    pub token1: Asset,
    pub sqrt_price_x96: U256,
    pub liquidity: U256,
    pub tick: i32,
    pub ticks: AssocList<i32, TickInfo>,
    pub fees_token0: U256,
    pub fees_token1: U256,
}

/// The abstract value of the V3-specific part of a snapshot.
pub struct V3ExtraModel {
    pub token0: AssetModel,
    pub token1: AssetModel,
    pub sqrt_price_x96: nat,
    pub liquidity: nat,
    pub tick: i32,
    pub ticks: Map<i32, TickModel>,
    pub fees_token0: nat,
    pub fees_token1: nat,
}

impl View for PancakeV3Snapshot {
    type V = V3ExtraModel;

    open spec fn view(&self) -> V3ExtraModel {
        V3ExtraModel {
            token0: self.token0@,
            token1: self.token1@,
            sqrt_price_x96: self.sqrt_price_x96@,
            liquidity: self.liquidity@,
            tick: self.tick,
            ticks: tick_models(self.ticks.map()),
            fees_token0: self.fees_token0@,
            fees_token1: self.fees_token1@,
        }
    }
}

impl PancakeV3Snapshot {
    pub open spec fn wf(&self) -> bool {
        self.ticks.wf()
    }
}

impl Clone for PancakeV3Snapshot {
    fn clone(&self) -> (r: PancakeV3Snapshot)
        ensures
            r@ == self@,
            self.wf() ==> r.wf(),
    {
        PancakeV3Snapshot {
            token0: self.token0.clone(),
            token1: self.token1.clone(),
            sqrt_price_x96: self.sqrt_price_x96,
            liquidity: self.liquidity,
            tick: self.tick,
            ticks: self.ticks.duplicate(),
            fees_token0: self.fees_token0,
            fees_token1: self.fees_token1,
        }
    }
}

} // verus!

verus! {

/// The abstract value of a V3 pool state.
pub struct V3StateModel {
    pub id: PoolIdModel,
    pub token0: AssetModel,
    pub token1: AssetModel,
    pub sqrt_price_x96: nat,
    pub liquidity: nat,
    pub tick: i32,
    pub reserves: Map<AssetModel, u128>,
    pub ticks: Map<i32, TickModel>,
    pub fees_token0: nat,
    pub fees_token1: nat,
}

/// A PancakeSwap V3 pool.
#[derive(Debug)]
pub struct PancakeV3PoolState {
    pub id: PoolIdentifier,
    pub token0: Asset,
    pub token1: Asset,
    pub sqrt_price_x96: U256,
    pub liquidity: U256,
    pub tick: i32,
    pub reserves: Reserves,
    pub ticks: AssocList<i32, TickInfo>,
    pub fees_token0: U256,
    pub fees_token1: U256,
}

impl View for PancakeV3PoolState {
    type V = V3StateModel;

    open spec fn view(&self) -> V3StateModel {
        V3StateModel {
            id: self.id@,
            token0: self.token0@,
            token1: self.token1@,
            sqrt_price_x96: self.sqrt_price_x96@,
            liquidity: self.liquidity@,
            tick: self.tick,
            reserves: self.reserves@,
            ticks: tick_models(self.ticks.map()),
            fees_token0: self.fees_token0@,
            fees_token1: self.fees_token1@,
        }
    }
}

pub open spec fn zero_tick() -> TickModel {
    TickModel { net: 0, gross: 0 }
}

pub open spec fn tick_or_zero(ticks: Map<i32, TickModel>, t: i32) -> TickModel {
    if ticks.contains_key(t) {
        ticks[t]
    } else {
        zero_tick()
    }
}

pub open spec fn sat_sub(a: nat, b: nat) -> nat {
    if a >= b {
        (a - b) as nat
    } else {
        0
    }
}

/// A mint's record at one tick: the gross liquidity grows; the net grows at
/// the lower tick and shrinks (saturating) at the upper one. An absent tick
/// starts from zero.
pub open spec fn mint_tick(ticks: Map<i32, TickModel>, t: i32, l: nat, lower: bool) -> Map<i32, TickModel> {
    let cur = tick_or_zero(ticks, t);
    ticks.insert(
        t,
        TickModel {
            net: if lower {
                cur.net + l
            } else {
                sat_sub(cur.net, l)
            },
            gross: cur.gross + l,
        },
    )
}

/// The mint's additions at a tick fit in 256 bits.
pub open spec fn mint_tick_fits(ticks: Map<i32, TickModel>, t: i32, l: nat, lower: bool) -> bool {
    let cur = tick_or_zero(ticks, t);
    cur.gross + l < pow256() && (lower ==> cur.net + l < pow256())
}

/// A burn's record at one tick, where the tick is recorded: the gross
/// liquidity shrinks (saturating); the net shrinks at the lower tick and
/// grows at the upper one.
pub open spec fn burn_tick(ticks: Map<i32, TickModel>, t: i32, l: nat, lower: bool) -> Map<i32, TickModel> {
    if ticks.contains_key(t) {
        ticks.insert(
            t,
            TickModel {
                net: if lower {
                    sat_sub(ticks[t].net, l)
                } else {
                    ticks[t].net + l
                },
                gross: sat_sub(ticks[t].gross, l),
            },
        )
    } else {
        ticks
    }
}

pub open spec fn burn_tick_fits(ticks: Map<i32, TickModel>, t: i32, l: nat, lower: bool) -> bool {
    ticks.contains_key(t) && !lower ==> ticks[t].net + l < pow256()
}

/// Adds to an asset's reserve, saturating, where the asset has one.
pub open spec fn add_reserve_spec(m: Map<AssetModel, u128>, a: AssetModel, d: nat) -> Map<AssetModel, u128> {
    if m.contains_key(a) {
        m.insert(
            a,
            if m[a] + d > max_u128() {
                max_u128() as u128
            } else {
                (m[a] + d) as u128
            },
        )
    } else {
        m
    }
}

/// Takes from an asset's reserve, where the asset has one; `None` when the
/// reserve is too small.
pub open spec fn sub_reserve_spec(m: Map<AssetModel, u128>, a: AssetModel, d: nat) -> Option<Map<AssetModel, u128>> {
    if m.contains_key(a) {
        if m[a] < d {
            None
        } else {
            Some(m.insert(a, (m[a] - d) as u128))
        }
    } else {
        Some(m)
    }
}

/// Takes two amounts from the two tokens' reserves: the reserves after it
/// and whether it succeeded. Amounts beyond 128 bits fail before any change;
/// a failure on token 1 keeps the change to token 0.
pub open spec fn sub_reserves(s: V3StateModel, a0: nat, a1: nat) -> (Map<AssetModel, u128>, bool) {
    if a0 > max_u128() || a1 > max_u128() {
        (s.reserves, false)
    } else {
        match sub_reserve_spec(s.reserves, s.token0, a0) {
            None => (s.reserves, false),
            Some(m1) => match sub_reserve_spec(m1, s.token1, a1) {
                None => (m1, false),
                Some(m2) => (m2, true),
            },
        }
    }
}

/// Moves one token's reserve by a signed amount: a negative amount is taken
/// out (refused when the reserve is short), a positive one added
/// (saturating); amounts beyond 128 bits are refused. A token without a
/// reserve is left alone.
pub open spec fn adjust_reserve_spec(m: Map<AssetModel, u128>, a: AssetModel, amount: int) -> Option<Map<AssetModel, u128>> {
    if !m.contains_key(a) {
        Some(m)
    } else if amount < 0 {
        if -amount > max_u128() || m[a] < -amount {
            None
        } else {
            Some(m.insert(a, (m[a] + amount) as u128))
        }
    } else if amount > max_u128() {
        None
    } else {
        Some(add_reserve_spec(m, a, amount as nat))
    }
}

pub open spec fn with_reserves3(s: V3StateModel, reserves: Map<AssetModel, u128>) -> V3StateModel {
    V3StateModel { reserves, ..s }
}

/// The effect of a V3 event on a pool: the state after it and whether it
/// succeeded. Initialize sets price and tick; mint adds liquidity, records
/// the ticks and adds the amounts to the reserves; burn does the reverse
/// (refused when the pool lacks the liquidity); swap moves the reserves by
/// the signed amounts and takes the pool's new price, liquidity and tick;
/// collect takes the amounts out of the reserves and counts them as fees,
/// and where the reserves are short it keeps what it changed and ends well.
/// Liquidity and ticks are updated before the amounts are checked.
pub open spec fn v3_update(s: V3StateModel, e: PancakeV3Event) -> (V3StateModel, bool) {
    match e {
        PancakeV3Event::Initialize { sqrt_price_x96, tick } => (
            V3StateModel { sqrt_price_x96: sqrt_price_x96@, tick, ..s },
            true,
        ),
        PancakeV3Event::Mint { tick_lower, tick_upper, liquidity, amount0, amount1, .. } => {
            let ticks = mint_tick(
                mint_tick(s.ticks, tick_lower, liquidity@, true),
                tick_upper,
                liquidity@,
                false,
            );
            let s2 = V3StateModel { liquidity: s.liquidity + liquidity@, ticks, ..s };
            if amount0@ > max_u128() || amount1@ > max_u128() {
                (s2, false)
            } else {
                (
                    with_reserves3(
                        s2,
                        add_reserve_spec(
                            add_reserve_spec(s.reserves, s.token0, amount0@),
                            s.token1,
                            amount1@,
                        ),
                    ),
                    true,
                )
            }
        },
        PancakeV3Event::Burn { tick_lower, tick_upper, liquidity, amount0, amount1, .. } => {
            if s.liquidity < liquidity@ {
                (s, false)
            } else {
                let ticks = burn_tick(
                    burn_tick(s.ticks, tick_lower, liquidity@, true),
                    tick_upper,
                    liquidity@,
                    false,
                );
                let s2 = V3StateModel { liquidity: (s.liquidity - liquidity@) as nat, ticks, ..s };
                let (m, ok) = sub_reserves(s2, amount0@, amount1@);
                (with_reserves3(s2, m), ok)
            }
        },
        PancakeV3Event::Swap { amount0, amount1, sqrt_price_x96, liquidity, tick, .. } => {
            match adjust_reserve_spec(s.reserves, s.token0, amount0@) {
                None => (s, false),
                Some(m1) => match adjust_reserve_spec(m1, s.token1, amount1@) {
                    None => (with_reserves3(s, m1), false),
                    Some(m2) => (
                        V3StateModel {
                            reserves: m2,
                            sqrt_price_x96: sqrt_price_x96@,
                            liquidity: liquidity@,
                            tick,
                            ..s
                        },
                        true,
                    ),
                },
            }
        },
        PancakeV3Event::Collect { amount0, amount1, .. } => {
            let (m, ok) = sub_reserves(s, amount0@, amount1@);
            if ok {
                (
                    V3StateModel {
                        reserves: m,
                        fees_token0: s.fees_token0 + amount0@,
                        fees_token1: s.fees_token1 + amount1@,
                        ..s
                    },
                    true,
                )
            } else {
                (with_reserves3(s, m), true)
            }
        },
        PancakeV3Event::Unknown => (s, true),
    }
}

/// The 256-bit additions that a V3 event makes fit (the `ethers`
/// arithmetic would panic otherwise).
pub open spec fn v3_update_fits(s: V3StateModel, e: PancakeV3Event) -> bool {
    match e {
        PancakeV3Event::Mint { tick_lower, tick_upper, liquidity, .. } => {
            &&& s.liquidity + liquidity@ < pow256()
            &&& mint_tick_fits(s.ticks, tick_lower, liquidity@, true)
            &&& mint_tick_fits(
                mint_tick(s.ticks, tick_lower, liquidity@, true),
                tick_upper,
                liquidity@,
                false,
            )
        },
        PancakeV3Event::Burn { tick_lower, tick_upper, liquidity, .. } => {
            s.liquidity >= liquidity@ ==> burn_tick_fits(
                burn_tick(s.ticks, tick_lower, liquidity@, true),
                tick_upper,
                liquidity@,
                false,
            )
        },
        PancakeV3Event::Collect { amount0, amount1, .. } => {
            sub_reserves(s, amount0@, amount1@).1 ==> s.fees_token0 + amount0@ < pow256()
                && s.fees_token1 + amount1@ < pow256()
        },
        _ => true,
    }
}


/// A reserve moved by a signed amount: taken out when negative, added and
/// capped at the 128-bit maximum when positive.
pub open spec fn moved_reserve(r: u128, d: int) -> int {
    if d < 0 {
        r + d
    } else if r + d > max_u128() {
        max_u128() as int
    } else {
        r + d
    }
}

/// A signed amount can be applied to a token's reserve: a token without a
/// reserve takes anything; otherwise an outflow must be covered by the
/// reserve and an inflow must fit in 128 bits.
pub open spec fn move_allowed(m: Map<AssetModel, u128>, a: AssetModel, d: int) -> bool {
    m.contains_key(a) ==> if d < 0 {
        -d <= m[a]
    } else {
        d <= max_u128()
    }
}

/// A swap of a pool with two different tokens succeeds exactly when both
/// signed amounts can be applied to the reserves. Then the pool takes the
/// event's sqrt price, liquidity and tick, each token's reserve is moved by
/// its amount, and identity, tokens, ticks and fees stay; otherwise price,
/// liquidity and tick stay as they were.
pub proof fn lemma_v3_swap_applied(s: V3StateModel, e: PancakeV3Event)
    requires
        e matches PancakeV3Event::Swap { .. },
        s.token0 != s.token1,
    ensures
        e matches PancakeV3Event::Swap { amount0, amount1, sqrt_price_x96, liquidity, tick, .. } ==> {
            let (t, ok) = v3_update(s, e);
            &&& ok == (move_allowed(s.reserves, s.token0, amount0@) && move_allowed(
                s.reserves,
                s.token1,
                amount1@,
            ))
            &&& ok ==> {
                &&& t.sqrt_price_x96 == sqrt_price_x96@
                &&& t.liquidity == liquidity@
                &&& t.tick == tick
                &&& t.id == s.id && t.token0 == s.token0 && t.token1 == s.token1
                &&& t.ticks == s.ticks
                &&& t.fees_token0 == s.fees_token0 && t.fees_token1 == s.fees_token1
                &&& s.reserves.contains_key(s.token0) ==> t.reserves.contains_key(s.token0)
                    && t.reserves[s.token0] == moved_reserve(s.reserves[s.token0], amount0@)
                &&& s.reserves.contains_key(s.token1) ==> t.reserves.contains_key(s.token1)
                    && t.reserves[s.token1] == moved_reserve(s.reserves[s.token1], amount1@)
            }
            &&& !ok ==> t.sqrt_price_x96 == s.sqrt_price_x96 && t.liquidity == s.liquidity && t.tick
                == s.tick
        },
{
}

/// Initializing sets the sqrt price and the tick and keeps liquidity,
/// reserves, ticks and fees.
pub proof fn lemma_v3_initialize_applied(s: V3StateModel, e: PancakeV3Event)
    requires
        e matches PancakeV3Event::Initialize { .. },
    ensures
        e matches PancakeV3Event::Initialize { sqrt_price_x96, tick } ==> {
            let (t, ok) = v3_update(s, e);
            &&& ok
            &&& t.sqrt_price_x96 == sqrt_price_x96@ && t.tick == tick
            &&& t.liquidity == s.liquidity && t.reserves == s.reserves && t.ticks == s.ticks
            &&& t.fees_token0 == s.fees_token0 && t.fees_token1 == s.fees_token1
        },
{
}

/// A mint adds its liquidity to the pool's and keeps price and tick; it
/// succeeds exactly when both amounts fit in 128 bits.
pub proof fn lemma_v3_mint_applied(s: V3StateModel, e: PancakeV3Event)
    requires
        e matches PancakeV3Event::Mint { .. },
    ensures
        e matches PancakeV3Event::Mint { liquidity, amount0, amount1, .. } ==> {
            let (t, ok) = v3_update(s, e);
            &&& ok == (amount0@ <= max_u128() && amount1@ <= max_u128())
            &&& t.liquidity == s.liquidity + liquidity@
            &&& t.sqrt_price_x96 == s.sqrt_price_x96 && t.tick == s.tick
        },
{
}

/// A burn that the pool's liquidity covers takes its liquidity off the
/// pool's; one it does not cover fails and changes nothing.
pub proof fn lemma_v3_burn_applied(s: V3StateModel, e: PancakeV3Event)
    requires
        e matches PancakeV3Event::Burn { .. },
    ensures
        e matches PancakeV3Event::Burn { liquidity, .. } ==> {
            let (t, ok) = v3_update(s, e);
            &&& s.liquidity < liquidity@ ==> !ok && t == s
            &&& s.liquidity >= liquidity@ ==> t.liquidity == s.liquidity - liquidity@
            &&& t.sqrt_price_x96 == s.sqrt_price_x96 && t.tick == s.tick
        },
{
}

/// A collect whose amounts the reserves cover takes them out of the
/// reserves and adds them to the fees; price, liquidity and tick stay.
pub proof fn lemma_v3_collect_applied(s: V3StateModel, e: PancakeV3Event)
    requires
        e matches PancakeV3Event::Collect { .. },
    ensures
        e matches PancakeV3Event::Collect { amount0, amount1, .. } ==> {
            let (t, ok) = v3_update(s, e);
            &&& ok
            &&& sub_reserves(s, amount0@, amount1@).1 ==> t.fees_token0 == s.fees_token0 + amount0@
                && t.fees_token1 == s.fees_token1 + amount1@
            &&& t.sqrt_price_x96 == s.sqrt_price_x96 && t.liquidity == s.liquidity && t.tick == s.tick
        },
{
}

} // verus!

verus! {

fn u256_to_u128(value: &U256) -> (r: Result<u128, StateError>)
    ensures
        value@ <= max_u128() ==> (r matches Ok(v) && v == value@),
        value@ > max_u128() ==> (r matches Err(StateError::UpdateFailed(_))),
{
    let max = U256::from_u128(u128::MAX);
    if max.lt(value) {
        return Err(StateError::UpdateFailed(String::from_str("数值超过 u128")));
    }
    Ok(value.as_u128())
}

fn i256_to_u128(value: &I256) -> (r: Result<u128, StateError>)
    ensures
        0 <= value@ <= max_u128() ==> (r matches Ok(v) && v == value@),
        !(0 <= value@ <= max_u128()) ==> (r matches Err(StateError::UpdateFailed(_))),
{
    if value.is_negative() {
        return Err(StateError::UpdateFailed(String::from_str("负值无法转换为 u128")));
    }
    u256_to_u128(&value.into_raw())
}

fn add_sat(a: u128, d: u128) -> (r: u128)
    ensures
        r == if a + d > max_u128() {
            max_u128() as u128
        } else {
            (a + d) as u128
        },
{
    a.saturating_add(d)
}

impl PancakeV3PoolState {
    pub open spec fn wf(&self) -> bool {
        self.reserves.wf() && self.ticks.wf()
    }

    /// A new pool without price, liquidity or ticks and with zero reserves;
    /// the identifier is labelled `pancake_v3` in the EVM namespace.
    pub fn new(id: PoolIdentifier, token0: Asset, token1: Asset) -> (r: PancakeV3PoolState)
        ensures
            r.wf(),
            r@ == (V3StateModel {
                id: normalized_id(id@, "pancake_v3"@),
                token0: token0@,
                token1: token1@,
                sqrt_price_x96: 0,
                liquidity: 0,
                tick: 0,
                reserves: Map::<AssetModel, u128>::empty().insert(token0@, 0).insert(token1@, 0),
                ticks: Map::<i32, TickModel>::empty(),
                fees_token0: 0,
                fees_token1: 0,
            }),
    {
        let mut id = id;
        id.dex = PoolType::PancakeV3.label();
        id.chain_namespace = ChainNamespace::Evm;
        let mut reserves = Reserves::new();
        reserves.set(token0.clone(), 0);
        reserves.set(token1.clone(), 0);
        let r = PancakeV3PoolState {
            id,
            token0,
            token1,
            sqrt_price_x96: U256::zero(),
            liquidity: U256::zero(),
            tick: 0,
            reserves,
            ticks: AssocList::new(),
            fees_token0: U256::zero(),
            fees_token1: U256::zero(),
        };
        assert(tick_models(r.ticks.map()) =~= Map::<i32, TickModel>::empty());
        r
    }

    pub fn id(&self) -> (r: &PoolIdentifier)
        ensures
            r@ == self@.id,
    {
        &self.id
    }

    pub fn reserves(&self) -> (r: &Reserves)
        ensures
            r@ == self@.reserves,
    {
        &self.reserves
    }

    pub fn token0(&self) -> (r: &Asset)
        ensures
            r@ == self@.token0,
    {
        &self.token0
    }

    pub fn token1(&self) -> (r: &Asset)
        ensures
            r@ == self@.token1,
    {
        &self.token1
    }

    pub fn sqrt_price_x96(&self) -> (r: U256)
        ensures
            r@ == self@.sqrt_price_x96,
    {
        self.sqrt_price_x96
    }

    pub fn current_tick(&self) -> (r: i32)
        ensures
            r == self@.tick,
    {
        self.tick
    }

    pub fn liquidity(&self) -> (r: U256)
        ensures
            r@ == self@.liquidity,
    {
        self.liquidity
    }

    pub fn set_price_liquidity(&mut self, sqrt_price_x96: U256, liquidity: U256, tick: i32)
        requires
            old(self).wf(),
        ensures
            final(self).wf(),
            final(self)@ == (V3StateModel {
                sqrt_price_x96: sqrt_price_x96@,
                liquidity: liquidity@,
                tick,
                ..old(self)@
            }),
    {
        self.sqrt_price_x96 = sqrt_price_x96;
        self.liquidity = liquidity;
        self.tick = tick;
    }

    /// Sets the reserves of the two tokens.
    pub fn set_reserves(&mut self, amount0: u128, amount1: u128)
        requires
            old(self).wf(),
        ensures
            final(self).wf(),
            final(self)@ == with_reserves3(
                old(self)@,
                old(self)@.reserves.insert(old(self)@.token0, amount0).insert(
                    old(self)@.token1,
                    amount1,
                ),
            ),
    {
        self.reserves.set(self.token0.clone(), amount0);
        self.reserves.set(self.token1.clone(), amount1);
    }

    /// Restores a pool from a snapshot that holds V3 data; the identifier
    /// is labelled by its own pool type.
    pub fn from_snapshot(snapshot: &PoolSnapshot) -> (r: Result<PancakeV3PoolState, StateError>)
        requires
            snapshot.wf(),
        ensures
            match snapshot@.extra {
                crate::state::ExtraModel::PancakeV3(x) => r matches Ok(s) && s.wf() && s@
                    == (V3StateModel {
                    id: normalized_id(snapshot@.id, pool_type_label_spec(snapshot@.id.pool_type)),
                    token0: x.token0,
                    token1: x.token1,
                    sqrt_price_x96: x.sqrt_price_x96,
                    liquidity: x.liquidity,
                    tick: x.tick,
                    reserves: snapshot@.reserves,
                    ticks: x.ticks,
                    fees_token0: x.fees_token0,
                    fees_token1: x.fees_token1,
                }),
                _ => r matches Err(StateError::Serialize(_)),
            },
    {
        let extra = match &snapshot.extra {
            SnapshotExtra::PancakeV3(x) => x.clone(),
            _ => {
                return Err(
                    StateError::Serialize(String::from_str("快照不含 PancakeSwap V3 数据")),
                );
            },
        };
        let mut id = snapshot.id.clone();
        id.dex = id.pool_type.label();
        id.chain_namespace = ChainNamespace::Evm;
        Ok(
            PancakeV3PoolState {
                id,
                token0: extra.token0,
                token1: extra.token1,
                sqrt_price_x96: extra.sqrt_price_x96,
                liquidity: extra.liquidity,
                tick: extra.tick,
                reserves: snapshot.reserves.clone(),
                ticks: extra.ticks,
                fees_token0: extra.fees_token0,
                fees_token1: extra.fees_token1,
            },
        )
    }

    /// The snapshot of this pool.
    pub fn snapshot(&self) -> (r: PoolSnapshot)
        requires
            self.wf(),
        ensures
            r.wf(),
            r@.id == self@.id,
            r@.reserves == self@.reserves,
            r@.extra == crate::state::ExtraModel::PancakeV3(
                V3ExtraModel {
                    token0: self@.token0,
                    token1: self@.token1,
                    sqrt_price_x96: self@.sqrt_price_x96,
                    liquidity: self@.liquidity,
                    tick: self@.tick,
                    ticks: self@.ticks,
                    fees_token0: self@.fees_token0,
                    fees_token1: self@.fees_token1,
                },
            ),
    {
        let extra = PancakeV3Snapshot {
            token0: self.token0.clone(),
            token1: self.token1.clone(),
            sqrt_price_x96: self.sqrt_price_x96,
            liquidity: self.liquidity,
            tick: self.tick,
            ticks: self.ticks.duplicate(),
            fees_token0: self.fees_token0,
            fees_token1: self.fees_token1,
        };
        PoolSnapshot {
            id: self.id.clone(),
            reserves: self.reserves.clone(),
            extra: SnapshotExtra::PancakeV3(extra),
        }
    }

    fn update_tick(&mut self, tick: i32, liquidity: U256, is_lower: bool)
        requires
            old(self).wf(),
            mint_tick_fits(old(self)@.ticks, tick, liquidity@, is_lower),
        ensures
            final(self).wf(),
            final(self)@ == (V3StateModel {
                ticks: mint_tick(old(self)@.ticks, tick, liquidity@, is_lower),
                ..old(self)@
            }),
    {
        let cur = match self.ticks.get(&tick) {
            Some(t) => *t,
            None => TickInfo { liquidity_net: U256::zero(), liquidity_gross: U256::zero() },
        };
        let gross = u256_add(cur.liquidity_gross, liquidity);
        let net = if is_lower {
            u256_add(cur.liquidity_net, liquidity)
        } else {
            cur.liquidity_net.saturating_sub(&liquidity)
        };
        let info = TickInfo { liquidity_net: net, liquidity_gross: gross };
        self.ticks.insert(tick, info);
        assert(tick_models(self.ticks.map()) =~= mint_tick(old(self)@.ticks, tick, liquidity@, is_lower));
    }

    fn update_tick_burn(&mut self, tick: i32, liquidity: U256, is_lower: bool)
        requires
            old(self).wf(),
            burn_tick_fits(old(self)@.ticks, tick, liquidity@, is_lower),
        ensures
            final(self).wf(),
            final(self)@ == (V3StateModel {
                ticks: burn_tick(old(self)@.ticks, tick, liquidity@, is_lower),
                ..old(self)@
            }),
    {
        match self.ticks.get(&tick) {
            Some(t) => {
                let cur = *t;
                let gross = cur.liquidity_gross.saturating_sub(&liquidity);
                let net = if is_lower {
                    cur.liquidity_net.saturating_sub(&liquidity)
                } else {
                    u256_add(cur.liquidity_net, liquidity)
                };
                self.ticks.insert(tick, TickInfo { liquidity_net: net, liquidity_gross: gross });
                assert(tick_models(self.ticks.map()) =~= burn_tick(
                    old(self)@.ticks,
                    tick,
                    liquidity@,
                    is_lower,
                ));
            },
            None => {},
        }
    }

    fn add_reserve(&mut self, amount0: U256, amount1: U256) -> (r: Result<(), StateError>)
        requires
            old(self).wf(),
        ensures
            final(self).wf(),
            amount0@ > max_u128() || amount1@ > max_u128() ==> (r matches Err(
                StateError::UpdateFailed(_),
            )) && final(self)@ == old(self)@,
            !(amount0@ > max_u128() || amount1@ > max_u128()) ==> r is Ok && final(self)@
                == with_reserves3(
                old(self)@,
                add_reserve_spec(
                    add_reserve_spec(old(self)@.reserves, old(self)@.token0, amount0@),
                    old(self)@.token1,
                    amount1@,
                ),
            ),
    {
        let delta0 = u256_to_u128(&amount0)?;
        let delta1 = u256_to_u128(&amount1)?;
        let token0 = self.token0.clone();
        match self.reserves.get(&token0) {
            Some(v) => {
                let nv = add_sat(*v, delta0);
                self.reserves.set(token0, nv);
            },
            None => {},
        }
        let token1 = self.token1.clone();
        match self.reserves.get(&token1) {
            Some(v) => {
                let nv = add_sat(*v, delta1);
                self.reserves.set(token1, nv);
            },
            None => {},
        }
        Ok(())
    }

    fn sub_reserve(&mut self, amount0: U256, amount1: U256) -> (r: Result<(), StateError>)
        requires
            old(self).wf(),
        ensures
            final(self).wf(),
            (final(self)@.reserves, r is Ok) == sub_reserves(old(self)@, amount0@, amount1@),
            final(self)@ == with_reserves3(old(self)@, final(self)@.reserves),
            r is Err ==> (r matches Err(StateError::UpdateFailed(_))),
    {
        let delta0 = u256_to_u128(&amount0)?;
        let delta1 = u256_to_u128(&amount1)?;
        let token0 = self.token0.clone();
        match self.reserves.get(&token0) {
            Some(v) => {
                let nv = match v.checked_sub(delta0) {
                    Some(x) => x,
                    None => return Err(StateError::UpdateFailed(String::from_str("token0 储备不足"))),
                };
                self.reserves.set(token0, nv);
            },
            None => {},
        }
        let token1 = self.token1.clone();
        match self.reserves.get(&token1) {
            Some(v) => {
                let nv = match v.checked_sub(delta1) {
                    Some(x) => x,
                    None => return Err(StateError::UpdateFailed(String::from_str("token1 储备不足"))),
                };
                self.reserves.set(token1, nv);
            },
            None => {},
        }
        Ok(())
    }

    fn adjust_one(&mut self, token: Asset, amount: I256) -> (r: Result<(), StateError>)
        requires
            old(self).wf(),
        ensures
            final(self).wf(),
            match adjust_reserve_spec(old(self)@.reserves, token@, amount@) {
                None => (r matches Err(StateError::UpdateFailed(_))) && final(self)@ == old(self)@,
                Some(m) => r is Ok && final(self)@ == with_reserves3(old(self)@, m),
            },
    {
        match self.reserves.get(&token) {
            Some(v) => {
                let cur = *v;
                let nv = if amount.is_negative() {
                    let delta = u256_to_u128(&crate::num::i256_unsigned_abs(amount))?;
                    match cur.checked_sub(delta) {
                        Some(x) => x,
                        None => return Err(StateError::UpdateFailed(String::from_str("储备不足"))),
                    }
                } else {
                    add_sat(cur, i256_to_u128(&amount)?)
                };
                self.reserves.set(token, nv);
                Ok(())
            },
            None => Ok(()),
        }
    }

    fn adjust_reserve_signed(&mut self, amount0: I256, amount1: I256) -> (r: Result<(), StateError>)
        requires
            old(self).wf(),
        ensures
            final(self).wf(),
            match adjust_reserve_spec(old(self)@.reserves, old(self)@.token0, amount0@) {
                None => (r matches Err(StateError::UpdateFailed(_))) && final(self)@ == old(self)@,
                Some(m1) => match adjust_reserve_spec(m1, old(self)@.token1, amount1@) {
                    None => (r matches Err(StateError::UpdateFailed(_))) && final(self)@
                        == with_reserves3(old(self)@, m1),
                    Some(m2) => r is Ok && final(self)@ == with_reserves3(old(self)@, m2),
                },
            },
    {
        let token0 = self.token0.clone();
        self.adjust_one(token0, amount0)?;
        let token1 = self.token1.clone();
        self.adjust_one(token1, amount1)
    }

    /// The record of a tick, zero where none is kept.
    fn tick_record(&self, t: i32) -> (r: TickInfo)
        requires
            self.wf(),
        ensures
            r@ == tick_or_zero(self@.ticks, t),
    {
        match self.ticks.get(&t) {
            Some(x) => *x,
            None => TickInfo { liquidity_net: U256::zero(), liquidity_gross: U256::zero() },
        }
    }

    /// Whether a collect of these amounts would find the reserves enough.
    fn collect_succeeds(&self, amount0: &U256, amount1: &U256) -> (r: bool)
        requires
            self.wf(),
        ensures
            r == sub_reserves(self@, amount0@, amount1@).1,
    {
        let limit = U256::from_u128(u128::MAX);
        if limit.lt(amount0) || limit.lt(amount1) {
            return false;
        }
        let d0 = amount0.as_u128();
        let d1 = amount1.as_u128();
        let r0: Option<u128> = match self.reserves.get(&self.token0) {
            Some(v) => Some(*v),
            None => None,
        };
        match r0 {
            Some(v) => {
                if v < d0 {
                    return false;
                }
            },
            None => {},
        }
        let r1: Option<u128> = if self.token1.same(&self.token0) {
            match r0 {
                Some(v) => Some(v - d0),
                None => None,
            }
        } else {
            match self.reserves.get(&self.token1) {
                Some(v) => Some(*v),
                None => None,
            }
        };
        match r1 {
            Some(v) => v >= d1,
            None => true,
        }
    }

    /// Whether the 256-bit additions that `event` makes fit; see
    /// `v3_update_fits`.
    pub fn update_fits(&self, event: &PancakeV3Event) -> (r: bool)
        requires
            self.wf(),
        ensures
            r == v3_update_fits(self@, *event),
    {
        match event {
            PancakeV3Event::Mint { tick_lower, tick_upper, liquidity, .. } => {
                if !self.liquidity.add_fits(liquidity) {
                    return false;
                }
                let lo = self.tick_record(*tick_lower);
                if !lo.liquidity_gross.add_fits(liquidity) || !lo.liquidity_net.add_fits(liquidity) {
                    return false;
                }
                let up_gross = if *tick_upper == *tick_lower {
                    u256_add(lo.liquidity_gross, *liquidity)
                } else {
                    self.tick_record(*tick_upper).liquidity_gross
                };
                up_gross.add_fits(liquidity)
            },
            PancakeV3Event::Burn { tick_lower, tick_upper, liquidity, .. } => {
                if self.liquidity.lt(liquidity) {
                    return true;
                }
                if *tick_upper == *tick_lower {
                    return true;
                }
                match self.ticks.get(tick_upper) {
                    Some(t) => t.liquidity_net.add_fits(liquidity),
                    None => true,
                }
            },
            PancakeV3Event::Collect { amount0, amount1, .. } => {
                if !self.collect_succeeds(amount0, amount1) {
                    return true;
                }
                self.fees_token0.add_fits(amount0) && self.fees_token1.add_fits(amount1)
            },
            _ => true,
        }
    }

    /// Applies a V3 event to the pool.
    pub fn update_from_event(&mut self, event: &PancakeV3Event) -> (r: Result<(), StateError>)
        requires
            old(self).wf(),
            v3_update_fits(old(self)@, *event),
        ensures
            final(self).wf(),
            (final(self)@, r is Ok) == v3_update(old(self)@, *event),
            r is Err ==> (r matches Err(StateError::UpdateFailed(_))),
    {
        match event {
            PancakeV3Event::Initialize { sqrt_price_x96, tick } => {
                self.sqrt_price_x96 = *sqrt_price_x96;
                self.tick = *tick;
                Ok(())
            },
            PancakeV3Event::Mint { liquidity, amount0, amount1, tick_lower, tick_upper, .. } => {
                self.liquidity = u256_add(self.liquidity, *liquidity);
                self.update_tick(*tick_lower, *liquidity, true);
                self.update_tick(*tick_upper, *liquidity, false);
                self.add_reserve(*amount0, *amount1)?;
                Ok(())
            },
            PancakeV3Event::Burn { liquidity, amount0, amount1, tick_lower, tick_upper, .. } => {
                if self.liquidity.lt(liquidity) {
                    return Err(StateError::UpdateFailed(String::from_str("流动性不足")));
                }
                self.liquidity = u256_sub(self.liquidity, *liquidity);
                self.update_tick_burn(*tick_lower, *liquidity, true);
                self.update_tick_burn(*tick_upper, *liquidity, false);
                self.sub_reserve(*amount0, *amount1)?;
                Ok(())
            },
            PancakeV3Event::Swap { amount0, amount1, sqrt_price_x96, liquidity, tick, .. } => {
                self.adjust_reserve_signed(*amount0, *amount1)?;
                self.sqrt_price_x96 = *sqrt_price_x96;
                self.liquidity = *liquidity;
                self.tick = *tick;
                Ok(())
            },
            PancakeV3Event::Collect { amount0, amount1, .. } => {
                match self.sub_reserve(*amount0, *amount1) {
                    Err(_) => {},
                    Ok(()) => {
                        self.fees_token0 = u256_add(self.fees_token0, *amount0);
                        self.fees_token1 = u256_add(self.fees_token1, *amount1);
                    },
                }
                Ok(())
            },
            PancakeV3Event::Unknown => Ok(()),
        }
    }

    /// Reads a log as a V3 event and applies it; unreadable logs are refused.
    pub fn apply_event(&mut self, event: &EventEnvelope) -> (r: Result<(), StateError>)
        requires
            old(self).wf(),
            v3_ticks_fit(event@),
            forall|parsed: Result<PancakeV3Event, PancakeV3EventError>|
                #[trigger] v3_parse_result(event@, parsed) ==> (parsed matches Ok(e)
                    ==> v3_update_fits(old(self)@, e)),
        ensures
            final(self).wf(),
            forall|parsed: Result<PancakeV3Event, PancakeV3EventError>|
                #[trigger] v3_parse_result(event@, parsed) ==> match parsed {
                    Ok(e) => (final(self)@, r is Ok) == v3_update(old(self)@, e),
                    Err(_) => (r matches Err(StateError::UpdateFailed(_))) && final(self)@ == old(
                        self,
                    )@,
                },
    {
        match PancakeV3Event::try_from(event) {
            Ok(parsed) => self.update_from_event(&parsed),
            Err(PancakeV3EventError::MissingTopics) => Err(
                StateError::UpdateFailed(String::from_str("缺少事件主题(topic)")),
            ),
            Err(PancakeV3EventError::Decode(m)) => Err(
                StateError::UpdateFailed(String::from_str("事件数据解析失败: ").concat(m.as_str())),
            ),
        }
    }
}

} // verus!

verus! {

/// A pool priced by a square-root price over concentrated liquidity.
pub trait ConcentratedLiquidityPoolState {
    /// The square root of the price, as a Q64.96 number.
    fn sqrt_price_x96(&self) -> U256;

    /// The current tick.
    fn current_tick(&self) -> i32;

    /// The liquidity in range.
    fn liquidity(&self) -> U256;
}

impl ConcentratedLiquidityPoolState for PancakeV3PoolState {
    fn sqrt_price_x96(&self) -> (r: U256)
        ensures
            r@ == self@.sqrt_price_x96,
    {
        self.sqrt_price_x96
    }

    fn current_tick(&self) -> (r: i32)
        ensures
            r == self@.tick,
    {
        self.tick
    }

    fn liquidity(&self) -> (r: U256)
        ensures
            r@ == self@.liquidity,
    {
        self.liquidity
    }
}

/// An initialize sets the pool's price and tick and changes nothing else.
pub proof fn lemma_initialize_sets_price(s: V3StateModel, sqrt_price_x96: U256, tick: i32)
    ensures
        v3_update(s, PancakeV3Event::Initialize { sqrt_price_x96, tick })
            == (V3StateModel { sqrt_price_x96: sqrt_price_x96@, tick, ..s }, true),
{
}

/// Adding to the two reserves does not saturate.
pub open spec fn mint_fits_reserves(s: V3StateModel, amount0: nat, amount1: nat) -> bool {
    let m1 = add_reserve_spec(s.reserves, s.token0, amount0);
    &&& s.reserves.contains_key(s.token0) ==> s.reserves[s.token0] + amount0 <= max_u128()
    &&& m1.contains_key(s.token1) ==> m1[s.token1] + amount1 <= max_u128()
}

/// A mint that succeeds without saturating the reserves, followed by a burn
/// of the same position, gives the pool back its liquidity and reserves,
/// and the burn succeeds.
pub proof fn lemma_mint_then_burn(
    s: V3StateModel,
    sender: crate::types::Address,
    owner: crate::types::Address,
    tick_lower: i32,
    tick_upper: i32,
    liquidity: U256,
    amount0: U256,
    amount1: U256,
)
    requires
        v3_update(
            s,
            PancakeV3Event::Mint { sender, owner, tick_lower, tick_upper, liquidity, amount0, amount1 },
        ).1,
        mint_fits_reserves(s, amount0@, amount1@),
    ensures
        ({
            let minted = v3_update(
                s,
                PancakeV3Event::Mint { sender, owner, tick_lower, tick_upper, liquidity, amount0, amount1 },
            ).0;
            let burned = v3_update(
                minted,
                PancakeV3Event::Burn { owner, tick_lower, tick_upper, liquidity, amount0, amount1 },
            );
            &&& burned.1
            &&& burned.0.liquidity == s.liquidity
            &&& burned.0.reserves == s.reserves
            &&& burned.0.token0 == s.token0
            &&& burned.0.token1 == s.token1
        }),
{
    let m = s.reserves;
    let a0 = amount0@;
    let a1 = amount1@;
    let m1 = add_reserve_spec(m, s.token0, a0);
    let m2 = add_reserve_spec(m1, s.token1, a1);
    let minted = v3_update(
        s,
        PancakeV3Event::Mint { sender, owner, tick_lower, tick_upper, liquidity, amount0, amount1 },
    ).0;
    assert(minted.reserves == m2);
    let burned = v3_update(
        minted,
        PancakeV3Event::Burn { owner, tick_lower, tick_upper, liquidity, amount0, amount1 },
    );
    let s2 = V3StateModel {
        liquidity: (minted.liquidity - liquidity@) as nat,
        ticks: burn_tick(
            burn_tick(minted.ticks, tick_lower, liquidity@, true),
            tick_upper,
            liquidity@,
            false,
        ),
        ..minted
    };
    let n1 = sub_reserve_spec(m2, s.token0, a0);
    if m.contains_key(s.token0) {
        assert(m2.contains_key(s.token0));
        if s.token1 == s.token0 {
            assert(m2[s.token0] == m[s.token0] + a0 + a1);
        } else {
            assert(m2[s.token0] == m[s.token0] + a0);
        }
    }
    assert(n1 is Some);
    let k1 = n1->0;
    if m.contains_key(s.token1) {
        assert(k1.contains_key(s.token1));
        if s.token1 == s.token0 {
            assert(k1[s.token1] == m[s.token1] + a1);
        } else {
            assert(k1[s.token1] == m[s.token1] + a1);
        }
    }
    let n2 = sub_reserve_spec(k1, s.token1, a1);
    assert(n2 is Some);
    assert(n2->0 =~= m);
    assert(sub_reserves(s2, a0, a1) == (m, true));
}

/// Restoring the snapshot of a pool gives the same pool back, when its
/// identifier is already normalised.
pub proof fn lemma_v3_snapshot_roundtrip(s: V3StateModel)
    requires
        s.id == normalized_id(s.id, pool_type_label_spec(s.id.pool_type)),
    ensures
        crate::pancake_v3::calculator::v3_state_from(
            crate::pancake_v3::calculator::v3_snapshot_model(s),
        ) == Some(s),
{
}

} // verus!
