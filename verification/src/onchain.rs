//! Pool snapshots built from values read off the chain.
//!
//! The reads themselves (reserves, supply, `slot0`, liquidity, balances)
//! are network calls made by the caller; this module turns what they
//! returned into the snapshot of a pool.
use vstd::prelude::*;
use vstd::string::*;

use crate::bootstrap::{V2BootstrapPool, V3BootstrapPool};
use crate::num::{pow128, U256};
use crate::pancake_v2::calculator::v2_snapshot_model;
use crate::pancake_v2::state::{normalized_id, PancakeV2PoolState, V2StateModel};
use crate::pancake_v3::calculator::v3_snapshot_model;
use crate::pancake_v3::state::{PancakeV3PoolState, TickModel, V3StateModel};
use crate::state::{PoolSnapshot, SnapshotModel};
use crate::types::{
    Address, AssetModel, ChainNamespace, ChainNamespaceModel, PoolIdModel, PoolIdentifier,
    PoolType, PoolTypeModel,
};

verus! {

/// Errors of building a snapshot from chain reads.
#[derive(Debug)]
pub enum OnChainSnapshotError {
    Rpc(String),
    State(String),
    Conversion(String),
}

/// The message of an on-chain snapshot error.
pub open spec fn onchain_error_text(e: OnChainSnapshotError) -> Seq<char> {
    match e {
        OnChainSnapshotError::Rpc(m) => "RPC 调用失败: "@ + m@,
        OnChainSnapshotError::State(m) => "状态错误: "@ + m@,
        OnChainSnapshotError::Conversion(m) => "数值转换失败: "@ + m@,
    }
}

impl OnChainSnapshotError {
    /// The error's message.
    pub fn message(&self) -> (r: String)
        ensures
            r@ == onchain_error_text(*self),
    {
        match self {
            OnChainSnapshotError::Rpc(m) => String::from_str("RPC 调用失败: ").concat(m.as_str()),
            OnChainSnapshotError::State(m) => String::from_str("状态错误: ").concat(m.as_str()),
            OnChainSnapshotError::Conversion(m) => String::from_str("数值转换失败: ").concat(
                m.as_str(),
            ),
        }
    }
}

/// The identifier that a fetcher gives a pool: its chain and DEX name, in
/// the EVM namespace.
pub open spec fn fetched_id(
    chain_id: u64,
    dex: Seq<char>,
    address: Seq<u8>,
    pool_type: PoolTypeModel,
) -> PoolIdModel {
    PoolIdModel { chain_namespace: ChainNamespaceModel::Evm, chain_id, dex, address, pool_type }
}

/// The V2 pair state made of what was read: the two reserves and, when it
/// could be read, the LP supply.
pub open spec fn fetched_v2_state(
    id: PoolIdModel,
    token0: AssetModel,
    token1: AssetModel,
    reserve0: u128,
    reserve1: u128,
    total_supply: Option<u128>,
) -> V2StateModel {
    V2StateModel {
        id: normalized_id(id, "pancake_v2"@),
        token0,
        token1,
        reserve0,
        reserve1,
        total_supply,
        reserves: Map::<AssetModel, u128>::empty().insert(token0, reserve0).insert(
            token1,
            reserve1,
        ),
    }
}

/// The V3 pool state made of what was read: price, tick and liquidity from
/// `slot0` and `liquidity`, and the pool's token balances as reserves.
pub open spec fn fetched_v3_state(
    id: PoolIdModel,
    token0: AssetModel,
    token1: AssetModel,
    sqrt_price_x96: nat,
    liquidity: nat,
    tick: i32,
    balance0: u128,
    balance1: u128,
) -> V3StateModel {
    V3StateModel {
        id: normalized_id(id, "pancake_v3"@),
        token0,
        token1,
        sqrt_price_x96,
        liquidity,
        tick,
        reserves: Map::<AssetModel, u128>::empty().insert(token0, balance0).insert(
            token1,
            balance1,
        ),
        ticks: Map::<i32, TickModel>::empty(),
        fees_token0: 0,
        fees_token1: 0,
    }
}

/// A 256-bit value as `u128`, refused when it does not fit.
fn u256_to_u128(value: &U256) -> (r: Result<u128, OnChainSnapshotError>)
    ensures
        value@ < pow128() ==> (r matches Ok(v) && v == value@),
        value@ >= pow128() ==> r matches Err(OnChainSnapshotError::Conversion(_)),
{
    let max = U256::from_u128(u128::MAX);
    if max.lt(value) {
        return Err(OnChainSnapshotError::Conversion(String::from_str("数值超过 u128")));
    }
    Ok(value.as_u128())
}

/// Builds pool snapshots for one chain and DEX.
#[derive(Debug)]
pub struct OnChainStateFetcher {
    pub chain_id: u64,
    pub dex: String,
}

impl OnChainStateFetcher {
    pub fn new(chain_id: u64, dex: String) -> (r: OnChainStateFetcher)
        ensures
            r.chain_id == chain_id,
            r.dex@ == dex@,
    {
        OnChainStateFetcher { chain_id, dex }
    }

    /// The identifier of a pool of this chain and DEX.
    pub fn pool_identifier(&self, address: Address, pool_type: PoolType) -> (r: PoolIdentifier)
        ensures
            r@ == fetched_id(self.chain_id, self.dex@, address@, pool_type@),
    {
        PoolIdentifier {
            chain_namespace: ChainNamespace::Evm,
            chain_id: self.chain_id,
            dex: self.dex.clone(),
            address,
            pool_type,
        }
    }

    /// The snapshot of a V2 pair from its reserves and its LP supply
    /// (`None` where reading the supply failed, which is no error). A
    /// supply beyond `u128` is refused.
    pub fn v2_snapshot_from_reads(
        &self,
        pool: &V2BootstrapPool,
        reserve0: u128,
        reserve1: u128,
        total_supply: Option<U256>,
    ) -> (r: Result<PoolSnapshot, OnChainSnapshotError>)
        ensures
            match total_supply {
                Some(s) if s@ >= pow128() => r matches Err(OnChainSnapshotError::Conversion(_)),
                _ => r matches Ok(snap) && snap.wf() && snap@ == v2_snapshot_model(
                    fetched_v2_state(
                        fetched_id(
                            self.chain_id,
                            self.dex@,
                            pool.pool@,
                            PoolTypeModel::PancakeV2,
                        ),
                        pool.token0@,
                        pool.token1@,
                        reserve0,
                        reserve1,
                        match total_supply {
                            Some(s) => Some(s@ as u128),
                            None => None,
                        },
                    ),
                ),
            },
    {
        let supply = match &total_supply {
            Some(s) => Some(u256_to_u128(s)?),
            None => None,
        };
        let mut state = PancakeV2PoolState::new(
            self.pool_identifier(pool.pool, PoolType::PancakeV2),
            pool.token0.clone(),
            pool.token1.clone(),
        );
        state.set_reserves(reserve0, reserve1);
        state.set_total_supply(supply);
        let ghost expected = fetched_v2_state(
            fetched_id(self.chain_id, self.dex@, pool.pool@, PoolTypeModel::PancakeV2),
            pool.token0@,
            pool.token1@,
            reserve0,
            reserve1,
            supply,
        );
        assert(state@.reserves =~= expected.reserves);
        match state.to_snapshot() {
            Ok(snap) => Ok(snap),
            Err(e) => Err(OnChainSnapshotError::State(e.message())),
        }
    }

    /// The snapshot of a V3 pool from `slot0` (price and tick), its
    /// liquidity and its balances of the two tokens. A balance beyond
    /// `u128` is refused, the first token's before the second's.
    pub fn v3_snapshot_from_reads(
        &self,
        pool: &V3BootstrapPool,
        sqrt_price_x96: U256,
        tick: i32,
        liquidity: u128,
        balance0: U256,
        balance1: U256,
    ) -> (r: Result<PoolSnapshot, OnChainSnapshotError>)
        ensures
            balance0@ >= pow128() || balance1@ >= pow128() ==> r matches Err(
                OnChainSnapshotError::Conversion(_),
            ),
            balance0@ < pow128() && balance1@ < pow128() ==> (r matches Ok(snap) && snap.wf()
                && snap@ == v3_snapshot_model(
                fetched_v3_state(
                    fetched_id(self.chain_id, self.dex@, pool.pool@, PoolTypeModel::PancakeV3),
                    pool.token0@,
                    pool.token1@,
                    sqrt_price_x96@,
                    liquidity as nat,
                    tick,
                    balance0@ as u128,
                    balance1@ as u128,
                ),
            )),
    {
        let mut state = PancakeV3PoolState::new(
            self.pool_identifier(pool.pool, PoolType::PancakeV3),
            pool.token0.clone(),
            pool.token1.clone(),
        );
        state.set_price_liquidity(sqrt_price_x96, U256::from_u128(liquidity), tick);
        let amount0 = u256_to_u128(&balance0)?;
        let amount1 = u256_to_u128(&balance1)?;
        state.set_reserves(amount0, amount1);
        let ghost expected = fetched_v3_state(
            fetched_id(self.chain_id, self.dex@, pool.pool@, PoolTypeModel::PancakeV3),
            pool.token0@,
            pool.token1@,
            sqrt_price_x96@,
            liquidity as nat,
            tick,
            amount0,
            amount1,
        );
        assert(state@.reserves =~= expected.reserves);
        assert(state@ == expected);
        Ok(state.snapshot())
    }
}

} // verus!
