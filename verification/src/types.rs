//! Common value types: addresses, assets, amounts and pool identifiers.
use vstd::prelude::*;
use vstd::string::*;

use crate::num::{u256_exp10, u256_mul, pow256, U256};

verus! {

/// A 20-byte account or contract address.
#[derive(Clone, Copy, Debug, Hash, PartialEq, Eq)]
pub struct Address(pub [u8; 20]);

impl View for Address {
    type V = Seq<u8>;

    open spec fn view(&self) -> Seq<u8> {
        self.0@
    }
}

/// A 32-byte word, such as a log topic or a transaction hash.
#[derive(Clone, Copy, Debug, Hash, PartialEq, Eq)]
pub struct H256(pub [u8; 32]);

impl View for H256 {
    type V = Seq<u8>;

    open spec fn view(&self) -> Seq<u8> {
        self.0@
    }
}

/// Byte-wise comparison of two equally long arrays.
fn bytes_equal<const N: usize>(a: &[u8; N], b: &[u8; N]) -> (r: bool)
    ensures
        r == (a@ == b@),
{
    let mut i: usize = 0;
    while i < N
        invariant
            i <= N,
            a@.len() == N,
            b@.len() == N,
            forall|j: int| 0 <= j < i ==> a@[j] == b@[j],
        decreases N - i,
    {
        if a[i] != b[i] {
            return false;
        }
        i = i + 1;
    }
    assert(a@ =~= b@);
    true
}

impl Address {
    pub fn zero() -> (r: Address)
        ensures
            r@ == Seq::new(20, |i: int| 0u8),
    {
        let r = Address([0u8; 20]);
        assert(r@ =~= Seq::new(20, |i: int| 0u8));
        r
    }

    /// An address whose twenty bytes all equal `byte`.
    pub fn repeat_byte(byte: u8) -> (r: Address)
        ensures
            r@ == Seq::new(20, |i: int| byte),
    {
        let r = Address([byte; 20]);
        assert(r@ =~= Seq::new(20, |i: int| byte));
        r
    }

    pub fn is_zero(&self) -> (r: bool)
        ensures
            r == (self@ == Seq::new(20, |i: int| 0u8)),
    {
        let z = Address::zero();
        self.same(&z)
    }

    pub fn same(&self, other: &Address) -> (r: bool)
        ensures
            r == (self@ == other@),
    {
        let r = bytes_equal(&self.0, &other.0);
        proof {
            if r {
                assert(self@ =~= other@);
            }
        }
        r
    }
}

impl H256 {
    pub fn zero() -> (r: H256)
        ensures
            r@ == Seq::new(32, |i: int| 0u8),
    {
        let r = H256([0u8; 32]);
        assert(r@ =~= Seq::new(32, |i: int| 0u8));
        r
    }

    pub fn same(&self, other: &H256) -> (r: bool)
        ensures
            r == (self@ == other@),
    {
        let r = bytes_equal(&self.0, &other.0);
        proof {
            if r {
                assert(self@ =~= other@);
            }
        }
        r
    }
}

/// The abstract value of an asset.
pub struct AssetModel {
    pub address: Seq<u8>,
    pub symbol: Seq<char>,
    pub decimals: u8,
}

/// An asset: its contract address, symbol and decimals.
#[derive(Debug, Hash, PartialEq, Eq)]
pub struct Asset {
    pub address: Address,
    pub symbol: String,
    pub decimals: u8,
}

impl View for Asset {
    type V = AssetModel;

    open spec fn view(&self) -> AssetModel {
        AssetModel { address: self.address@, symbol: self.symbol@, decimals: self.decimals }
    }
}

impl Asset {
    pub fn same(&self, other: &Asset) -> (r: bool)
        ensures
            r == (self@ == other@),
    {
        let a = self.address.same(&other.address);
        let b = self.symbol == other.symbol;
        let r = a && b && self.decimals == other.decimals;
        proof {
            if r {
                assert(self@.symbol =~= other@.symbol);
            }
        }
        r
    }
}

impl Clone for Asset {
    fn clone(&self) -> (r: Asset)
        ensures
            r@ == self@,
    {
        Asset { address: self.address, symbol: self.symbol.clone(), decimals: self.decimals }
    }
}

/// An amount of tokens in base units.
#[derive(Clone, Copy, Debug, PartialEq, Eq, Structural)]
pub struct Amount(pub u128);

/// The abstract value of a pool type.
pub enum PoolTypeModel {
    PancakeV2,
    PancakeV3,
    PancakeV4,
    UniswapV2,
    UniswapV3,
    Other(Seq<char>),
}

/// The kind of a pool, which selects the pricing rules.
#[derive(Debug, Hash, PartialEq, Eq)]
pub enum PoolType {
    PancakeV2,
    PancakeV3,
    PancakeV4,
    UniswapV2,
    UniswapV3,
    Other(String),
}

impl View for PoolType {
    type V = PoolTypeModel;

    open spec fn view(&self) -> PoolTypeModel {
        match self {
            PoolType::PancakeV2 => PoolTypeModel::PancakeV2,
            PoolType::PancakeV3 => PoolTypeModel::PancakeV3,
            PoolType::PancakeV4 => PoolTypeModel::PancakeV4,
            PoolType::UniswapV2 => PoolTypeModel::UniswapV2,
            PoolType::UniswapV3 => PoolTypeModel::UniswapV3,
            PoolType::Other(name) => PoolTypeModel::Other(name@),
        }
    }
}

/// The versioned label of a pool type; `Other` is labelled by its own name.
pub open spec fn pool_type_label_spec(t: PoolTypeModel) -> Seq<char> {
    match t {
        PoolTypeModel::PancakeV2 => "pancake_v2"@,
        PoolTypeModel::PancakeV3 => "pancake_v3"@,
        PoolTypeModel::PancakeV4 => "pancake_v4"@,
        PoolTypeModel::UniswapV2 => "uniswap_v2"@,
        PoolTypeModel::UniswapV3 => "uniswap_v3"@,
        PoolTypeModel::Other(name) => name,
    }
}

impl PoolType {
    /// The versioned DEX label of this pool type.
    pub fn label(&self) -> (r: String)
        ensures
            r@ == pool_type_label_spec(self@),
    {
        match self {
            PoolType::PancakeV2 => String::from_str("pancake_v2"),
            PoolType::PancakeV3 => String::from_str("pancake_v3"),
            PoolType::PancakeV4 => String::from_str("pancake_v4"),
            PoolType::UniswapV2 => String::from_str("uniswap_v2"),
            PoolType::UniswapV3 => String::from_str("uniswap_v3"),
            PoolType::Other(name) => name.clone(),
        }
    }

    pub fn same(&self, other: &PoolType) -> (r: bool)
        ensures
            r == (self@ == other@),
    {
        match (self, other) {
            (PoolType::PancakeV2, PoolType::PancakeV2) => true,
            (PoolType::PancakeV3, PoolType::PancakeV3) => true,
            (PoolType::PancakeV4, PoolType::PancakeV4) => true,
            (PoolType::UniswapV2, PoolType::UniswapV2) => true,
            (PoolType::UniswapV3, PoolType::UniswapV3) => true,
            (PoolType::Other(a), PoolType::Other(b)) => *a == *b,
            _ => false,
        }
    }
}

impl Clone for PoolType {
    fn clone(&self) -> (r: PoolType)
        ensures
            r@ == self@,
    {
        match self {
            PoolType::PancakeV2 => PoolType::PancakeV2,
            PoolType::PancakeV3 => PoolType::PancakeV3,
            PoolType::PancakeV4 => PoolType::PancakeV4,
            PoolType::UniswapV2 => PoolType::UniswapV2,
            PoolType::UniswapV3 => PoolType::UniswapV3,
            PoolType::Other(name) => PoolType::Other(name.clone()),
        }
    }
}

/// The abstract value of a chain namespace.
pub enum ChainNamespaceModel {
    Evm,
    Solana,
    Other(Seq<char>),
}

/// The family of chains that a pool lives on.
#[derive(Debug, Hash, PartialEq, Eq)]
pub enum ChainNamespace {
    Evm,
    Solana,
    Other(String),
}

impl View for ChainNamespace {
    type V = ChainNamespaceModel;

    open spec fn view(&self) -> ChainNamespaceModel {
        match self {
            ChainNamespace::Evm => ChainNamespaceModel::Evm,
            ChainNamespace::Solana => ChainNamespaceModel::Solana,
            ChainNamespace::Other(name) => ChainNamespaceModel::Other(name@),
        }
    }
}

impl ChainNamespace {
    pub fn same(&self, other: &ChainNamespace) -> (r: bool)
        ensures
            r == (self@ == other@),
    {
        match (self, other) {
            (ChainNamespace::Evm, ChainNamespace::Evm) => true,
            (ChainNamespace::Solana, ChainNamespace::Solana) => true,
            (ChainNamespace::Other(a), ChainNamespace::Other(b)) => *a == *b,
            _ => false,
        }
    }
}

impl Default for ChainNamespace {
    fn default() -> (r: ChainNamespace)
        ensures
            r@ == ChainNamespaceModel::Evm,
    {
        ChainNamespace::Evm
    }
}

impl Clone for ChainNamespace {
    fn clone(&self) -> (r: ChainNamespace)
        ensures
            r@ == self@,
    {
        match self {
            ChainNamespace::Evm => ChainNamespace::Evm,
            ChainNamespace::Solana => ChainNamespace::Solana,
            ChainNamespace::Other(name) => ChainNamespace::Other(name.clone()),
        }
    }
}

/// The abstract value of a pool identifier.
pub struct PoolIdModel {
    pub chain_namespace: ChainNamespaceModel,
    pub chain_id: u64,
    pub dex: Seq<char>,
    pub address: Seq<u8>,
    pub pool_type: PoolTypeModel,
}

/// The identity of a pool: chain, DEX name, contract address and pool type.
#[derive(Debug, Hash, PartialEq, Eq)]
pub struct PoolIdentifier {
    pub chain_namespace: ChainNamespace,
    pub chain_id: u64,
    pub dex: String,
    pub address: Address,
    pub pool_type: PoolType,
}

impl View for PoolIdentifier {
    type V = PoolIdModel;

    open spec fn view(&self) -> PoolIdModel {
        PoolIdModel {
            chain_namespace: self.chain_namespace@,
            chain_id: self.chain_id,
            dex: self.dex@,
            address: self.address@,
            pool_type: self.pool_type@,
        }
    }
}

impl Clone for PoolIdentifier {
    fn clone(&self) -> (r: PoolIdentifier)
        ensures
            r@ == self@,
    {
        PoolIdentifier {
            chain_namespace: self.chain_namespace.clone(),
            chain_id: self.chain_id,
            dex: self.dex.clone(),
            address: self.address,
            pool_type: self.pool_type.clone(),
        }
    }
}

impl PoolIdentifier {
    pub fn same(&self, other: &PoolIdentifier) -> (r: bool)
        ensures
            r == (self@ == other@),
    {
        self.chain_namespace.same(&other.chain_namespace) && self.chain_id == other.chain_id
            && self.dex == other.dex && self.address.same(&other.address) && self.pool_type.same(
            &other.pool_type,
        )
    }
}

/// One hop of a path: the pool, the asset paid in and the asset taken out.
#[derive(Debug)]
pub struct PathLeg {
    pub pool: PoolIdentifier,
    pub input: Asset,
    pub output: Asset,
    pub fee: Option<u32>,
}

/// The abstract value of a path leg.
pub struct PathLegModel {
    pub pool: PoolIdModel,
    pub input: AssetModel,
    pub output: AssetModel,
    pub fee: Option<u32>,
}

impl View for PathLeg {
    type V = PathLegModel;

    open spec fn view(&self) -> PathLegModel {
        PathLegModel {
            pool: self.pool@,
            input: self.input@,
            output: self.output@,
            fee: self.fee,
        }
    }
}

impl Clone for PathLeg {
    fn clone(&self) -> (r: PathLeg)
        ensures
            r@ == self@,
    {
        PathLeg {
            pool: self.pool.clone(),
            input: self.input.clone(),
            output: self.output.clone(),
            fee: self.fee,
        }
    }
}

/// Where an event stands on chain.
#[derive(Clone, Copy, Debug)]
pub struct EventPointer {
    pub tx_hash: H256,
    pub log_index: u64,
    pub block_number: u64,
}

/// An amount scaled to 18 decimals: unchanged when the asset has 18 or more
/// decimals, otherwise multiplied by `10^(18 - decimals)`.
pub open spec fn amount_to_u256_spec(amount: u128, decimals: u8) -> nat {
    if decimals >= 18 {
        amount as nat
    } else {
        amount as nat * vstd::arithmetic::power::pow(10, (18 - decimals) as nat) as nat
    }
}

proof fn lemma_pow10_small(n: nat)
    requires
        n <= 18,
    ensures
        vstd::arithmetic::power::pow(10, n) <= 1_000_000_000_000_000_000,
        vstd::arithmetic::power::pow(10, n) > 0,
{
    vstd::arithmetic::power::lemma_pow_positive(10, n);
    vstd::arithmetic::power::lemma_pow_increases(10, n, 18);
    assert(vstd::arithmetic::power::pow(10, 18) == 1_000_000_000_000_000_000) by {
        reveal_with_fuel(vstd::arithmetic::power::pow, 19);
    }
}

/// Scales an amount to 18 decimals as a 256-bit integer.
pub fn amount_to_u256(amount: Amount, decimals: u8) -> (r: U256)
    ensures
        r@ == amount_to_u256_spec(amount.0, decimals),
{
    if decimals >= 18 {
        return U256::from_u128(amount.0);
    }
    let diff: usize = (18u32 - decimals as u32) as usize;
    proof {
        lemma_pow10_small(diff as nat);
        let p = vstd::arithmetic::power::pow(10, diff as nat);
        assert(amount.0 as nat * p <= 0x1_0000_0000_0000_0000_0000_0000_0000_0000nat
            * 1_000_000_000_000_000_000) by (nonlinear_arith)
            requires
                amount.0 < 0x1_0000_0000_0000_0000_0000_0000_0000_0000nat,
                0 < p <= 1_000_000_000_000_000_000,
        ;
    }
    let scale = u256_exp10(diff);
    u256_mul(U256::from_u128(amount.0), scale)
}

} // verus!
