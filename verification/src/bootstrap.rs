//! Bootstrap lists of pools: the entries as a file writes them, and the
//! pools they stand for.
use vstd::prelude::*;
use vstd::string::*;

use crate::abi::{address_bytes, address_parses, parse_address};
use crate::types::{Address, Asset, AssetModel};

verus! {

/// A token as a bootstrap file writes it.
#[derive(Debug, Clone)]
pub struct TokenMeta {
    pub address: String,
    pub symbol: String,
    pub decimals: u8,
}

/// The asset a token entry stands for.
pub open spec fn token_asset(m: TokenMeta) -> AssetModel {
    AssetModel { address: address_bytes(m.address@), symbol: m.symbol@, decimals: m.decimals }
}

impl TokenMeta {
    /// The asset; the address text must read as an address.
    pub fn to_asset(&self) -> (r: Result<Asset, BootstrapError>)
        ensures
            address_parses(self.address@) ==> (r matches Ok(a) && a@ == token_asset(*self)),
            !address_parses(self.address@) ==> (r matches Err(BootstrapError::Address(_))),
    {
        let address = match parse_address(self.address.as_str()) {
            Ok(a) => a,
            Err(m) => return Err(BootstrapError::Address(m)),
        };
        Ok(Asset { address, symbol: self.symbol.clone(), decimals: self.decimals })
    }
}

/// A V2 pool entry of a bootstrap file.
#[derive(Debug, Clone)]
pub struct V2BootstrapPoolConfig {
    pub pool: String,
    pub token0: TokenMeta,
    pub token1: TokenMeta,
}

/// A V2 pool and its tokens.
#[derive(Debug)]
pub struct V2BootstrapPool {
    pub pool: Address,
    pub token0: Asset,
    pub token1: Asset,
}

impl Clone for V2BootstrapPool {
    fn clone(&self) -> (r: V2BootstrapPool)
        ensures
            r.pool == self.pool,
            r.token0@ == self.token0@,
            r.token1@ == self.token1@,
    {
        V2BootstrapPool { pool: self.pool, token0: self.token0.clone(), token1: self.token1.clone() }
    }
}

/// A V3 pool entry of a bootstrap file.
#[derive(Debug, Clone)]
pub struct V3BootstrapPoolConfig {
    pub pool: String,
    pub token0: TokenMeta,
    pub token1: TokenMeta,
}

/// A V3 pool and its tokens.
#[derive(Debug)]
pub struct V3BootstrapPool {
    pub pool: Address,
    pub token0: Asset,
    pub token1: Asset,
}

impl Clone for V3BootstrapPool {
    fn clone(&self) -> (r: V3BootstrapPool)
        ensures
            r.pool == self.pool,
            r.token0@ == self.token0@,
            r.token1@ == self.token1@,
    {
        V3BootstrapPool { pool: self.pool, token0: self.token0.clone(), token1: self.token1.clone() }
    }
}

/// Why a bootstrap file could not be used.
#[derive(Debug)]
pub enum BootstrapError {
    Io(String),
    Parse(String),
    Address(String),
}

impl BootstrapError {
    /// The error's message.
    pub fn message(&self) -> (r: String)
        ensures
            r@ == match self {
                BootstrapError::Io(m) => "配置读取失败: "@ + m@,
                BootstrapError::Parse(m) => "配置解析失败: "@ + m@,
                BootstrapError::Address(m) => "地址解析失败: "@ + m@,
            },
    {
        match self {
            BootstrapError::Io(m) => String::from_str("配置读取失败: ").concat(m.as_str()),
            BootstrapError::Parse(m) => String::from_str("配置解析失败: ").concat(m.as_str()),
            BootstrapError::Address(m) => String::from_str("地址解析失败: ").concat(m.as_str()),
        }
    }
}

/// Every address of the entry reads as an address.
pub open spec fn v2_entry_parses(c: V2BootstrapPoolConfig) -> bool {
    address_parses(c.pool@) && address_parses(c.token0.address@) && address_parses(
        c.token1.address@,
    )
}

pub open spec fn v3_entry_parses(c: V3BootstrapPoolConfig) -> bool {
    address_parses(c.pool@) && address_parses(c.token0.address@) && address_parses(
        c.token1.address@,
    )
}

/// The V2 pools of a bootstrap file's entries, in order; the first address
/// that does not read fails the whole.
pub fn v2_pools_from_configs(configs: &Vec<V2BootstrapPoolConfig>) -> (r: Result<Vec<V2BootstrapPool>, BootstrapError>)
    ensures
        r is Ok <==> forall|i: int| 0 <= i < configs@.len() ==> v2_entry_parses(#[trigger] configs@[i]),
        r matches Err(e) ==> e is Address,
        r matches Ok(v) ==> v@.len() == configs@.len() && forall|i: int|
            0 <= i < configs@.len() ==> (#[trigger] v@[i]).pool@ == address_bytes(configs@[i].pool@)
                && v@[i].token0@ == token_asset(configs@[i].token0) && v@[i].token1@
                == token_asset(configs@[i].token1),
{
    let mut out: Vec<V2BootstrapPool> = Vec::new();
    let mut i: usize = 0;
    while i < configs.len()
        invariant
            i <= configs@.len(),
            out@.len() == i,
            forall|k: int| 0 <= k < i ==> v2_entry_parses(#[trigger] configs@[k]),
            forall|k: int|
                0 <= k < i ==> (#[trigger] out@[k]).pool@ == address_bytes(configs@[k].pool@)
                    && out@[k].token0@ == token_asset(configs@[k].token0) && out@[k].token1@
                    == token_asset(configs@[k].token1),
        decreases configs@.len() - i,
    {
        let c = &configs[i];
        let pool = match parse_address(c.pool.as_str()) {
            Ok(a) => a,
            Err(m) => return Err(BootstrapError::Address(m)),
        };
        let token0 = c.token0.to_asset()?;
        let token1 = c.token1.to_asset()?;
        out.push(V2BootstrapPool { pool, token0, token1 });
        i = i + 1;
    }
    Ok(out)
}

/// The V3 pools of a bootstrap file's entries, in order; the first address
/// that does not read fails the whole.
pub fn v3_pools_from_configs(configs: &Vec<V3BootstrapPoolConfig>) -> (r: Result<Vec<V3BootstrapPool>, BootstrapError>)
    ensures
        r is Ok <==> forall|i: int| 0 <= i < configs@.len() ==> v3_entry_parses(#[trigger] configs@[i]),
        r matches Err(e) ==> e is Address,
        r matches Ok(v) ==> v@.len() == configs@.len() && forall|i: int|
            0 <= i < configs@.len() ==> (#[trigger] v@[i]).pool@ == address_bytes(configs@[i].pool@)
                && v@[i].token0@ == token_asset(configs@[i].token0) && v@[i].token1@
                == token_asset(configs@[i].token1),
{
    let mut out: Vec<V3BootstrapPool> = Vec::new();
    let mut i: usize = 0;
    while i < configs.len()
        invariant
            i <= configs@.len(),
            out@.len() == i,
            forall|k: int| 0 <= k < i ==> v3_entry_parses(#[trigger] configs@[k]),
            forall|k: int|
                0 <= k < i ==> (#[trigger] out@[k]).pool@ == address_bytes(configs@[k].pool@)
                    && out@[k].token0@ == token_asset(configs@[k].token0) && out@[k].token1@
                    == token_asset(configs@[k].token1),
        decreases configs@.len() - i,
    {
        let c = &configs[i];
        let pool = match parse_address(c.pool.as_str()) {
            Ok(a) => a,
            Err(m) => return Err(BootstrapError::Address(m)),
        };
        let token0 = c.token0.to_asset()?;
        let token1 = c.token1.to_asset()?;
        out.push(V3BootstrapPool { pool, token0, token1 });
        i = i + 1;
    }
    Ok(out)
}

} // verus!
