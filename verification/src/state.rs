//! Pool reserves, pool snapshots, and the in-memory stores that keep them.
use vstd::prelude::*;
use vstd::string::*;

use crate::assoc::AssocList;
use crate::pancake_v2::state::{PancakeV2SnapshotExtra, V2ExtraModel};
use crate::pancake_v3::state::{PancakeV3Snapshot, V3ExtraModel};
use crate::types::{Asset, AssetModel, PoolIdModel, PoolIdentifier};

verus! {

/// Reserve amounts per asset.
#[derive(Debug)]
pub struct Reserves {
    pub amounts: AssocList<Asset, u128>,
}

impl View for Reserves {
    type V = Map<AssetModel, u128>;

    open spec fn view(&self) -> Map<AssetModel, u128> {
        self.amounts.map()
    }
}

impl Reserves {
    pub open spec fn wf(&self) -> bool {
        self.amounts.wf()
    }

    pub fn new() -> (r: Reserves)
        ensures
            r.wf(),
            r@ == Map::<AssetModel, u128>::empty(),
    {
        Reserves { amounts: AssocList::new() }
    }

    /// Sets the reserve of an asset; an asset without a reserve adds one
    /// entry, one with a reserve keeps the number of entries.
    pub fn set(&mut self, asset: Asset, amount: u128)
        requires
            old(self).wf(),
        ensures
            final(self).wf(),
            final(self)@ == old(self)@.insert(asset@, amount),
            final(self).amounts.keys@.len() == old(self).amounts.keys@.len() + (if old(
                self,
            )@.contains_key(asset@) {
                0int
            } else {
                1int
            }),
    {
        let ghost k = asset@;
        self.amounts.insert(asset, amount);
        proof {
            old(self).amounts.lemma_key_seq();
            self.amounts.lemma_key_seq();
            assert(old(self)@.contains_key(k) == old(self).amounts.has(k));
        }
    }

    /// The reserve of an asset, if it has one.
    pub fn get(&self, asset: &Asset) -> (r: Option<&u128>)
        requires
            self.wf(),
        ensures
            r is Some <==> self@.contains_key(asset@),
            r matches Some(v) ==> *v == self@[asset@],
    {
        self.amounts.get(asset)
    }
}

impl Clone for Reserves {
    fn clone(&self) -> (r: Reserves)
        ensures
            r@ == self@,
            self.wf() ==> r.wf(),
    {
        Reserves { amounts: self.amounts.duplicate() }
    }
}

/// Errors of pool state handling.
#[derive(Debug)]
pub enum StateError {
    NotFound,
    UpdateFailed(String),
    Serialize(String),
    Invalid(String),
    Storage(String),
    Io(String),
}

/// The message of a state error.
pub open spec fn state_error_text(e: StateError) -> Seq<char> {
    match e {
        StateError::NotFound => "池子未找到"@,
        StateError::UpdateFailed(m) => "状态更新失败: "@ + m@,
        StateError::Serialize(m) => "序列化失败: "@ + m@,
        StateError::Invalid(m) => "数据无效: "@ + m@,
        StateError::Storage(m) => "存储错误: "@ + m@,
        StateError::Io(m) => "IO 错误: "@ + m@,
    }
}

impl StateError {
    /// The error's message.
    pub fn message(&self) -> (r: String)
        ensures
            r@ == state_error_text(*self),
    {
        match self {
            StateError::NotFound => String::from_str("池子未找到"),
            StateError::UpdateFailed(m) => String::from_str("状态更新失败: ").concat(m.as_str()),
            StateError::Serialize(m) => String::from_str("序列化失败: ").concat(m.as_str()),
            StateError::Invalid(m) => String::from_str("数据无效: ").concat(m.as_str()),
            StateError::Storage(m) => String::from_str("存储错误: ").concat(m.as_str()),
            StateError::Io(m) => String::from_str("IO 错误: ").concat(m.as_str()),
        }
    }
}

/// The abstract value of the pool-specific part of a snapshot.
pub enum ExtraModel {
    PancakeV2(V2ExtraModel),
    PancakeV3(V3ExtraModel),
    Empty,
}

/// The pool-specific part of a snapshot.
#[derive(Debug)]
pub enum SnapshotExtra {
    PancakeV2(PancakeV2SnapshotExtra),
    PancakeV3(PancakeV3Snapshot),
    Empty,
}

impl View for SnapshotExtra {
    type V = ExtraModel;

    open spec fn view(&self) -> ExtraModel {
        match self {
            SnapshotExtra::PancakeV2(x) => ExtraModel::PancakeV2(x@),
            SnapshotExtra::PancakeV3(x) => ExtraModel::PancakeV3(x@),
            SnapshotExtra::Empty => ExtraModel::Empty,
        }
    }
}

impl SnapshotExtra {
    pub open spec fn wf(&self) -> bool {
        match self {
            SnapshotExtra::PancakeV3(x) => x.wf(),
            _ => true,
        }
    }
}

impl Clone for SnapshotExtra {
    fn clone(&self) -> (r: SnapshotExtra)
        ensures
            r@ == self@,
            self.wf() ==> r.wf(),
    {
        match self {
            SnapshotExtra::PancakeV2(x) => SnapshotExtra::PancakeV2(x.clone()),
            SnapshotExtra::PancakeV3(x) => SnapshotExtra::PancakeV3(x.clone()),
            SnapshotExtra::Empty => SnapshotExtra::Empty,
        }
    }
}

/// The abstract value of a snapshot.
pub struct SnapshotModel {
    pub id: PoolIdModel,
    pub reserves: Map<AssetModel, u128>,
    pub extra: ExtraModel,
}

/// A pool's state as stored and restored.
#[derive(Debug)]
pub struct PoolSnapshot {
    pub id: PoolIdentifier,
    pub reserves: Reserves,
    pub extra: SnapshotExtra,
}

impl View for PoolSnapshot {
    type V = SnapshotModel;

    open spec fn view(&self) -> SnapshotModel {
        SnapshotModel { id: self.id@, reserves: self.reserves@, extra: self.extra@ }
    }
}

impl PoolSnapshot {
    pub open spec fn wf(&self) -> bool {
        self.reserves.wf() && self.extra.wf()
    }
}

impl Clone for PoolSnapshot {
    fn clone(&self) -> (r: PoolSnapshot)
        ensures
            r@ == self@,
            self.wf() ==> r.wf(),
    {
        PoolSnapshot {
            id: self.id.clone(),
            reserves: self.reserves.clone(),
            extra: self.extra.clone(),
        }
    }
}

} // verus!
