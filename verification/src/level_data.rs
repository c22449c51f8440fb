//! One level of the leveled store: a primary index, an expiration index,
//! and the system data block (seq counter, last applied log id, last
//! membership, cluster nodes).

use vstd::prelude::*;

use crate::expire_map::ExpireMap;
use crate::expire_map::ExpPair;
use crate::kv_map::KvMap;
use crate::kv_map::KvPair;
use crate::node_map::NodeMap;
use crate::node_map::NodePair;
use crate::types::LogId;
use crate::types::StoredMembership;
use crate::types::StoredMembershipV;

verus! {

/// The system data block of a level.
#[derive(Clone, Debug)]
pub struct SysData {
    pub seq: u64,
    pub last_applied: Option<LogId>,
    pub last_membership: StoredMembership,
    pub nodes: NodeMap,
}

/// Mathematical image of a [`SysData`].
pub struct SysDataV {
    pub seq: u64,
    pub last_applied: Option<LogId>,
    pub last_membership: StoredMembershipV,
    pub nodes: Seq<NodePair>,
}

impl View for SysData {
    type V = SysDataV;

    open spec fn view(&self) -> SysDataV {
        SysDataV {
            seq: self.seq,
            last_applied: self.last_applied,
            last_membership: self.last_membership@,
            nodes: self.nodes@,
        }
    }
}

impl SysData {
    pub open spec fn wf(self) -> bool {
        crate::node_map::node_sorted(self@.nodes)
    }

    pub fn new() -> (r: SysData)
        ensures
            r@.seq == 0,
            r@.last_applied is None,
            r@.last_membership.log_id is None,
            r@.last_membership.membership.configs.len() == 0,
            r@.last_membership.membership.nodes.len() == 0,
            r@.nodes == Seq::<NodePair>::empty(),
            r.wf(),
    {
        SysData {
            seq: 0,
            last_applied: Option::None,
            last_membership: StoredMembership::empty(),
            nodes: NodeMap::new(),
        }
    }

    pub fn curr_seq(&self) -> (r: u64)
        ensures
            r == self@.seq,
    {
        self.seq
    }

    /// Draw the next sequence number; the counter strictly increases.
    pub fn next_seq(&mut self) -> (r: u64)
        requires
            old(self)@.seq < u64::MAX,
        ensures
            r == old(self)@.seq + 1,
            final(self)@.seq == old(self)@.seq + 1,
            final(self)@.last_applied == old(self)@.last_applied,
            final(self)@.last_membership == old(self)@.last_membership,
            final(self)@.nodes == old(self)@.nodes,
    {
        self.seq = self.seq + 1;
        self.seq
    }

    /// Raise the counter to at least `v`.
    pub fn update_seq(&mut self, v: u64)
        ensures
            final(self)@.seq == if v > old(self)@.seq {
                v
            } else {
                old(self)@.seq
            },
            final(self)@.last_applied == old(self)@.last_applied,
            final(self)@.last_membership == old(self)@.last_membership,
            final(self)@.nodes == old(self)@.nodes,
    {
        if v > self.seq {
            self.seq = v;
        }
    }

    pub fn last_applied_mut(&mut self) -> (r: &mut Option<LogId>)
        ensures
            *r == old(self)@.last_applied,
            final(self)@.last_applied == *final(r),
            final(self)@.seq == old(self)@.seq,
            final(self)@.last_membership == old(self)@.last_membership,
            final(self)@.nodes == old(self)@.nodes,
    {
        &mut self.last_applied
    }

    pub fn last_membership_mut(&mut self) -> (r: &mut StoredMembership)
        ensures
            r@ == old(self)@.last_membership,
            final(self)@.last_membership == final(r)@,
            final(self)@.seq == old(self)@.seq,
            final(self)@.last_applied == old(self)@.last_applied,
            final(self)@.nodes == old(self)@.nodes,
    {
        &mut self.last_membership
    }

    pub fn nodes_mut(&mut self) -> (r: &mut NodeMap)
        ensures
            r@ == old(self)@.nodes,
            final(self)@.nodes == final(r)@,
            final(self)@.seq == old(self)@.seq,
            final(self)@.last_applied == old(self)@.last_applied,
            final(self)@.last_membership == old(self)@.last_membership,
    {
        &mut self.nodes
    }

    pub fn dup(&self) -> (r: SysData)
        ensures
            r@ == self@,
    {
        let r = SysData {
            seq: self.seq,
            last_applied: self.last_applied,
            last_membership: self.last_membership.dup(),
            nodes: self.nodes.dup(),
        };
        r
    }
}

/// One level of the store.
#[derive(Clone, Debug)]
pub struct LevelData {
    pub kv: KvMap,
    pub expire: ExpireMap,
    pub sys: SysData,
}

/// Mathematical image of a [`LevelData`].
pub struct LevelDataV {
    pub kv: Seq<KvPair>,
    pub expire: Seq<ExpPair>,
    pub sys: SysDataV,
}

impl View for LevelData {
    type V = LevelDataV;

    open spec fn view(&self) -> LevelDataV {
        LevelDataV { kv: self.kv@, expire: self.expire@, sys: self.sys@ }
    }
}

impl LevelData {
    /// Structural well-formedness: both indexes sorted, node table sorted.
    pub open spec fn wf(self) -> bool {
        &&& crate::kv_map::kv_sorted(self@.kv)
        &&& crate::expire_map::exp_sorted(self@.expire)
        &&& crate::node_map::node_sorted(self@.sys.nodes)
    }

    pub fn new() -> (r: LevelData)
        ensures
            r@.kv == Seq::<KvPair>::empty(),
            r@.expire == Seq::<ExpPair>::empty(),
            r@.sys.seq == 0,
            r@.sys.last_applied is None,
            r@.sys.last_membership.log_id is None,
            r@.sys.last_membership.membership.configs.len() == 0,
            r@.sys.last_membership.membership.nodes.len() == 0,
            r@.sys.nodes == Seq::<NodePair>::empty(),
            r.wf(),
    {
        LevelData { kv: KvMap::new(), expire: ExpireMap::new(), sys: SysData::new() }
    }

    /// A fresh empty level that carries this level's system data.
    pub fn new_level(&self) -> (r: LevelData)
        ensures
            r@.kv == Seq::<KvPair>::empty(),
            r@.expire == Seq::<ExpPair>::empty(),
            r@.sys == self@.sys,
            crate::node_map::node_sorted(self@.sys.nodes) ==> r.wf(),
    {
        LevelData { kv: KvMap::new(), expire: ExpireMap::new(), sys: self.sys.dup() }
    }

    pub fn curr_seq(&self) -> (r: u64)
        ensures
            r == self@.sys.seq,
    {
        self.sys.curr_seq()
    }

    pub fn last_applied_ref(&self) -> (r: &Option<LogId>)
        ensures
            *r == self@.sys.last_applied,
    {
        &self.sys.last_applied
    }

    pub fn last_membership_ref(&self) -> (r: &StoredMembership)
        ensures
            r@ == self@.sys.last_membership,
    {
        &self.sys.last_membership
    }

    pub fn nodes_ref(&self) -> (r: &NodeMap)
        ensures
            r@ == self@.sys.nodes,
    {
        &self.sys.nodes
    }

    pub fn sys_data_mut(&mut self) -> (r: &mut SysData)
        ensures
            r@ == old(self)@.sys,
            final(self)@.sys == final(r)@,
            final(self)@.kv == old(self)@.kv,
            final(self)@.expire == old(self)@.expire,
    {
        &mut self.sys
    }

    /// Replace the whole primary index.
    pub fn replace_kv(&mut self, kv: KvMap)
        ensures
            final(self)@.kv == kv@,
            final(self)@.expire == old(self)@.expire,
            final(self)@.sys == old(self)@.sys,
    {
        self.kv = kv;
    }

    /// Replace the whole expiration index.
    pub fn replace_expire(&mut self, expire: ExpireMap)
        ensures
            final(self)@.expire == expire@,
            final(self)@.kv == old(self)@.kv,
            final(self)@.sys == old(self)@.sys,
    {
        self.expire = expire;
    }

    pub fn dup(&self) -> (r: LevelData)
        ensures
            r@ == self@,
    {
        LevelData { kv: self.kv.dup(), expire: self.expire.dup(), sys: self.sys.dup() }
    }
}

} // verus!
