//! Snapshot views: freeze the stack, compact it to one tombstone-free
//! level, and export the state as a stream of store entries in a fixed
//! order.

use vstd::prelude::*;

use crate::data_version::Header;
use crate::expire_map::exp_lookup;
use crate::expire_map::exp_sorted;
use crate::expire_map::ExpireMap;
use crate::expire_map::ExpPair;
use crate::kv_map::kv_lookup;
use crate::kv_map::kv_sorted;
use crate::kv_map::KvMap;
use crate::kv_map::KvPair;
use crate::level_data::LevelData;
use crate::level_data::SysDataV;
use crate::leveled_map::merged_exp_at;
use crate::leveled_map::merged_kv_at;
use crate::leveled_map::StaticLeveledMap;
use crate::node_map::NodePair;
use crate::types::ExpireKey;
use crate::types::ExpireValue;
use crate::types::ExpireValueV;
use crate::types::LogId;
use crate::types::Marked;
use crate::types::MarkedV;
use crate::types::Node;
use crate::types::NodeV;
use crate::types::SeqV;
use crate::types::SeqVV;
use crate::types::StoredMembership;
use crate::types::StoredMembershipV;

verus! {

/// Keys of the state-machine metadata records in a snapshot stream.
#[derive(Clone, Copy, PartialEq, Eq, Structural, Debug)]
pub enum StateMachineMetaKey {
    LastApplied,
    Initialized,
    LastMembership,
}

/// Values of the state-machine metadata records.
#[derive(Clone, PartialEq, Eq, Debug)]
pub enum StateMachineMetaValue {
    LogIdValue(LogId),
    BoolValue(bool),
    MembershipValue(StoredMembership),
}

/// Mathematical image of a [`StateMachineMetaValue`].
pub enum StateMachineMetaValueV {
    LogIdValue(LogId),
    BoolValue(bool),
    MembershipValue(StoredMembershipV),
}

impl View for StateMachineMetaValue {
    type V = StateMachineMetaValueV;

    open spec fn view(&self) -> StateMachineMetaValueV {
        match self {
            StateMachineMetaValue::LogIdValue(l) => StateMachineMetaValueV::LogIdValue(*l),
            StateMachineMetaValue::BoolValue(b) => StateMachineMetaValueV::BoolValue(*b),
            StateMachineMetaValue::MembershipValue(m) => StateMachineMetaValueV::MembershipValue(
                m@,
            ),
        }
    }
}

/// One record of the persisted store stream.  Only a subset concerns the
/// state machine; the log-related records are carried through untouched.
#[derive(Clone, PartialEq, Eq, Debug)]
pub enum RaftStoreEntry {
    DataHeader { key: Vec<u8>, value: Header },
    Logs { key: u64 },
    LogMeta { key: Vec<u8> },
    RaftStateKV { key: Vec<u8> },
    ClientLastResps { key: Vec<u8> },
    Nodes { key: u64, value: Node },
    StateMachineMeta { key: StateMachineMetaKey, value: StateMachineMetaValue },
    Expire { key: ExpireKey, value: ExpireValue },
    GenericKV { key: Vec<u8>, value: SeqV },
    Sequences { key: Vec<u8>, value: u64 },
}

/// Mathematical image of a [`RaftStoreEntry`].
pub enum RaftStoreEntryV {
    DataHeader { key: Seq<u8>, value: Header },
    Logs { key: u64 },
    LogMeta { key: Seq<u8> },
    RaftStateKV { key: Seq<u8> },
    ClientLastResps { key: Seq<u8> },
    Nodes { key: u64, value: NodeV },
    StateMachineMeta { key: StateMachineMetaKey, value: StateMachineMetaValueV },
    Expire { key: ExpireKey, value: ExpireValueV },
    GenericKV { key: Seq<u8>, value: SeqVV },
    Sequences { key: Seq<u8>, value: u64 },
}

impl View for RaftStoreEntry {
    type V = RaftStoreEntryV;

    open spec fn view(&self) -> RaftStoreEntryV {
        match self {
            RaftStoreEntry::DataHeader { key, value } => (RaftStoreEntryV::DataHeader {
                key: key@,
                value: *value,
            }),
            RaftStoreEntry::Logs { key } => (RaftStoreEntryV::Logs { key: *key }),
            RaftStoreEntry::LogMeta { key } => (RaftStoreEntryV::LogMeta { key: key@ }),
            RaftStoreEntry::RaftStateKV { key } => (RaftStoreEntryV::RaftStateKV { key: key@ }),
            RaftStoreEntry::ClientLastResps { key } => (RaftStoreEntryV::ClientLastResps {
                key: key@,
            }),
            RaftStoreEntry::Nodes { key, value } => (RaftStoreEntryV::Nodes {
                key: *key,
                value: value@,
            }),
            RaftStoreEntry::StateMachineMeta { key, value } => (RaftStoreEntryV::StateMachineMeta {
                key: *key,
                value: value@,
            }),
            RaftStoreEntry::Expire { key, value } => (RaftStoreEntryV::Expire {
                key: *key,
                value: value@,
            }),
            RaftStoreEntry::GenericKV { key, value } => (RaftStoreEntryV::GenericKV {
                key: key@,
                value: value@,
            }),
            RaftStoreEntry::Sequences { key, value } => (RaftStoreEntryV::Sequences {
                key: key@,
                value: *value,
            }),
        }
    }
}

/// The bytes of the fixed sequences tag, kept for backward compatibility.
pub open spec fn generic_kv_tag() -> Seq<u8> {
    seq![103u8, 101u8, 110u8, 101u8, 114u8, 105u8, 99u8, 45u8, 107u8, 118u8]
}

/// The bytes of the header record key.
pub open spec fn header_tag() -> Seq<u8> {
    seq![104u8, 101u8, 97u8, 100u8, 101u8, 114u8]
}

/// Build the fixed sequences tag `generic-kv`.
pub fn make_generic_kv_tag() -> (r: Vec<u8>)
    ensures
        r@ == generic_kv_tag(),
{
    let mut v: Vec<u8> = Vec::new();
    v.push(103u8);
    v.push(101u8);
    v.push(110u8);
    v.push(101u8);
    v.push(114u8);
    v.push(105u8);
    v.push(99u8);
    v.push(45u8);
    v.push(107u8);
    v.push(118u8);
    proof {
        assert(v@ =~= generic_kv_tag());
    }
    v
}

/// Build the header record key `header`.
pub fn make_header_tag() -> (r: Vec<u8>)
    ensures
        r@ == header_tag(),
{
    let mut v: Vec<u8> = Vec::new();
    v.push(104u8);
    v.push(101u8);
    v.push(97u8);
    v.push(100u8);
    v.push(101u8);
    v.push(114u8);
    proof {
        assert(v@ =~= header_tag());
    }
    v
}

/// The versioned value a live primary record denotes; tombstones map to an
/// empty record that export never emits.
pub open spec fn kv_pair_entry(p: KvPair) -> RaftStoreEntryV {
    match p.1 {
        MarkedV::Normal { internal_seq, value, meta } => (RaftStoreEntryV::GenericKV {
            key: p.0,
            value: SeqVV { seq: internal_seq, meta, data: value },
        }),
        MarkedV::TombStone { internal_seq } => (RaftStoreEntryV::GenericKV {
            key: p.0,
            value: SeqVV { seq: internal_seq, meta: Option::None, data: Seq::empty() },
        }),
    }
}

/// The expiration record a live expiration entry denotes.
pub open spec fn exp_pair_entry(p: ExpPair) -> RaftStoreEntryV {
    match p.1 {
        MarkedV::Normal { internal_seq, value, meta } => (RaftStoreEntryV::Expire {
            key: p.0,
            value: ExpireValueV { seq: internal_seq, key: value },
        }),
        MarkedV::TombStone { internal_seq } => (RaftStoreEntryV::Expire {
            key: p.0,
            value: ExpireValueV { seq: internal_seq, key: Seq::empty() },
        }),
    }
}

/// The exact entry stream exported for a system-data block and the live
/// primary and expiration records: header; last applied (when present);
/// last membership; the sequence counter; every node; every live kv pair in
/// key order; every live expiration pair in key order.
pub open spec fn export_entries(sys: SysDataV, kvs: Seq<KvPair>, exps: Seq<ExpPair>) -> Seq<
    RaftStoreEntryV,
> {
    let head = seq![
        (RaftStoreEntryV::DataHeader {
            key: header_tag(),
            value: Header {
                version: crate::data_version::DataVersion::V003,
                upgrading: Option::None,
            },
        }),
    ];
    let applied = match sys.last_applied {
        Option::Some(l) => seq![
            (RaftStoreEntryV::StateMachineMeta {
                key: StateMachineMetaKey::LastApplied,
                value: StateMachineMetaValueV::LogIdValue(l),
            }),
        ],
        Option::None => Seq::empty(),
    };
    let membership = seq![
        (RaftStoreEntryV::StateMachineMeta {
            key: StateMachineMetaKey::LastMembership,
            value: StateMachineMetaValueV::MembershipValue(sys.last_membership),
        }),
    ];
    let sequences = seq![
        (RaftStoreEntryV::Sequences { key: generic_kv_tag(), value: sys.seq }),
    ];
    let nodes = sys.nodes.map_values(
        |p: NodePair| (RaftStoreEntryV::Nodes { key: p.0, value: p.1 }),
    );
    let kv_entries = kvs.map_values(|p: KvPair| kv_pair_entry(p));
    let exp_entries = exps.map_values(|p: ExpPair| exp_pair_entry(p));
    head + applied + membership + sequences + nodes + kv_entries + exp_entries
}

/// The live record of a merged lookup: tombstones and absence are both
/// dropped.
pub open spec fn live_of(m: Option<MarkedV>) -> Option<MarkedV> {
    match m {
        Option::Some(MarkedV::Normal { internal_seq, value, meta }) => Option::Some(
            (MarkedV::Normal { internal_seq, value, meta }),
        ),
        _ => Option::None,
    }
}

/// Drop every tombstone of a sorted primary index.
pub fn filter_kv_tombstones(m: &KvMap) -> (r: KvMap)
    requires
        m.wf(),
    ensures
        r.wf(),
        forall|k: Seq<u8>| #[trigger] kv_lookup(r@, k) == live_of(kv_lookup(m@, k)),
        forall|i: int| 0 <= i < r@.len() ==> (#[trigger] r@[i]).1 is Normal,
        r@.len() <= m@.len(),
{
    let n = m.len();
    let mut r = KvMap::new();
    let mut j: usize = 0;
    proof {
        assert(m@.take(0) =~= Seq::<KvPair>::empty());
        assert forall|k: Seq<u8>| #[trigger]
            kv_lookup(r@, k) == live_of(kv_lookup(m@.take(0), k)) by {
            assert(kv_lookup(Seq::<KvPair>::empty(), k) is None);
        }
    }
    while j < n
        invariant
            0 <= j <= n == m@.len(),
            m.wf(),
            r.wf(),
            r@.len() <= j,
            forall|k: Seq<u8>| #[trigger] kv_lookup(r@, k) == live_of(kv_lookup(m@.take(j as int), k)),
            forall|i: int| 0 <= i < r@.len() ==> (#[trigger] r@[i]).1 is Normal,
        decreases n - j,
    {
        let ghost pre = r@;
        let entry = m.entry_at(j);
        proof {
            assert(m@.take(j as int + 1) =~= m@.take(j as int).push(m@[j as int]));
        }
        match &entry.1 {
            Marked::Normal { .. } => {
                let kd = crate::bytes_order::key_dup(&entry.0);
                let vd = entry.1.dup();
                let ghost kk = kd@;
                let ghost vv = vd@;
                r.insert(kd, vd);
                proof {
                    crate::kv_map::lemma_kv_insert_len(pre, kk, vv);
                    crate::kv_map::lemma_kv_insert_pairs(pre, kk, vv);
                    assert forall|i: int| 0 <= i < r@.len() implies (#[trigger] r@[i]).1
                        is Normal by {
                        if r@[i] == (kk, vv) {
                        } else {
                            let l = choose|l: int| 0 <= l < pre.len() && pre[l] == r@[i];
                        }
                    }
                    assert forall|k: Seq<u8>| #[trigger]
                        kv_lookup(r@, k) == live_of(kv_lookup(m@.take(j as int + 1), k)) by {
                        crate::kv_map::lemma_kv_insert_lookup(pre, kk, vv, k);
                        crate::kv_map::lemma_kv_lookup_push(m@.take(j as int), m@[j as int], k);
                        if k == kk && kv_lookup(m@.take(j as int), k) is Some {
                            crate::kv_map::lemma_kv_lookup_some_index(m@.take(j as int), k);
                            let l = choose|l: int|
                                0 <= l < m@.take(j as int).len() && (#[trigger] m@.take(
                                    j as int,
                                )[l]).0 == k;
                            assert(m@[l].0 == k);
                            assert(crate::bytes_order::lex_lt(m@[l].0, m@[j as int].0));
                            crate::bytes_order::lemma_lex_irrefl(k);
                        }
                    }
                }
            },
            Marked::TombStone { .. } => {
                proof {
                    assert forall|k: Seq<u8>| #[trigger]
                        kv_lookup(r@, k) == live_of(kv_lookup(m@.take(j as int + 1), k)) by {
                        crate::kv_map::lemma_kv_lookup_push(m@.take(j as int), m@[j as int], k);
                        if k == m@[j as int].0 && kv_lookup(m@.take(j as int), k) is Some {
                            crate::kv_map::lemma_kv_lookup_some_index(m@.take(j as int), k);
                            let l = choose|l: int|
                                0 <= l < m@.take(j as int).len() && (#[trigger] m@.take(
                                    j as int,
                                )[l]).0 == k;
                            assert(m@[l].0 == k);
                            assert(crate::bytes_order::lex_lt(m@[l].0, m@[j as int].0));
                            crate::bytes_order::lemma_lex_irrefl(k);
                        }
                    }
                }
            },
        }
        j = j + 1;
    }
    proof {
        assert(m@.take(n as int) =~= m@);
    }
    r
}

/// Drop every tombstone of a sorted expiration index.
pub fn filter_exp_tombstones(m: &ExpireMap) -> (r: ExpireMap)
    requires
        m.wf(),
    ensures
        r.wf(),
        forall|k: ExpireKey| #[trigger] exp_lookup(r@, k) == live_of(exp_lookup(m@, k)),
        forall|i: int| 0 <= i < r@.len() ==> (#[trigger] r@[i]).1 is Normal,
        r@.len() <= m@.len(),
{
    let n = m.len();
    let mut r = ExpireMap::new();
    let mut j: usize = 0;
    proof {
        assert(m@.take(0) =~= Seq::<ExpPair>::empty());
        assert forall|k: ExpireKey| #[trigger]
            exp_lookup(r@, k) == live_of(exp_lookup(m@.take(0), k)) by {
            assert(exp_lookup(Seq::<ExpPair>::empty(), k) is None);
        }
    }
    while j < n
        invariant
            0 <= j <= n == m@.len(),
            m.wf(),
            r.wf(),
            r@.len() <= j,
            forall|k: ExpireKey| #[trigger]
                exp_lookup(r@, k) == live_of(exp_lookup(m@.take(j as int), k)),
            forall|i: int| 0 <= i < r@.len() ==> (#[trigger] r@[i]).1 is Normal,
        decreases n - j,
    {
        let ghost pre = r@;
        let entry = m.entry_at(j);
        proof {
            assert(m@.take(j as int + 1) =~= m@.take(j as int).push(m@[j as int]));
        }
        match &entry.1 {
            Marked::Normal { .. } => {
                let kd = entry.0;
                let vd = entry.1.dup();
                let ghost vv = vd@;
                r.insert(kd, vd);
                proof {
                    crate::expire_map::lemma_exp_insert_len(pre, kd, vv);
                    crate::expire_map::lemma_exp_insert_pairs(pre, kd, vv);
                    assert forall|i: int| 0 <= i < r@.len() implies (#[trigger] r@[i]).1
                        is Normal by {
                        if r@[i] == (kd, vv) {
                        } else {
                            let l = choose|l: int| 0 <= l < pre.len() && pre[l] == r@[i];
                        }
                    }
                    assert forall|k: ExpireKey| #[trigger]
                        exp_lookup(r@, k) == live_of(exp_lookup(m@.take(j as int + 1), k)) by {
                        crate::expire_map::lemma_exp_insert_lookup(pre, kd, vv, k);
                        crate::expire_map::lemma_exp_lookup_push(
                            m@.take(j as int),
                            m@[j as int],
                            k,
                        );
                        if k == kd && exp_lookup(m@.take(j as int), k) is Some {
                            crate::expire_map::lemma_exp_lookup_some_index(m@.take(j as int), k);
                            let l = choose|l: int|
                                0 <= l < m@.take(j as int).len() && (#[trigger] m@.take(
                                    j as int,
                                )[l]).0 == k;
                            assert(m@[l].0 == k);
                            assert(crate::types::expire_key_lt(m@[l].0, m@[j as int].0));
                        }
                    }
                }
            },
            Marked::TombStone { .. } => {
                proof {
                    assert forall|k: ExpireKey| #[trigger]
                        exp_lookup(r@, k) == live_of(exp_lookup(m@.take(j as int + 1), k)) by {
                        crate::expire_map::lemma_exp_lookup_push(
                            m@.take(j as int),
                            m@[j as int],
                            k,
                        );
                        if k == m@[j as int].0 && exp_lookup(m@.take(j as int), k) is Some {
                            crate::expire_map::lemma_exp_lookup_some_index(m@.take(j as int), k);
                            let l = choose|l: int|
                                0 <= l < m@.take(j as int).len() && (#[trigger] m@.take(
                                    j as int,
                                )[l]).0 == k;
                            assert(m@[l].0 == k);
                            assert(crate::types::expire_key_lt(m@[l].0, m@[j as int].0));
                        }
                    }
                }
            },
        }
        j = j + 1;
    }
    proof {
        assert(m@.take(n as int) =~= m@);
    }
    r
}

/// Metadata of a built snapshot.
#[derive(Clone, PartialEq, Eq, Debug)]
pub struct SnapshotMeta {
    pub snapshot_id: MetaSnapshotId,
    pub last_log_id: Option<LogId>,
    pub last_membership: StoredMembership,
}

/// A snapshot id: the last applied log id plus a caller-supplied epoch
/// component distinguishing snapshots with the same applied id.
#[derive(Clone, Copy, PartialEq, Eq, Debug)]
pub struct MetaSnapshotId {
    pub last_applied: Option<LogId>,
    pub epoch_ms: u64,
}

/// A snapshot view of the state machine: static, not affected by further
/// writes.
pub struct SnapshotViewV003 {
    compacted: StaticLeveledMap,
    original: StaticLeveledMap,
}

impl SnapshotViewV003 {
    /// What this view presents: the compacted stack.
    pub closed spec fn spec_compacted(self) -> Seq<crate::level_data::LevelDataV> {
        self.compacted@
    }

    /// The stack the view was created from.
    pub closed spec fn spec_original(self) -> Seq<crate::level_data::LevelDataV> {
        self.original@
    }

    pub open spec fn wf(self) -> bool {
        &&& crate::leveled_map::levels_wf(self.spec_compacted())
        &&& self.spec_compacted().len() >= 1
    }

    pub fn new(top: StaticLeveledMap) -> (r: SnapshotViewV003)
        ensures
            r.spec_compacted() == top@,
            r.spec_original() == top@,
    {
        let c = top.dup();
        SnapshotViewV003 { compacted: c, original: top }
    }

    /// The compacted snapshot data.
    pub fn compacted(&self) -> (r: StaticLeveledMap)
        ensures
            r@ == self.spec_compacted(),
    {
        self.compacted.dup()
    }

    /// The original, non-compacted snapshot data.
    pub fn original_ref(&self) -> (r: &StaticLeveledMap)
        ensures
            r@ == self.spec_original(),
    {
        &self.original
    }

    /// Extract the snapshot metadata: last applied log id, last membership,
    /// and a snapshot id built from the applied id and the given epoch.
    pub fn build_snapshot_meta(&self, epoch_ms: u64) -> (r: SnapshotMeta)
        requires
            self.spec_compacted().len() >= 1,
        ensures
            r.last_log_id == self.spec_compacted().last().sys.last_applied,
            r.last_membership@ == self.spec_compacted().last().sys.last_membership,
            r.snapshot_id == (MetaSnapshotId {
                last_applied: self.spec_compacted().last().sys.last_applied,
                epoch_ms,
            }),
    {
        let d = match self.compacted.newest() {
            Option::Some(d) => d,
            Option::None => {
                proof {
                    assert(false);
                }
                vstd::pervasive::unreached()
            },
        };
        let last_applied = *d.last_applied_ref();
        let last_membership = d.last_membership_ref().dup();
        SnapshotMeta {
            snapshot_id: MetaSnapshotId { last_applied, epoch_ms },
            last_log_id: last_applied,
            last_membership,
        }
    }

    /// Compact into one level, dropping every tombstone.  The original data
    /// is retained; a single-level view is left as is.
    pub fn compact_mem_levels(&mut self)
        requires
            old(self).wf(),
        ensures
            final(self).wf(),
            final(self).spec_original() == old(self).spec_original(),
            final(self).spec_compacted().len() >= 1,
            final(self).spec_compacted().last().sys == old(self).spec_compacted().last().sys,
            forall|k: Seq<u8>| #[trigger]
                live_of(merged_kv_at(final(self).spec_compacted(), k)) == live_of(
                    merged_kv_at(old(self).spec_compacted(), k),
                ),
            forall|e: ExpireKey| #[trigger]
                live_of(merged_exp_at(final(self).spec_compacted(), e)) == live_of(
                    merged_exp_at(old(self).spec_compacted(), e),
                ),
            old(self).spec_compacted().len() > 1 ==> {
                &&& final(self).spec_compacted().len() == 1
                &&& forall|i: int|
                    0 <= i < final(self).spec_compacted()[0].kv.len()
                        ==> (#[trigger] final(self).spec_compacted()[0].kv[i]).1 is Normal
                &&& forall|i: int|
                    0 <= i < final(self).spec_compacted()[0].expire.len()
                        ==> (#[trigger] final(self).spec_compacted()[0].expire[i]).1 is Normal
            },
    {
        if self.compacted.len() <= 1 {
            return ;
        }
        let newest = match self.compacted.newest() {
            Option::Some(d) => d.new_level(),
            Option::None => {
                proof {
                    assert(false);
                }
                vstd::pervasive::unreached()
            },
        };
        let mut data = newest;
        let merged_kv = self.compacted.merged_kv_map();
        let live_kv = filter_kv_tombstones(&merged_kv);
        data.replace_kv(live_kv);
        let merged_exp = self.compacted.merged_expire_map();
        let live_exp = filter_exp_tombstones(&merged_exp);
        data.replace_expire(live_exp);
        let ghost dv = data@;
        let mut levels: Vec<LevelData> = Vec::new();
        levels.push(data);
        let ghost lv = levels@;
        let single = StaticLeveledMap::new(levels);
        proof {
            assert(single@.len() == 1);
            assert(single@[0] == lv[0]@);
            assert(lv[0]@ == dv);
        }
        self.compacted = single;
        proof {
            assert(self.compacted@[0] == self.compacted@.last());
            assert forall|k: Seq<u8>| #[trigger]
                live_of(merged_kv_at(self.compacted@, k)) == live_of(
                    merged_kv_at(old(self).spec_compacted(), k),
                ) by {
                assert(merged_kv_at(self.compacted@, k) == match kv_lookup(dv.kv, k) {
                    Option::Some(v) => Option::Some(v),
                    Option::None => merged_kv_at(self.compacted@.drop_last(), k),
                });
                assert(self.compacted@.drop_last().len() == 0);
                assert(merged_kv_at(self.compacted@.drop_last(), k) is None);
            }
            assert forall|e: ExpireKey| #[trigger]
                live_of(merged_exp_at(self.compacted@, e)) == live_of(
                    merged_exp_at(old(self).spec_compacted(), e),
                ) by {
                assert(merged_exp_at(self.compacted@, e) == match exp_lookup(dv.expire, e) {
                    Option::Some(v) => Option::Some(v),
                    Option::None => merged_exp_at(self.compacted@.drop_last(), e),
                });
                assert(self.compacted@.drop_last().len() == 0);
                assert(merged_exp_at(self.compacted@.drop_last(), e) is None);
            }
            assert forall|i: int| 0 <= i < self.compacted@.len() implies {
                &&& crate::kv_map::kv_sorted((#[trigger] self.compacted@[i]).kv)
                &&& crate::expire_map::exp_sorted(self.compacted@[i].expire)
                &&& crate::node_map::node_sorted(self.compacted@[i].sys.nodes)
            } by {
                assert(self.compacted@[i] == dv);
                assert(crate::node_map::node_sorted(
                    old(self).spec_compacted().last().sys.nodes,
                ));
            }
        }
    }

    /// Export the whole snapshot as an entry stream in the fixed order.
    pub fn export(&self) -> (r: Vec<RaftStoreEntry>)
        requires
            self.wf(),
        ensures
            exists|kvs: Seq<KvPair>, exps: Seq<ExpPair>|
                {
                    &&& #[trigger] kv_sorted(kvs)
                    &&& #[trigger] exp_sorted(exps)
                    &&& (forall|i: int| 0 <= i < kvs.len() ==> (#[trigger] kvs[i]).1 is Normal)
                    &&& (forall|i: int| 0 <= i < exps.len() ==> (#[trigger] exps[i]).1 is Normal)
                    &&& (forall|k: Seq<u8>| #[trigger]
                        kv_lookup(kvs, k) == live_of(
                            merged_kv_at(self.spec_compacted(), k),
                        ))
                    &&& (forall|e: ExpireKey| #[trigger]
                        exp_lookup(exps, e) == live_of(
                            merged_exp_at(self.spec_compacted(), e),
                        ))
                    &&& r@.map_values(|x: RaftStoreEntry| x@) == export_entries(
                        self.spec_compacted().last().sys,
                        kvs,
                        exps,
                    )
                },
    {
        let d = match self.compacted.newest() {
            Option::Some(d) => d,
            Option::None => {
                proof {
                    assert(false);
                }
                vstd::pervasive::unreached()
            },
        };
        let merged_kv = self.compacted.merged_kv_map();
        let live_kv = filter_kv_tombstones(&merged_kv);
        let merged_exp = self.compacted.merged_expire_map();
        let live_exp = filter_exp_tombstones(&merged_exp);
        let ghost kvs = live_kv@;
        let ghost exps = live_exp@;
        let ghost sys = self.spec_compacted().last().sys;

        let mut r: Vec<RaftStoreEntry> = Vec::new();
        r.push(
            RaftStoreEntry::DataHeader { key: make_header_tag(), value: Header::this_version() },
        );
        match d.last_applied_ref() {
            Option::Some(l) => {
                r.push(
                    RaftStoreEntry::StateMachineMeta {
                        key: StateMachineMetaKey::LastApplied,
                        value: StateMachineMetaValue::LogIdValue(*l),
                    },
                );
            },
            Option::None => {},
        }
        r.push(
            RaftStoreEntry::StateMachineMeta {
                key: StateMachineMetaKey::LastMembership,
                value: StateMachineMetaValue::MembershipValue(d.last_membership_ref().dup()),
            },
        );
        r.push(
            RaftStoreEntry::Sequences { key: make_generic_kv_tag(), value: d.curr_seq() },
        );
        let ghost base = r@.map_values(|x: RaftStoreEntry| x@);

        let nodes = d.nodes_ref();
        let nn = nodes.len();
        let mut i: usize = 0;
        while i < nn
            invariant
                0 <= i <= nn == sys.nodes.len(),
                nodes@ == sys.nodes,
                r@.map_values(|x: RaftStoreEntry| x@) =~= base + sys.nodes.take(
                    i as int,
                ).map_values(|p: NodePair| (RaftStoreEntryV::Nodes { key: p.0, value: p.1 })),
            decreases nn - i,
        {
            let ghost rmap_pre = r@.map_values(|x: RaftStoreEntry| x@);
            let entry = nodes.entry_at(i);
            let node_entry = RaftStoreEntry::Nodes { key: entry.0, value: entry.1.dup() };
            let ghost nv = node_entry@;
            r.push(node_entry);
            proof {
                assert(nv == (RaftStoreEntryV::Nodes {
                    key: sys.nodes[i as int].0,
                    value: sys.nodes[i as int].1,
                }));
                assert(r@.map_values(|x: RaftStoreEntry| x@) =~= rmap_pre.push(nv));
                assert(sys.nodes.take(i as int + 1) =~= sys.nodes.take(i as int).push(
                    sys.nodes[i as int],
                ));
                assert(sys.nodes.take(i as int + 1).map_values(
                    |p: NodePair| (RaftStoreEntryV::Nodes { key: p.0, value: p.1 }),
                ) =~= sys.nodes.take(i as int).map_values(
                    |p: NodePair| (RaftStoreEntryV::Nodes { key: p.0, value: p.1 }),
                ).push(nv));
            }
            i = i + 1;
        }
        proof {
            assert(sys.nodes.take(nn as int) =~= sys.nodes);
        }
        let ghost base2 = base + sys.nodes.map_values(
            |p: NodePair| (RaftStoreEntryV::Nodes { key: p.0, value: p.1 }),
        );

        let kn = live_kv.len();
        let mut i: usize = 0;
        while i < kn
            invariant
                0 <= i <= kn == kvs.len(),
                live_kv@ == kvs,
                forall|l: int| 0 <= l < kvs.len() ==> (#[trigger] kvs[l]).1 is Normal,
                r@.map_values(|x: RaftStoreEntry| x@) =~= base2 + kvs.take(i as int).map_values(
                    |p: KvPair| kv_pair_entry(p),
                ),
            decreases kn - i,
        {
            let ghost rmap_pre = r@.map_values(|x: RaftStoreEntry| x@);
            let entry = live_kv.entry_at(i);
            match &entry.1 {
                Marked::Normal { internal_seq, value, meta } => {
                    let kv_entry = RaftStoreEntry::GenericKV {
                        key: crate::bytes_order::key_dup(&entry.0),
                        value: SeqV {
                            seq: *internal_seq,
                            meta: *meta,
                            data: crate::bytes_order::key_dup(value),
                        },
                    };
                    let ghost ev = kv_entry@;
                    r.push(kv_entry);
                    proof {
                        assert(ev == kv_pair_entry(kvs[i as int]));
                        assert(r@.map_values(|x: RaftStoreEntry| x@) =~= rmap_pre.push(ev));
                        assert(kvs.take(i as int + 1) =~= kvs.take(i as int).push(
                            kvs[i as int],
                        ));
                        assert(kvs.take(i as int + 1).map_values(
                            |p: KvPair| kv_pair_entry(p),
                        ) =~= kvs.take(i as int).map_values(|p: KvPair| kv_pair_entry(p)).push(
                            ev,
                        ));
                    }
                },
                Marked::TombStone { .. } => {
                    proof {
                        assert(kvs[i as int].1 is Normal);
                        assert(false);
                    }
                },
            }
            i = i + 1;
        }
        proof {
            assert(kvs.take(kn as int) =~= kvs);
        }
        let ghost base3 = base2 + kvs.map_values(|p: KvPair| kv_pair_entry(p));

        let en = live_exp.len();
        let mut i: usize = 0;
        while i < en
            invariant
                0 <= i <= en == exps.len(),
                live_exp@ == exps,
                forall|l: int| 0 <= l < exps.len() ==> (#[trigger] exps[l]).1 is Normal,
                r@.map_values(|x: RaftStoreEntry| x@) =~= base3 + exps.take(i as int).map_values(
                    |p: ExpPair| exp_pair_entry(p),
                ),
            decreases en - i,
        {
            let ghost rmap_pre = r@.map_values(|x: RaftStoreEntry| x@);
            let entry = live_exp.entry_at(i);
            match &entry.1 {
                Marked::Normal { internal_seq, value, meta } => {
                    let exp_entry = RaftStoreEntry::Expire {
                        key: entry.0,
                        value: ExpireValue {
                            seq: *internal_seq,
                            key: crate::bytes_order::key_dup(value),
                        },
                    };
                    let ghost ev = exp_entry@;
                    r.push(exp_entry);
                    proof {
                        assert(ev == exp_pair_entry(exps[i as int]));
                        assert(r@.map_values(|x: RaftStoreEntry| x@) =~= rmap_pre.push(ev));
                        assert(exps.take(i as int + 1) =~= exps.take(i as int).push(
                            exps[i as int],
                        ));
                        assert(exps.take(i as int + 1).map_values(
                            |p: ExpPair| exp_pair_entry(p),
                        ) =~= exps.take(i as int).map_values(|p: ExpPair| exp_pair_entry(p)).push(
                            ev,
                        ));
                    }
                },
                Marked::TombStone { .. } => {
                    proof {
                        assert(exps[i as int].1 is Normal);
                        assert(false);
                    }
                },
            }
            i = i + 1;
        }
        proof {
            assert(exps.take(en as int) =~= exps);
            assert(r@.map_values(|x: RaftStoreEntry| x@) =~= export_entries(sys, kvs, exps));
        }
        r
    }
}

} // verus!
