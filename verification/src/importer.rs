//! The importer: folds a stream of store entries into a fresh level.
//!
//! Log-related records are ignored; metadata, nodes, kv and expiration
//! records accumulate; on commit the greatest sequence number seen must not
//! exceed the imported counter, otherwise sequence numbers could be reused.

use vstd::prelude::*;

use crate::data_version::Header;
use crate::expire_map::exp_insert;
use crate::expire_map::ExpireMap;
use crate::expire_map::ExpPair;
use crate::kv_map::kv_insert;
use crate::kv_map::KvMap;
use crate::kv_map::KvPair;
use crate::level_data::LevelData;
use crate::level_data::SysDataV;
use crate::node_map::node_insert;
use crate::node_map::NodePair;
use crate::snapshot::RaftStoreEntry;
use crate::snapshot::RaftStoreEntryV;
use crate::snapshot::StateMachineMetaKey;
use crate::snapshot::StateMachineMetaValue;
use crate::snapshot::StateMachineMetaValueV;
use crate::types::LogId;
use crate::types::Marked;
use crate::types::MarkedV;
use crate::types::StoredMembershipV;

verus! {

/// Errors of importing a snapshot stream.
#[derive(Clone, PartialEq, Eq, Debug)]
pub enum ImportError {
    /// A legacy record kind that this state machine does not support.
    Unsupported,
    /// A metadata record carried a value of the wrong kind.
    CorruptMeta,
    /// The greatest imported sequence number exceeds the imported counter.
    SeqCounterBehind { greatest_seq: u64, curr_seq: u64 },
    /// The imported state violates the state-machine invariant.
    InvariantViolated,
}

/// Mathematical state of an import in progress.
pub struct ImporterV {
    pub sys_seq: u64,
    pub last_applied: Option<LogId>,
    pub last_membership: StoredMembershipV,
    pub nodes: Seq<NodePair>,
    pub kv: Seq<KvPair>,
    pub expire: Seq<ExpPair>,
    pub greatest_seq: u64,
}

/// Fold one entry into the import state; `None` marks a fatal record.
pub open spec fn import_one(s: ImporterV, e: RaftStoreEntryV) -> Option<ImporterV> {
    match e {
        RaftStoreEntryV::DataHeader { .. } => Option::Some(s),
        RaftStoreEntryV::Logs { .. } => Option::Some(s),
        RaftStoreEntryV::LogMeta { .. } => Option::Some(s),
        RaftStoreEntryV::RaftStateKV { .. } => Option::Some(s),
        RaftStoreEntryV::ClientLastResps { .. } => Option::None,
        RaftStoreEntryV::Nodes { key, value } => Option::Some(
            ImporterV { nodes: node_insert(s.nodes, key, value), ..s },
        ),
        RaftStoreEntryV::StateMachineMeta { key, value } => match key {
            StateMachineMetaKey::LastApplied => match value {
                StateMachineMetaValueV::LogIdValue(l) => Option::Some(
                    ImporterV { last_applied: Option::Some(l), ..s },
                ),
                _ => Option::None,
            },
            StateMachineMetaKey::Initialized => Option::Some(s),
            StateMachineMetaKey::LastMembership => match value {
                StateMachineMetaValueV::MembershipValue(m) => Option::Some(
                    ImporterV { last_membership: m, ..s },
                ),
                _ => Option::None,
            },
        },
        RaftStoreEntryV::Expire { key, value } => {
            let seq2 = if value.seq == 0 {
                1u64
            } else {
                value.seq
            };
            Option::Some(
                ImporterV {
                    greatest_seq: if seq2 > s.greatest_seq {
                        seq2
                    } else {
                        s.greatest_seq
                    },
                    expire: exp_insert(
                        s.expire,
                        key,
                        (MarkedV::Normal {
                            internal_seq: seq2,
                            value: value.key,
                            meta: Option::None,
                        }),
                    ),
                    ..s
                },
            )
        },
        RaftStoreEntryV::GenericKV { key, value } => Option::Some(
            ImporterV {
                greatest_seq: if value.seq > s.greatest_seq {
                    value.seq
                } else {
                    s.greatest_seq
                },
                kv: kv_insert(
                    s.kv,
                    key,
                    (MarkedV::Normal {
                        internal_seq: value.seq,
                        value: value.data,
                        meta: value.meta,
                    }),
                ),
                ..s
            },
        ),
        RaftStoreEntryV::Sequences { key: _, value } => Option::Some(
            ImporterV {
                sys_seq: if value > s.sys_seq {
                    value
                } else {
                    s.sys_seq
                },
                ..s
            },
        ),
    }
}

/// Fold a whole entry stream, stopping at the first fatal record.
pub open spec fn import_fold(s: ImporterV, entries: Seq<RaftStoreEntryV>) -> Option<ImporterV>
    decreases entries.len(),
{
    if entries.len() == 0 {
        Option::Some(s)
    } else {
        match import_one(s, entries[0]) {
            Option::Some(s2) => import_fold(s2, entries.skip(1)),
            Option::None => Option::None,
        }
    }
}

/// The initial import state.
pub open spec fn importer_init() -> ImporterV {
    ImporterV {
        sys_seq: 0,
        last_applied: Option::None,
        last_membership: StoredMembershipV {
            log_id: Option::None,
            membership: crate::types::MembershipV {
                configs: Seq::empty(),
                nodes: Seq::empty(),
            },
        },
        nodes: Seq::empty(),
        kv: Seq::empty(),
        expire: Seq::empty(),
        greatest_seq: 0,
    }
}

/// Folding distributes over concatenation.
pub proof fn lemma_import_fold_append(
    s: ImporterV,
    a: Seq<RaftStoreEntryV>,
    b: Seq<RaftStoreEntryV>,
)
    ensures
        import_fold(s, a + b) == match import_fold(s, a) {
            Option::Some(s2) => import_fold(s2, b),
            Option::None => Option::<ImporterV>::None,
        },
    decreases a.len(),
{
    if a.len() == 0 {
        assert(a + b =~= b);
    } else {
        assert((a + b)[0] == a[0]);
        assert((a + b).skip(1) =~= a.skip(1) + b);
        match import_one(s, a[0]) {
            Option::Some(s2) => {
                lemma_import_fold_append(s2, a.skip(1), b);
            },
            Option::None => {},
        }
    }
}

/// A container of temporary data imported into a fresh level.
pub struct Importer {
    level_data: LevelData,
    kv: KvMap,
    expire: ExpireMap,
    greatest_seq: u64,
}

/// Mathematical image of an [`Importer`].
impl View for Importer {
    type V = ImporterV;

    closed spec fn view(&self) -> ImporterV {
        ImporterV {
            sys_seq: self.level_data@.sys.seq,
            last_applied: self.level_data@.sys.last_applied,
            last_membership: self.level_data@.sys.last_membership,
            nodes: self.level_data@.sys.nodes,
            kv: self.kv@,
            expire: self.expire@,
            greatest_seq: self.greatest_seq,
        }
    }
}

impl Importer {
    /// Structural well-formedness of the accumulating maps.
    pub closed spec fn wf(self) -> bool {
        &&& self.kv.wf()
        &&& self.expire.wf()
        &&& self.level_data.wf()
        &&& self.level_data@.kv.len() == 0
        &&& self.level_data@.expire.len() == 0
    }

    pub fn new() -> (r: Importer)
        ensures
            r@ == importer_init(),
            r.wf(),
    {
        let r = Importer {
            level_data: LevelData::new(),
            kv: KvMap::new(),
            expire: ExpireMap::new(),
            greatest_seq: 0,
        };
        proof {
            assert(r@.nodes =~= importer_init().nodes);
            assert(r@.kv =~= importer_init().kv);
            assert(r@.expire =~= importer_init().expire);
            assert(r@.last_membership.membership.configs =~= Seq::<Seq<u64>>::empty());
            assert(r@.last_membership.membership.nodes =~= Seq::<u64>::empty());
        }
        r
    }

    /// Fold one entry into the import.
    pub fn import(&mut self, entry: RaftStoreEntry) -> (r: Result<(), ImportError>)
        requires
            old(self).wf(),
        ensures
            final(self).wf(),
            match import_one(old(self)@, entry@) {
                Option::Some(s2) => r is Ok && final(self)@ == s2,
                Option::None => r is Err && final(self)@ == old(self)@,
            },
    {
        match entry {
            RaftStoreEntry::DataHeader { .. } => Result::Ok(()),
            RaftStoreEntry::Logs { .. } => Result::Ok(()),
            RaftStoreEntry::LogMeta { .. } => Result::Ok(()),
            RaftStoreEntry::RaftStateKV { .. } => Result::Ok(()),
            RaftStoreEntry::ClientLastResps { .. } => Result::Err(ImportError::Unsupported),
            RaftStoreEntry::Nodes { key, value } => {
                self.level_data.sys.nodes.insert(key, value);
                Result::Ok(())
            },
            RaftStoreEntry::StateMachineMeta { key, value } => {
                match key {
                    StateMachineMetaKey::LastApplied => match value {
                        StateMachineMetaValue::LogIdValue(l) => {
                            self.level_data.sys.last_applied = Option::Some(l);
                            Result::Ok(())
                        },
                        _ => Result::Err(ImportError::CorruptMeta),
                    },
                    StateMachineMetaKey::Initialized => Result::Ok(()),
                    StateMachineMetaKey::LastMembership => match value {
                        StateMachineMetaValue::MembershipValue(m) => {
                            self.level_data.sys.last_membership = m;
                            Result::Ok(())
                        },
                        _ => Result::Err(ImportError::CorruptMeta),
                    },
                }
            },
            RaftStoreEntry::Expire { key, value } => {
                let seq2: u64 = if value.seq == 0 {
                    1
                } else {
                    value.seq
                };
                if seq2 > self.greatest_seq {
                    self.greatest_seq = seq2;
                }
                self.expire.insert(key, Marked::new_normal(seq2, value.key, Option::None));
                Result::Ok(())
            },
            RaftStoreEntry::GenericKV { key, value } => {
                if value.seq > self.greatest_seq {
                    self.greatest_seq = value.seq;
                }
                let m = Marked::new_normal(value.seq, value.data, value.meta);
                self.kv.insert(key, m);
                Result::Ok(())
            },
            RaftStoreEntry::Sequences { key: _, value } => {
                self.level_data.sys.update_seq(value);
                Result::Ok(())
            },
        }
    }

    /// Commit the import into a level.  Fails when the greatest imported
    /// sequence number exceeds the imported counter: committing would let
    /// sequence numbers be reused.
    pub fn commit(self) -> (r: Result<LevelData, ImportError>)
        requires
            self.wf(),
        ensures
            self@.greatest_seq <= self@.sys_seq <==> r is Ok,
            r matches Ok(d) ==> {
                &&& d@.kv == self@.kv
                &&& d@.expire == self@.expire
                &&& d@.sys.seq == self@.sys_seq
                &&& d@.sys.last_applied == self@.last_applied
                &&& d@.sys.last_membership == self@.last_membership
                &&& d@.sys.nodes == self@.nodes
                &&& d.wf()
            },
    {
        if self.greatest_seq > self.level_data.sys.curr_seq() {
            return Result::Err(
                ImportError::SeqCounterBehind {
                    greatest_seq: self.greatest_seq,
                    curr_seq: self.level_data.sys.seq,
                },
            );
        }
        let mut d = self.level_data;
        d.replace_kv(self.kv);
        d.replace_expire(self.expire);
        Result::Ok(d)
    }
}


/// Folding the node records of a sorted node table rebuilds the table.
proof fn lemma_import_nodes_rebuild(s: ImporterV, nodes: Seq<NodePair>, i: int)
    requires
        crate::node_map::node_sorted(nodes),
        0 <= i <= nodes.len(),
        s.nodes == nodes.take(i),
    ensures
        import_fold(
            s,
            nodes.skip(i).map_values(
                |p: NodePair| (RaftStoreEntryV::Nodes { key: p.0, value: p.1 }),
            ),
        ) matches Some(r) && r == (ImporterV { nodes: nodes, ..s }),
    decreases nodes.len() - i,
{
    let entries = nodes.skip(i).map_values(
        |p: NodePair| (RaftStoreEntryV::Nodes { key: p.0, value: p.1 }),
    );
    if i == nodes.len() {
        assert(entries.len() == 0);
        assert(s.nodes == nodes.take(nodes.len() as int));
        assert(nodes.take(nodes.len() as int) =~= nodes);
        assert(import_fold(s, entries) == Option::Some(s));
        assert(s =~= (ImporterV { nodes: nodes, ..s })) by {
            assert(s.nodes == nodes);
        }
    } else {
        assert(entries[0] == (RaftStoreEntryV::Nodes { key: nodes[i].0, value: nodes[i].1 }));
        assert(forall|l: int| 0 <= l < i ==> (#[trigger] nodes.take(i)[l]).0 == nodes[l].0);
        assert(forall|l: int| 0 <= l < i ==> (#[trigger] nodes.take(i)[l]).0 < nodes[i].0);
        crate::node_map::lemma_node_insert_at(nodes.take(i), nodes[i].0, nodes[i].1, i);
        assert(node_insert(nodes.take(i), nodes[i].0, nodes[i].1) == nodes.take(i).insert(
            i,
            (nodes[i].0, nodes[i].1),
        ));
        assert(nodes.take(i).insert(i, (nodes[i].0, nodes[i].1)) =~= nodes.take(i + 1)) by {
            assert((nodes[i].0, nodes[i].1) == nodes[i]);
        }
        let s2 = ImporterV { nodes: nodes.take(i + 1), ..s };
        assert(import_one(s, entries[0]) == Option::Some(s2));
        assert(entries.skip(1) =~= nodes.skip(i + 1).map_values(
            |p: NodePair| (RaftStoreEntryV::Nodes { key: p.0, value: p.1 }),
        )) by {
            assert forall|l: int| 0 <= l < entries.skip(1).len() implies entries.skip(1)[l]
                == nodes.skip(i + 1).map_values(
                |p: NodePair| (RaftStoreEntryV::Nodes { key: p.0, value: p.1 }),
            )[l] by {
                assert(entries.skip(1)[l] == entries[l + 1]);
                assert(nodes.skip(i)[l + 1] == nodes[i + 1 + l]);
                assert(nodes.skip(i + 1)[l] == nodes[i + 1 + l]);
            }
        }
        lemma_import_nodes_rebuild(s2, nodes, i + 1);
    }
}

/// Folding the kv records of a sorted, live, bounded primary index rebuilds
/// the index.
proof fn lemma_import_kvs_rebuild(s: ImporterV, kvs: Seq<KvPair>, i: int, cap: u64)
    requires
        crate::kv_map::kv_sorted(kvs),
        0 <= i <= kvs.len(),
        s.kv == kvs.take(i),
        forall|l: int|
            0 <= l < kvs.len() ==> ((#[trigger] kvs[l]).1 is Normal && 1
                <= crate::types::marked_seq(kvs[l].1) <= cap),
        s.greatest_seq <= cap,
    ensures
        import_fold(s, kvs.skip(i).map_values(|p: KvPair| crate::snapshot::kv_pair_entry(p)))
            matches Some(r) && {
            &&& r.sys_seq == s.sys_seq
            &&& r.last_applied == s.last_applied
            &&& r.last_membership == s.last_membership
            &&& r.nodes == s.nodes
            &&& r.expire == s.expire
            &&& r.kv == kvs
            &&& s.greatest_seq <= r.greatest_seq <= cap
        },
    decreases kvs.len() - i,
{
    let entries = kvs.skip(i).map_values(|p: KvPair| crate::snapshot::kv_pair_entry(p));
    if i == kvs.len() {
        assert(entries.len() == 0);
        assert(kvs.take(kvs.len() as int) =~= kvs);
        assert(import_fold(s, entries) == Option::Some(s));
    } else {
        assert(entries[0] == crate::snapshot::kv_pair_entry(kvs[i]));
        assert(kvs[i].1 is Normal);
        let m = kvs[i].1;
        match m {
            MarkedV::Normal { internal_seq, value, meta } => {
                assert(entries[0] == (RaftStoreEntryV::GenericKV {
                    key: kvs[i].0,
                    value: crate::types::SeqVV { seq: internal_seq, meta, data: value },
                }));
                assert(forall|l: int|
                    0 <= l < i ==> crate::bytes_order::lex_lt(
                        (#[trigger] kvs.take(i)[l]).0,
                        kvs[i].0,
                    ));
                if i < kvs.len() && kvs.take(i).len() > 0 {
                }
                crate::kv_map::lemma_kv_insert_at(kvs.take(i), kvs[i].0, m, i);
                assert(kv_insert(kvs.take(i), kvs[i].0, m) == kvs.take(i).insert(
                    i,
                    (kvs[i].0, m),
                )) by {
                    if i < kvs.take(i).len() {
                    }
                    assert(!(i < kvs.take(i).len() && kvs.take(i)[i].0 == kvs[i].0));
                }
                assert(kvs.take(i).insert(i, (kvs[i].0, m)) =~= kvs.take(i + 1)) by {
                    assert((kvs[i].0, m) == kvs[i]);
                }
                let g2 = if internal_seq > s.greatest_seq {
                    internal_seq
                } else {
                    s.greatest_seq
                };
                let s2 = ImporterV { greatest_seq: g2, kv: kvs.take(i + 1), ..s };
                assert(import_one(s, entries[0]) == Option::Some(s2));
                assert(entries.skip(1) =~= kvs.skip(i + 1).map_values(
                    |p: KvPair| crate::snapshot::kv_pair_entry(p),
                )) by {
                    assert forall|l: int| 0 <= l < entries.skip(1).len() implies entries.skip(
                        1,
                    )[l] == kvs.skip(i + 1).map_values(
                        |p: KvPair| crate::snapshot::kv_pair_entry(p),
                    )[l] by {
                        assert(entries.skip(1)[l] == entries[l + 1]);
                        assert(kvs.skip(i)[l + 1] == kvs[i + 1 + l]);
                        assert(kvs.skip(i + 1)[l] == kvs[i + 1 + l]);
                    }
                }
                assert(crate::types::marked_seq(kvs[i].1) <= cap);
                lemma_import_kvs_rebuild(s2, kvs, i + 1, cap);
            },
            MarkedV::TombStone { .. } => {
                assert(false);
            },
        }
    }
}

/// Folding the expiration records of a sorted, live, bounded expiration
/// index rebuilds the index.
proof fn lemma_import_exps_rebuild(s: ImporterV, exps: Seq<ExpPair>, i: int, cap: u64)
    requires
        crate::expire_map::exp_sorted(exps),
        0 <= i <= exps.len(),
        s.expire == exps.take(i),
        forall|l: int|
            0 <= l < exps.len() ==> ((#[trigger] exps[l]).1 matches MarkedV::Normal {
                internal_seq,
                value,
                meta,
            } && meta is None && 1 <= internal_seq <= cap),
        s.greatest_seq <= cap,
    ensures
        import_fold(s, exps.skip(i).map_values(|p: ExpPair| crate::snapshot::exp_pair_entry(p)))
            matches Some(r) && {
            &&& r.sys_seq == s.sys_seq
            &&& r.last_applied == s.last_applied
            &&& r.last_membership == s.last_membership
            &&& r.nodes == s.nodes
            &&& r.kv == s.kv
            &&& r.expire == exps
            &&& s.greatest_seq <= r.greatest_seq <= cap
        },
    decreases exps.len() - i,
{
    let entries = exps.skip(i).map_values(|p: ExpPair| crate::snapshot::exp_pair_entry(p));
    if i == exps.len() {
        assert(entries.len() == 0);
        assert(exps.take(exps.len() as int) =~= exps);
        assert(import_fold(s, entries) == Option::Some(s));
    } else {
        assert(entries[0] == crate::snapshot::exp_pair_entry(exps[i]));
        let m = exps[i].1;
        match m {
            MarkedV::Normal { internal_seq, value, meta } => {
                assert(meta is None);
                assert(entries[0] == (RaftStoreEntryV::Expire {
                    key: exps[i].0,
                    value: crate::types::ExpireValueV { seq: internal_seq, key: value },
                }));
                assert(internal_seq >= 1);
                assert(forall|l: int|
                    0 <= l < i ==> crate::types::expire_key_lt(
                        (#[trigger] exps.take(i)[l]).0,
                        exps[i].0,
                    ));
                crate::expire_map::lemma_exp_insert_at(exps.take(i), exps[i].0, m, i);
                assert(exp_insert(exps.take(i), exps[i].0, m) == exps.take(i).insert(
                    i,
                    (exps[i].0, m),
                )) by {
                    assert(!(i < exps.take(i).len() && exps.take(i)[i].0 == exps[i].0));
                }
                assert(exps.take(i).insert(i, (exps[i].0, m)) =~= exps.take(i + 1)) by {
                    assert((exps[i].0, m) == exps[i]);
                }
                let g2 = if internal_seq > s.greatest_seq {
                    internal_seq
                } else {
                    s.greatest_seq
                };
                let s2 = ImporterV { greatest_seq: g2, expire: exps.take(i + 1), ..s };
                assert(import_one(s, entries[0]) == Option::Some(s2));
                assert(entries.skip(1) =~= exps.skip(i + 1).map_values(
                    |p: ExpPair| crate::snapshot::exp_pair_entry(p),
                )) by {
                    assert forall|l: int| 0 <= l < entries.skip(1).len() implies entries.skip(
                        1,
                    )[l] == exps.skip(i + 1).map_values(
                        |p: ExpPair| crate::snapshot::exp_pair_entry(p),
                    )[l] by {
                        assert(entries.skip(1)[l] == entries[l + 1]);
                        assert(exps.skip(i)[l + 1] == exps[i + 1 + l]);
                        assert(exps.skip(i + 1)[l] == exps[i + 1 + l]);
                    }
                }
                lemma_import_exps_rebuild(s2, exps, i + 1, cap);
            },
            MarkedV::TombStone { .. } => {
                assert(false);
            },
        }
    }
}

/// The snapshot round trip: importing what `export` produced for a
/// system-data block and its live, sorted indexes rebuilds exactly the same
/// state — same kv index, same expiration index, same nodes, same last
/// applied log id, same membership, same sequence counter — and the commit
/// check passes, since no imported sequence number exceeds the counter.
pub proof fn lemma_export_import_identity(
    sys: SysDataV,
    kvs: Seq<KvPair>,
    exps: Seq<ExpPair>,
)
    requires
        crate::node_map::node_sorted(sys.nodes),
        crate::kv_map::kv_sorted(kvs),
        crate::expire_map::exp_sorted(exps),
        forall|l: int|
            0 <= l < kvs.len() ==> ((#[trigger] kvs[l]).1 is Normal && 1
                <= crate::types::marked_seq(kvs[l].1) <= sys.seq),
        forall|l: int|
            0 <= l < exps.len() ==> ((#[trigger] exps[l]).1 matches MarkedV::Normal {
                internal_seq,
                value,
                meta,
            } && meta is None && 1 <= internal_seq <= sys.seq),
    ensures
        import_fold(importer_init(), crate::snapshot::export_entries(sys, kvs, exps))
            matches Some(r) && {
            &&& r.sys_seq == sys.seq
            &&& r.last_applied == sys.last_applied
            &&& r.last_membership == sys.last_membership
            &&& r.nodes == sys.nodes
            &&& r.kv == kvs
            &&& r.expire == exps
            &&& r.greatest_seq <= r.sys_seq
        },
{
    let s0 = importer_init();
    let head = seq![
        (RaftStoreEntryV::DataHeader {
            key: crate::snapshot::header_tag(),
            value: Header {
                version: crate::data_version::DataVersion::V003,
                upgrading: Option::None,
            },
        }),
    ];
    let applied: Seq<RaftStoreEntryV> = match sys.last_applied {
        Option::Some(l) => seq![
            (RaftStoreEntryV::StateMachineMeta {
                key: StateMachineMetaKey::LastApplied,
                value: StateMachineMetaValueV::LogIdValue(l),
            }),
        ],
        Option::None => Seq::empty(),
    };
    let membership = seq![
        (RaftStoreEntryV::StateMachineMeta {
            key: StateMachineMetaKey::LastMembership,
            value: StateMachineMetaValueV::MembershipValue(sys.last_membership),
        }),
    ];
    let sequences = seq![
        (RaftStoreEntryV::Sequences { key: crate::snapshot::generic_kv_tag(), value: sys.seq }),
    ];
    let nodes_e = sys.nodes.map_values(
        |p: NodePair| (RaftStoreEntryV::Nodes { key: p.0, value: p.1 }),
    );
    let kv_e = kvs.map_values(|p: KvPair| crate::snapshot::kv_pair_entry(p));
    let exp_e = exps.map_values(|p: ExpPair| crate::snapshot::exp_pair_entry(p));
    let all = crate::snapshot::export_entries(sys, kvs, exps);
    assert(all == head + applied + membership + sequences + nodes_e + kv_e + exp_e);

    let s1 = s0;
    assert(import_fold(s0, head) == Option::Some(s1)) by {
        assert(head.skip(1) =~= Seq::<RaftStoreEntryV>::empty());
    }
    let s2 = ImporterV { last_applied: sys.last_applied, ..s1 };
    assert(import_fold(s1, applied) == Option::Some(s2)) by {
        match sys.last_applied {
            Option::Some(l) => {
                assert(applied[0] == (RaftStoreEntryV::StateMachineMeta {
                    key: StateMachineMetaKey::LastApplied,
                    value: StateMachineMetaValueV::LogIdValue(l),
                }));
                assert(import_one(s1, applied[0]) == Option::Some(s2));
                assert(applied.skip(1) =~= Seq::<RaftStoreEntryV>::empty());
                assert(import_fold(s2, applied.skip(1)) == Option::Some(s2));
            },
            Option::None => {
                assert(applied.len() == 0);
                assert(import_fold(s1, applied) == Option::Some(s1));
                assert(s1 == s2);
            },
        }
    }
    let s3 = ImporterV { last_membership: sys.last_membership, ..s2 };
    assert(import_fold(s2, membership) == Option::Some(s3)) by {
        assert(membership[0] == (RaftStoreEntryV::StateMachineMeta {
            key: StateMachineMetaKey::LastMembership,
            value: StateMachineMetaValueV::MembershipValue(sys.last_membership),
        }));
        assert(import_one(s2, membership[0]) == Option::Some(s3));
        assert(membership.skip(1) =~= Seq::<RaftStoreEntryV>::empty());
        assert(import_fold(s3, membership.skip(1)) == Option::Some(s3));
    }
    let s4 = ImporterV { sys_seq: sys.seq, ..s3 };
    assert(import_fold(s3, sequences) == Option::Some(s4)) by {
        assert(sequences[0] == (RaftStoreEntryV::Sequences {
            key: crate::snapshot::generic_kv_tag(),
            value: sys.seq,
        }));
        assert(import_one(s3, sequences[0]) == Option::Some(s4));
        assert(sequences.skip(1) =~= Seq::<RaftStoreEntryV>::empty());
        assert(import_fold(s4, sequences.skip(1)) == Option::Some(s4));
    }
    assert(s4.nodes == sys.nodes.take(0)) by {
        assert(sys.nodes.take(0) =~= Seq::<NodePair>::empty());
    }
    assert(sys.nodes.skip(0) =~= sys.nodes);
    lemma_import_nodes_rebuild(s4, sys.nodes, 0);
    let s5 = ImporterV { nodes: sys.nodes, ..s4 };
    assert(import_fold(s4, nodes_e) == Option::Some(s5)) by {
        assert(sys.nodes.skip(0).map_values(
            |p: NodePair| (RaftStoreEntryV::Nodes { key: p.0, value: p.1 }),
        ) =~= nodes_e);
        assert(import_fold(s4, nodes_e) matches Some(r) && r == s5);
    }
    assert(s5.kv == kvs.take(0)) by {
        assert(kvs.take(0) =~= Seq::<KvPair>::empty());
    }
    assert(kvs.skip(0).map_values(|p: KvPair| crate::snapshot::kv_pair_entry(p)) =~= kv_e);
    lemma_import_kvs_rebuild(s5, kvs, 0, sys.seq);
    let s6 = choose|s6: ImporterV| import_fold(s5, kv_e) == Option::Some(s6);
    assert(import_fold(s5, kv_e) == Option::Some(s6));
    assert(s6.expire == exps.take(0)) by {
        assert(exps.take(0) =~= Seq::<ExpPair>::empty());
    }
    assert(exps.skip(0).map_values(|p: ExpPair| crate::snapshot::exp_pair_entry(p)) =~= exp_e);
    lemma_import_exps_rebuild(s6, exps, 0, sys.seq);
    let s7 = choose|s7: ImporterV| import_fold(s6, exp_e) == Option::Some(s7);
    assert(import_fold(s6, exp_e) == Option::Some(s7));

    lemma_import_fold_append(s0, head, applied + membership + sequences + nodes_e + kv_e + exp_e);
    lemma_import_fold_append(s1, applied, membership + sequences + nodes_e + kv_e + exp_e);
    lemma_import_fold_append(s2, membership, sequences + nodes_e + kv_e + exp_e);
    lemma_import_fold_append(s3, sequences, nodes_e + kv_e + exp_e);
    lemma_import_fold_append(s4, nodes_e, kv_e + exp_e);
    lemma_import_fold_append(s5, kv_e, exp_e);
    assert(head + (applied + membership + sequences + nodes_e + kv_e + exp_e) =~= all);
    assert(applied + (membership + sequences + nodes_e + kv_e + exp_e) =~= applied + membership
        + sequences + nodes_e + kv_e + exp_e);
    assert(membership + (sequences + nodes_e + kv_e + exp_e) =~= membership + sequences + nodes_e
        + kv_e + exp_e);
    assert(sequences + (nodes_e + kv_e + exp_e) =~= sequences + nodes_e + kv_e + exp_e);
    assert(nodes_e + (kv_e + exp_e) =~= nodes_e + kv_e + exp_e);
    assert(import_fold(s0, all) == Option::Some(s7));
}

} // verus!
