use raft_store::applier::ApplierV003;
use raft_store::applier::ApplyError;
use raft_store::cmd::Change;
use raft_store::cmd::Cmd;
use raft_store::cmd::Entry;
use raft_store::cmd::EntryPayload;
use raft_store::cmd::LogEntry;
use raft_store::cmd::MatchSeq;
use raft_store::cmd::Operation;
use raft_store::cmd::UpsertKV;
use raft_store::cmd::AppliedState;
use raft_store::data_version::DataVersion;
use raft_store::data_version::Header;
use raft_store::ondisk::OnDisk;
use raft_store::ondisk::OnDiskStore;
use raft_store::ondisk::StorageError;
use raft_store::ondisk::StoreRecord;
use raft_store::ondisk::StoreTree;
use raft_store::sm::ChangeCollector;
use raft_store::sm::SMV003;
use raft_store::snapshot::RaftStoreEntry;
use raft_store::snapshot::StateMachineMetaKey;
use raft_store::snapshot::StateMachineMetaValue;
use raft_store::txn::CondTarget;
use raft_store::txn::CmpOp;
use raft_store::txn::TxnCondition;
use raft_store::txn::TxnOp;
use raft_store::txn::TxnOpResponse;
use raft_store::txn::TxnRequest;
use raft_store::types::ExpireKey;
use raft_store::types::LogId;
use raft_store::types::SeqV;

fn b(s: &str) -> Vec<u8> {
    s.as_bytes().to_vec()
}

fn log_id(term: u64, node_id: u64, index: u64) -> LogId {
    LogId { term, node_id, index }
}

fn upsert_entry(lid: LogId, time_ms: u64, up: UpsertKV) -> Entry {
    Entry {
        log_id: lid,
        payload: EntryPayload::Normal(LogEntry {
            time_ms: Some(time_ms),
            cmd: Cmd::UpsertKV(up),
        }),
    }
}

fn txn_entry(lid: LogId, time_ms: u64, txn: TxnRequest) -> Entry {
    Entry {
        log_id: lid,
        payload: EntryPayload::Normal(LogEntry {
            time_ms: Some(time_ms),
            cmd: Cmd::Transaction(txn),
        }),
    }
}

#[test]
fn insert_read_delete() {
    let mut sm = SMV003::new();
    let mut applier = ApplierV003::new();

    let e1 = upsert_entry(log_id(1, 1, 1), 100, UpsertKV::update(b("a"), b("v1")));
    applier.apply(&mut sm, &e1).unwrap();
    assert_eq!(
        sm.get_kv(&b("a")),
        Some(SeqV { seq: 1, meta: None, data: b("v1") })
    );

    let e2 = upsert_entry(log_id(1, 1, 2), 101, UpsertKV::delete(b("a")));
    applier.apply(&mut sm, &e2).unwrap();
    assert_eq!(sm.get_kv(&b("a")), None);
    assert_eq!(sm.curr_seq(), 2);
}

#[test]
fn no_event_when_the_value_did_not_change() {
    let mut sm = SMV003::new();
    sm.set_subscriber(ChangeCollector::new());
    let mut applier = ApplierV003::new();

    // Deleting an absent key leaves the value unchanged (None to None), so
    // no change event may be emitted.
    let e1 = upsert_entry(log_id(1, 1, 1), 100, UpsertKV::delete(b("missing")));
    applier.apply(&mut sm, &e1).unwrap();
    let collector = sm.take_subscriber().unwrap();
    assert_eq!(collector.received.len(), 0);

    // A real write emits exactly one event carrying the key.  The silent
    // delete above still consumed sequence number 1 for its tombstone.
    sm.set_subscriber(ChangeCollector::new());
    let e2 = upsert_entry(log_id(1, 1, 2), 101, UpsertKV::update(b("a"), b("v1")));
    applier.apply(&mut sm, &e2).unwrap();
    let collector = sm.take_subscriber().unwrap();
    assert_eq!(collector.received.len(), 1);
    assert_eq!(collector.received[0].ident, Some(b("a")));
    assert_eq!(collector.received[0].prev, None);
    assert_eq!(
        collector.received[0].result,
        Some(SeqV { seq: 2, meta: None, data: b("v1") })
    );
}

#[test]
fn expiration_sweep() {
    let mut sm = SMV003::new();
    sm.set_subscriber(ChangeCollector::new());
    let mut applier = ApplierV003::new();
    assert_eq!(sm.expire_cursor(), ExpireKey::new(0, 0));

    let e1 = upsert_entry(
        log_id(1, 1, 1),
        1_000,
        UpsertKV::update(b("b"), b("b0")).with_expire_ms(5_000),
    );
    applier.apply(&mut sm, &e1).unwrap();
    assert_eq!(sm.get_kv(&b("b")).unwrap().seq, 1);

    // Any later entry first sweeps everything due at its time, inclusively.
    let e2 = upsert_entry(log_id(1, 1, 2), 6_000, UpsertKV::update(b("x"), b("x0")));
    applier.apply(&mut sm, &e2).unwrap();

    assert_eq!(sm.get_kv(&b("b")), None);
    assert_eq!(sm.expire_cursor(), ExpireKey::new(6_000, 0));

    let collector = sm.take_subscriber().unwrap();
    let expired_event: Vec<&Change> = collector
        .received
        .iter()
        .filter(|c| c.ident == Some(b("b")) && c.result.is_none())
        .collect();
    assert_eq!(expired_event.len(), 1);
    assert_eq!(expired_event[0].prev.as_ref().unwrap().seq, 1);
    assert_eq!(expired_event[0].prev.as_ref().unwrap().data, b("b0"));
}

#[test]
fn expiration_is_inclusive_at_the_boundary() {
    let mut sm = SMV003::new();
    let mut applier = ApplierV003::new();

    let e1 = upsert_entry(
        log_id(1, 1, 1),
        100,
        UpsertKV::update(b("k"), b("v")).with_expire_ms(5_000),
    );
    applier.apply(&mut sm, &e1).unwrap();

    // expire_at_ms == entry.time_ms counts as expired.
    let e2 = upsert_entry(log_id(1, 1, 2), 5_000, UpsertKV::update(b("y"), b("y0")));
    applier.apply(&mut sm, &e2).unwrap();
    assert_eq!(sm.get_kv(&b("k")), None);
}

#[test]
fn transaction_conditional_update() {
    let mut sm = SMV003::new();
    let mut applier = ApplierV003::new();

    // Burn four sequence numbers, then write x = "A" at seq 5.
    for i in 0..4u64 {
        let e = upsert_entry(
            log_id(1, 1, i + 1),
            10,
            UpsertKV::update(vec![b'z', b'0' + (i as u8)], b("f")),
        );
        applier.apply(&mut sm, &e).unwrap();
    }
    let e = upsert_entry(log_id(1, 1, 5), 10, UpsertKV::update(b("x"), b("A")));
    applier.apply(&mut sm, &e).unwrap();
    assert_eq!(sm.get_kv(&b("x")).unwrap().seq, 5);

    let txn = TxnRequest {
        condition: vec![TxnCondition {
            key: b("x"),
            expected: CmpOp::Eq,
            target: Some(CondTarget::CmpSeq { value: 5 }),
        }],
        if_then: vec![TxnOp::Put {
            key: b("x"),
            value: b("B"),
            expire_at_ms: None,
            prev_value: true,
        }],
        else_then: vec![TxnOp::Put {
            key: b("x"),
            value: b("C"),
            expire_at_ms: None,
            prev_value: true,
        }],
    };
    let r = applier.apply(&mut sm, &txn_entry(log_id(1, 1, 6), 11, txn)).unwrap();

    match r {
        AppliedState::TxnReply(reply) => {
            assert!(reply.success);
            assert_eq!(reply.responses.len(), 1);
        },
        other => panic!("unexpected applied state: {:?}", other),
    }
    let x = sm.get_kv(&b("x")).unwrap();
    assert_eq!(x.seq, 6);
    assert_eq!(x.data, b("B"));
}

#[test]
fn delete_by_prefix() {
    let mut sm = SMV003::new();
    sm.set_subscriber(ChangeCollector::new());
    let mut applier = ApplierV003::new();

    for (i, k) in ["a/1", "a/2", "b/1"].iter().enumerate() {
        let e = upsert_entry(
            log_id(1, 1, (i as u64) + 1),
            10,
            UpsertKV::update(b(k), b("v")),
        );
        applier.apply(&mut sm, &e).unwrap();
    }

    let txn = TxnRequest {
        condition: vec![],
        if_then: vec![TxnOp::DeleteByPrefix { prefix: b("a/") }],
        else_then: vec![],
    };
    let r = applier.apply(&mut sm, &txn_entry(log_id(1, 1, 4), 11, txn)).unwrap();

    match r {
        AppliedState::TxnReply(reply) => {
            assert!(reply.success);
            assert_eq!(reply.responses.len(), 1);
            match &reply.responses[0] {
                TxnOpResponse::DeleteByPrefix { prefix, count } => {
                    assert_eq!(prefix, &b("a/"));
                    assert_eq!(*count, 2);
                },
                other => panic!("unexpected response: {:?}", other),
            }
        },
        other => panic!("unexpected applied state: {:?}", other),
    }

    assert_eq!(sm.get_kv(&b("a/1")), None);
    assert_eq!(sm.get_kv(&b("a/2")), None);
    assert!(sm.get_kv(&b("b/1")).is_some());

    // Two change events, in scanned-key order.
    let collector = sm.take_subscriber().unwrap();
    let deleted: Vec<&Change> = collector
        .received
        .iter()
        .filter(|c| c.result.is_none())
        .collect();
    assert_eq!(deleted.len(), 2);
    assert_eq!(deleted[0].ident, Some(b("a/1")));
    assert_eq!(deleted[1].ident, Some(b("a/2")));
}

#[test]
fn delete_by_empty_prefix_deletes_all_keys() {
    let mut sm = SMV003::new();
    let mut applier = ApplierV003::new();

    for (i, k) in ["a", "b", "c"].iter().enumerate() {
        let e = upsert_entry(
            log_id(1, 1, (i as u64) + 1),
            10,
            UpsertKV::update(b(k), b("v")),
        );
        applier.apply(&mut sm, &e).unwrap();
    }

    let txn = TxnRequest {
        condition: vec![],
        if_then: vec![TxnOp::DeleteByPrefix { prefix: b("") }],
        else_then: vec![],
    };
    applier.apply(&mut sm, &txn_entry(log_id(1, 1, 4), 11, txn)).unwrap();

    assert_eq!(sm.get_kv(&b("a")), None);
    assert_eq!(sm.get_kv(&b("b")), None);
    assert_eq!(sm.get_kv(&b("c")), None);
}

#[test]
fn match_seq_exact_zero_matches_only_absent_keys() {
    let mut sm = SMV003::new();

    // On an absent key, Exact(0) matches and the write happens.
    let up = UpsertKV::update(b("n"), b("v0")).with_match_seq(MatchSeq::Exact(0));
    let (prev, result) = sm.upsert_kv(&up);
    assert_eq!(prev, None);
    assert_eq!(result.unwrap().seq, 1);

    // On a present key, Exact(0) does not match: the write is a no-op.
    let up = UpsertKV::update(b("n"), b("v1")).with_match_seq(MatchSeq::Exact(0));
    let (prev, result) = sm.upsert_kv(&up);
    assert_eq!(prev.as_ref().unwrap().seq, 1);
    assert_eq!(result.unwrap(), prev.unwrap());
    assert_eq!(sm.get_kv(&b("n")).unwrap().data, b("v0"));
}

#[test]
fn reapplying_an_old_log_id_is_rejected() {
    let mut sm = SMV003::new();
    let mut applier = ApplierV003::new();

    let e = upsert_entry(log_id(2, 2, 5), 10, UpsertKV::update(b("a"), b("v")));
    applier.apply(&mut sm, &e).unwrap();

    let stale = upsert_entry(log_id(2, 2, 5), 11, UpsertKV::update(b("a"), b("w")));
    let r = applier.apply(&mut sm, &stale);
    assert!(matches!(r, Err(ApplyError::RejectedLogId { .. })));
    assert_eq!(sm.get_kv(&b("a")).unwrap().data, b("v"));

    let older = upsert_entry(log_id(2, 2, 4), 12, UpsertKV::update(b("a"), b("w")));
    assert!(applier.apply(&mut sm, &older).is_err());
}

#[test]
fn install_snapshot_skips_non_newer_state() {
    let mut sm = SMV003::new();
    let mut applier = ApplierV003::new();
    let e = upsert_entry(log_id(2, 2, 2), 10, UpsertKV::update(b("a"), b("v")));
    applier.apply(&mut sm, &e).unwrap();

    // A snapshot whose last applied id is not newer is skipped.
    let older = vec![
        RaftStoreEntry::StateMachineMeta {
            key: StateMachineMetaKey::LastApplied,
            value: StateMachineMetaValue::LogIdValue(log_id(1, 1, 1)),
        },
        RaftStoreEntry::Sequences { key: b("generic-kv"), value: 9 },
        RaftStoreEntry::GenericKV {
            key: b("z"),
            value: SeqV { seq: 9, meta: None, data: b("zz") },
        },
    ];
    assert_eq!(sm.install_snapshot(older), Ok(false));
    assert_eq!(sm.get_kv(&b("z")), None);
    assert_eq!(sm.get_kv(&b("a")).unwrap().data, b("v"));

    // A newer snapshot replaces the whole state.
    let newer = vec![
        RaftStoreEntry::StateMachineMeta {
            key: StateMachineMetaKey::LastApplied,
            value: StateMachineMetaValue::LogIdValue(log_id(3, 3, 3)),
        },
        RaftStoreEntry::Sequences { key: b("generic-kv"), value: 9 },
        RaftStoreEntry::GenericKV {
            key: b("z"),
            value: SeqV { seq: 9, meta: None, data: b("zz") },
        },
    ];
    assert_eq!(sm.install_snapshot(newer), Ok(true));
    assert_eq!(sm.get_kv(&b("a")), None);
    assert_eq!(sm.get_kv(&b("z")).unwrap().data, b("zz"));
    assert_eq!(sm.expire_cursor(), ExpireKey::new(0, 0));
}

#[test]
fn install_snapshot_rejects_corrupt_streams() {
    let mut sm = SMV003::new();

    // A legacy record kind is fatal.
    let legacy = vec![RaftStoreEntry::ClientLastResps { key: b("c") }];
    assert!(sm.install_snapshot(legacy).is_err());

    // A sequence counter behind the greatest record seq is fatal.
    let behind = vec![
        RaftStoreEntry::Sequences { key: b("generic-kv"), value: 1 },
        RaftStoreEntry::GenericKV {
            key: b("z"),
            value: SeqV { seq: 9, meta: None, data: b("zz") },
        },
    ];
    assert!(sm.install_snapshot(behind).is_err());

    // An orphan expiration entry violates the index coupling.
    let orphan = vec![
        RaftStoreEntry::Sequences { key: b("generic-kv"), value: 9 },
        RaftStoreEntry::Expire {
            key: ExpireKey::new(5_000, 3),
            value: raft_store::types::ExpireValue::new(b("ghost"), 3),
        },
    ];
    assert!(sm.install_snapshot(orphan).is_err());
}

#[test]
fn snapshot_round_trip_preserves_everything() {
    let mut sm = SMV003::new();
    let mut applier = ApplierV003::new();
    let ups = [
        UpsertKV::update(b("k1"), b("v1")),
        UpsertKV::update(b("k2"), b("v2")),
        UpsertKV::update(b("k3"), b("v3")).with_expire_ms(99_000),
    ];
    for (i, up) in ups.into_iter().enumerate() {
        let e = upsert_entry(log_id(1, 1, (i as u64) + 1), 10, up);
        applier.apply(&mut sm, &e).unwrap();
    }

    let mut view = sm.full_snapshot_view();
    view.compact_mem_levels();
    let exported = view.export();

    let d = SMV003::import(exported.clone()).unwrap();
    let mut levels = Vec::new();
    levels.push(d);
    let view2 = raft_store::snapshot::SnapshotViewV003::new(
        raft_store::leveled_map::StaticLeveledMap::new(levels),
    );
    let re_exported = view2.export();
    assert_eq!(re_exported, exported);
}

fn sample_tree(name: &str, gen: DataVersion) -> StoreTree {
    StoreTree {
        name: b(name),
        records: vec![
            StoreRecord {
                generation: gen,
                entry: RaftStoreEntry::GenericKV {
                    key: b("a"),
                    value: SeqV { seq: 1, meta: None, data: b("x") },
                },
            },
            StoreRecord {
                generation: gen,
                entry: RaftStoreEntry::Sequences { key: b("generic-kv"), value: 1 },
            },
        ],
    }
}

#[test]
fn upgrade_v0_to_v001_re_encodes_every_record() {
    let mut store = OnDiskStore::new();
    store.trees.push(sample_tree("logs", DataVersion::V0));
    store.trees.push(sample_tree("kv", DataVersion::V0));

    let mut od = OnDisk::open(&mut store).unwrap();
    assert_eq!(od.header, Header { version: DataVersion::V0, upgrading: None });

    od.upgrade_v0_to_v001(&mut store).unwrap();

    assert_eq!(od.header, Header { version: DataVersion::V001, upgrading: None });
    assert_eq!(store.header, Some(od.header));
    for t in &store.trees {
        for r in &t.records {
            assert_eq!(r.generation, DataVersion::V001);
        }
    }
}

#[test]
fn upgrade_resumes_after_a_crash_between_steps() {
    // The uncrashed run.
    let mut store_a = OnDiskStore::new();
    store_a.trees.push(sample_tree("kv", DataVersion::V0));
    let mut od_a = OnDisk::open(&mut store_a).unwrap();
    let r_a = od_a.upgrade(&mut store_a);

    // The crashed run: the upgrading mark was persisted and half the
    // records were re-encoded before the crash.
    let mut store_b = OnDiskStore::new();
    store_b.trees.push(sample_tree("kv", DataVersion::V0));
    store_b.trees[0].records[0].generation = DataVersion::V001;
    store_b.header = Some(Header {
        version: DataVersion::V0,
        upgrading: Some(DataVersion::V001),
    });
    let mut od_b = OnDisk::open(&mut store_b).unwrap();
    let r_b = od_b.upgrade(&mut store_b);

    // Both runs converge on the same state; the chain ends at the reserved
    // transition out of V002.
    assert_eq!(r_a, r_b);
    assert_eq!(
        r_a,
        Err(StorageError::UpgradeUnimplemented { from: DataVersion::V002 })
    );
    assert_eq!(store_a, store_b);
    for t in &store_a.trees {
        for r in &t.records {
            assert_eq!(r.generation, DataVersion::V001);
        }
    }
}

#[test]
fn kv_api_filters_expired_entries_by_the_clock() {
    let mut sm = SMV003::new();
    sm.upsert_kv(&UpsertKV::update(b("e"), b("soon")).with_expire_ms(1_000));
    sm.upsert_kv(&UpsertKV::update(b("p"), b("stay")));

    let api = sm.kv_api();
    // Before the expiration time both are visible.
    assert!(api.get_kv(&b("e"), 999).is_some());
    // At the boundary the entry counts as expired.
    assert!(api.get_kv(&b("e"), 1_000).is_none());
    assert!(api.get_kv(&b("p"), 1_000).is_some());

    let got = api.mget_kv(&vec![b("e"), b("p"), b("nope")], 1_000);
    assert_eq!(got.len(), 3);
    assert!(got[0].is_none());
    assert!(got[1].is_some());
    assert!(got[2].is_none());

    let listed = api.prefix_list_kv(&b(""), 1_000);
    assert_eq!(listed.len(), 1);
    assert_eq!(listed[0].0, b("p"));
}

#[test]
fn upsert_as_is_updates_meta_only_for_live_values() {
    let mut sm = SMV003::new();
    sm.upsert_kv(&UpsertKV::update(b("m"), b("v")));

    // AsIs keeps the bytes, assigns a fresh seq, and replaces the meta.
    let up = UpsertKV {
        key: b("m"),
        seq: MatchSeq::Any,
        value: Operation::AsIs,
        value_meta: Some(raft_store::types::ValueMeta { expire_at_ms: Some(7_000) }),
    };
    let (prev, result) = sm.upsert_kv(&up);
    assert_eq!(prev.unwrap().seq, 1);
    let r = result.unwrap();
    assert_eq!(r.seq, 2);
    assert_eq!(r.data, b("v"));
    assert_eq!(r.meta.unwrap().expire_at_ms, Some(7_000));

    // AsIs on an absent key is a no-op.
    let up = UpsertKV {
        key: b("absent"),
        seq: MatchSeq::Any,
        value: Operation::AsIs,
        value_meta: None,
    };
    let (prev, result) = sm.upsert_kv(&up);
    assert_eq!(prev, None);
    assert_eq!(result, None);
    assert_eq!(sm.curr_seq(), 2);
}

#[test]
fn import_rejects_wrongly_typed_metadata() {
    let bad = vec![RaftStoreEntry::StateMachineMeta {
        key: StateMachineMetaKey::LastApplied,
        value: StateMachineMetaValue::BoolValue(true),
    }];
    assert!(SMV003::import(bad).is_err());
}

#[test]
fn upgrade_rejects_an_unknown_unfinished_target() {
    let mut store = OnDiskStore::new();
    store.header = Some(Header { version: DataVersion::V0, upgrading: Some(DataVersion::V0) });
    let mut od = OnDisk::open(&mut store).unwrap();
    assert_eq!(
        od.upgrade(&mut store),
        Err(StorageError::UnknownUpgrading { target: DataVersion::V0 })
    );
}
