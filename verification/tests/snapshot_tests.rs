use raft_store::cmd::UpsertKV;
use raft_store::codec::encode_entry;
use raft_store::level_data::LevelData;
use raft_store::leveled_map::LeveledMap;
use raft_store::leveled_map::StaticLeveledMap;
use raft_store::node_map::NodeMap;
use raft_store::sm::SMV003;
use raft_store::snapshot::RaftStoreEntry;
use raft_store::snapshot::SnapshotViewV003;
use raft_store::snapshot::StateMachineMetaKey;
use raft_store::snapshot::StateMachineMetaValue;
use raft_store::types::ExpireKey;
use raft_store::types::ExpireValue;
use raft_store::types::LogId;
use raft_store::types::Marked;
use raft_store::types::Membership;
use raft_store::types::Node;
use raft_store::types::SeqV;
use raft_store::types::StoredMembership;
use raft_store::types::ValueMeta;

fn b(s: &str) -> Vec<u8> {
    s.as_bytes().to_vec()
}

fn log_id(term: u64, node_id: u64, index: u64) -> LogId {
    LogId { term, node_id, index }
}

fn node(name: &str, addr: &str, port: u64) -> Node {
    Node::new(b(name), b(addr), port)
}

fn kv_pairs(d: &LevelData) -> Vec<(Vec<u8>, Marked)> {
    let mut out = Vec::new();
    let mut i = 0;
    while i < d.kv.len() {
        let e = d.kv.entry_at(i);
        out.push((e.0.clone(), e.1.clone()));
        i += 1;
    }
    out
}

fn expire_pairs(d: &LevelData) -> Vec<(ExpireKey, Marked)> {
    let mut out = Vec::new();
    let mut i = 0;
    while i < d.expire.len() {
        let e = d.expire.entry_at(i);
        out.push((e.0, e.1.clone()));
        i += 1;
    }
    out
}

fn lines(entries: &[RaftStoreEntry]) -> Vec<String> {
    entries.iter().map(|e| String::from_utf8(encode_entry(e)).unwrap()).collect()
}

/// Three levels:
///
/// l2 |         c(D) d
/// l1 |    b(D) c        e
/// l0 | a  b    c    d
fn build_3_levels() -> LeveledMap {
    let mut l = LeveledMap::new_empty();

    let sd = l.writable_mut().sys_data_mut();
    *sd.last_membership_mut() =
        StoredMembership::new(Some(log_id(1, 1, 1)), Membership::empty());
    *sd.last_applied_mut() = Some(log_id(1, 1, 1));
    let nm = sd.nodes_mut();
    *nm = NodeMap::new();
    nm.insert(1, node("1", "1", 1));

    l.set_kv(b("a"), Some((b("a0"), None)));
    l.set_kv(b("b"), Some((b("b0"), None)));
    l.set_kv(b("c"), Some((b("c0"), None)));
    l.set_kv(b("d"), Some((b("d0"), None)));

    l.freeze_writable();
    let sd = l.writable_mut().sys_data_mut();
    *sd.last_membership_mut() =
        StoredMembership::new(Some(log_id(2, 2, 2)), Membership::empty());
    *sd.last_applied_mut() = Some(log_id(2, 2, 2));
    let nm = sd.nodes_mut();
    *nm = NodeMap::new();
    nm.insert(2, node("2", "2", 2));

    l.set_kv(b("b"), None);
    l.set_kv(b("c"), Some((b("c1"), None)));
    l.set_kv(b("e"), Some((b("e1"), None)));

    l.freeze_writable();
    let sd = l.writable_mut().sys_data_mut();
    *sd.last_membership_mut() =
        StoredMembership::new(Some(log_id(3, 3, 3)), Membership::empty());
    *sd.last_applied_mut() = Some(log_id(3, 3, 3));
    let nm = sd.nodes_mut();
    *nm = NodeMap::new();
    nm.insert(3, node("3", "3", 3));

    l.set_kv(b("c"), None);
    l.set_kv(b("d"), Some((b("d2"), None)));

    l
}

/// Two levels with expiring keys; the subscript is the internal seq:
///
/// l1 | a4  c3   | 10000,1 -> tombstone   15000,4 -> a   20000,3 -> c
/// l0 | a1  b2   | 5000,2 -> b            10000,1 -> a
fn build_sm_with_expire() -> SMV003 {
    let mut sm = SMV003::new();

    sm.upsert_kv(&UpsertKV::update(b("a"), b("a0")).with_expire_ms(10_000));
    sm.upsert_kv(&UpsertKV::update(b("b"), b("b0")).with_expire_ms(5_000));

    sm.full_snapshot_view();

    sm.upsert_kv(&UpsertKV::update(b("c"), b("c0")).with_expire_ms(20_000));
    sm.upsert_kv(&UpsertKV::update(b("a"), b("a1")).with_expire_ms(15_000));

    sm
}

#[test]
fn test_compact_copied_value_and_kv() {
    let mut l = build_3_levels();
    let frozen = l.freeze_writable();

    let mut snapshot = SnapshotViewV003::new(frozen);
    snapshot.compact_mem_levels();

    let top_level = snapshot.compacted();
    assert_eq!(top_level.len(), 1);

    let d = top_level.newest().unwrap();
    assert_eq!(
        d.last_membership_ref(),
        &StoredMembership::new(Some(log_id(3, 3, 3)), Membership::empty())
    );
    assert_eq!(d.last_applied_ref(), &Some(log_id(3, 3, 3)));
    assert_eq!(d.nodes_ref().len(), 1);
    assert_eq!(d.nodes_ref().get(3), Some(&node("3", "3", 3)));

    let got = kv_pairs(d);
    assert_eq!(
        got,
        vec![
            (b("a"), Marked::new_normal(1, b("a0"), None)),
            (b("d"), Marked::new_normal(9, b("d2"), None)),
            (b("e"), Marked::new_normal(7, b("e1"), None)),
        ]
    );

    let got = expire_pairs(d);
    assert_eq!(got, vec![]);
}

#[test]
fn test_compact_expire_index() {
    let mut sm = build_sm_with_expire();

    let mut snapshot = sm.full_snapshot_view();
    snapshot.compact_mem_levels();

    let compacted = snapshot.compacted();
    let d = compacted.newest().unwrap();

    let meta = |ms: u64| Some(ValueMeta { expire_at_ms: Some(ms) });

    let got = kv_pairs(d);
    assert_eq!(
        got,
        vec![
            (b("a"), Marked::new_normal(4, b("a1"), meta(15_000))),
            (b("b"), Marked::new_normal(2, b("b0"), meta(5_000))),
            (b("c"), Marked::new_normal(3, b("c0"), meta(20_000))),
        ]
    );

    let got = expire_pairs(d);
    assert_eq!(
        got,
        vec![
            (ExpireKey::new(5_000, 2), Marked::new_normal(2, b("b"), None)),
            (ExpireKey::new(15_000, 4), Marked::new_normal(4, b("a"), None)),
            (ExpireKey::new(20_000, 3), Marked::new_normal(3, b("c"), None)),
        ]
    );
}

#[test]
fn test_export_3_level() {
    let mut l = build_3_levels();
    let frozen = l.freeze_writable();

    let snapshot = SnapshotViewV003::new(frozen);
    let got = lines(&snapshot.export());

    assert_eq!(got, vec![
        r#"{"DataHeader":{"key":"header","value":{"version":"V003","upgrading":null}}}"#,
        r#"{"StateMachineMeta":{"key":"LastApplied","value":{"LogId":{"leader_id":{"term":3,"node_id":3},"index":3}}}}"#,
        r#"{"StateMachineMeta":{"key":"LastMembership","value":{"Membership":{"log_id":{"leader_id":{"term":3,"node_id":3},"index":3},"membership":{"configs":[],"nodes":{}}}}}}"#,
        r#"{"Sequences":{"key":"generic-kv","value":9}}"#,
        r#"{"Nodes":{"key":3,"value":{"name":"3","endpoint":{"addr":"3","port":3},"grpc_api_advertise_address":null}}}"#,
        r#"{"GenericKV":{"key":"a","value":{"seq":1,"meta":null,"data":[97,48]}}}"#,
        r#"{"GenericKV":{"key":"d","value":{"seq":9,"meta":null,"data":[100,50]}}}"#,
        r#"{"GenericKV":{"key":"e","value":{"seq":7,"meta":null,"data":[101,49]}}}"#,
    ]);
}

#[test]
fn test_export_2_level_with_meta() {
    let mut sm = build_sm_with_expire();
    let snapshot = sm.full_snapshot_view();
    let got = lines(&snapshot.export());

    assert_eq!(got, vec![
        r#"{"DataHeader":{"key":"header","value":{"version":"V003","upgrading":null}}}"#,
        r#"{"StateMachineMeta":{"key":"LastMembership","value":{"Membership":{"log_id":null,"membership":{"configs":[],"nodes":{}}}}}}"#,
        r#"{"Sequences":{"key":"generic-kv","value":4}}"#,
        r#"{"GenericKV":{"key":"a","value":{"seq":4,"meta":{"expire_at_ms":15000},"data":[97,49]}}}"#,
        r#"{"GenericKV":{"key":"b","value":{"seq":2,"meta":{"expire_at_ms":5000},"data":[98,48]}}}"#,
        r#"{"GenericKV":{"key":"c","value":{"seq":3,"meta":{"expire_at_ms":20000},"data":[99,48]}}}"#,
        r#"{"Expire":{"key":{"time_ms":5000,"seq":2},"value":{"seq":2,"key":"b"}}}"#,
        r#"{"Expire":{"key":{"time_ms":15000,"seq":4},"value":{"seq":4,"key":"a"}}}"#,
        r#"{"Expire":{"key":{"time_ms":20000,"seq":3},"value":{"seq":3,"key":"c"}}}"#,
    ]);
}

#[test]
fn test_import() {
    let meta = |ms: u64| Some(ValueMeta { expire_at_ms: Some(ms) });
    let exported = vec![
        RaftStoreEntry::DataHeader {
            key: b("header"),
            value: raft_store::data_version::Header {
                version: raft_store::data_version::DataVersion::V003,
                upgrading: None,
            },
        },
        RaftStoreEntry::StateMachineMeta {
            key: StateMachineMetaKey::LastApplied,
            value: StateMachineMetaValue::LogIdValue(log_id(3, 3, 3)),
        },
        RaftStoreEntry::StateMachineMeta {
            key: StateMachineMetaKey::LastMembership,
            value: StateMachineMetaValue::MembershipValue(StoredMembership::new(
                Some(log_id(3, 3, 3)),
                Membership::empty(),
            )),
        },
        RaftStoreEntry::Sequences { key: b("generic-kv"), value: 9 },
        RaftStoreEntry::Nodes { key: 3, value: node("3", "3", 3) },
        RaftStoreEntry::GenericKV {
            key: b("a"),
            value: SeqV { seq: 7, meta: meta(15_000), data: b("a1") },
        },
        RaftStoreEntry::GenericKV {
            key: b("b"),
            value: SeqV { seq: 3, meta: meta(5_000), data: b("b0") },
        },
        RaftStoreEntry::GenericKV {
            key: b("c"),
            value: SeqV { seq: 5, meta: meta(20_000), data: b("c0") },
        },
        RaftStoreEntry::Expire {
            key: ExpireKey::new(5_000, 3),
            value: ExpireValue::new(b("b"), 3),
        },
        RaftStoreEntry::Expire {
            key: ExpireKey::new(15_000, 7),
            value: ExpireValue::new(b("a"), 7),
        },
        RaftStoreEntry::Expire {
            key: ExpireKey::new(20_000, 5),
            value: ExpireValue::new(b("c"), 5),
        },
    ];

    let d = SMV003::import(exported.clone()).unwrap();

    let mut levels = Vec::new();
    levels.push(d);
    let snapshot = SnapshotViewV003::new(StaticLeveledMap::new(levels));

    let got = snapshot.export();
    assert_eq!(got, exported);
}
