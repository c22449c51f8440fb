use raft_store::codec::decode_entry;
use raft_store::codec::encode_entry;
use raft_store::data_version::DataVersion;
use raft_store::data_version::Header;
use raft_store::snapshot::RaftStoreEntry;
use raft_store::snapshot::StateMachineMetaKey;
use raft_store::snapshot::StateMachineMetaValue;
use raft_store::types::ExpireKey;
use raft_store::types::ExpireValue;
use raft_store::types::LogId;
use raft_store::types::Membership;
use raft_store::types::Node;
use raft_store::types::SeqV;
use raft_store::types::StoredMembership;
use raft_store::types::ValueMeta;

fn b(s: &str) -> Vec<u8> {
    s.as_bytes().to_vec()
}

fn round_trip(e: RaftStoreEntry) {
    let line = encode_entry(&e);
    let got = decode_entry(&line);
    assert_eq!(got, Some(e), "line: {}", String::from_utf8_lossy(&line));
}

#[test]
fn codec_round_trips_every_record_kind() {
    round_trip(RaftStoreEntry::DataHeader {
        key: b("header"),
        value: Header { version: DataVersion::V003, upgrading: None },
    });
    round_trip(RaftStoreEntry::DataHeader {
        key: b("header"),
        value: Header { version: DataVersion::V0, upgrading: Some(DataVersion::V001) },
    });
    round_trip(RaftStoreEntry::Logs { key: 7 });
    round_trip(RaftStoreEntry::LogMeta { key: b("purged") });
    round_trip(RaftStoreEntry::RaftStateKV { key: b("Id") });
    round_trip(RaftStoreEntry::ClientLastResps { key: b("client") });
    round_trip(RaftStoreEntry::Nodes {
        key: 3,
        value: Node {
            name: b("n3"),
            endpoint_addr: b("127.0.0.1"),
            endpoint_port: 29000,
            grpc_api_advertise_address: Some(b("adv:9000")),
        },
    });
    round_trip(RaftStoreEntry::Nodes { key: 0, value: Node::new(b(""), b(""), 0) });
    round_trip(RaftStoreEntry::StateMachineMeta {
        key: StateMachineMetaKey::LastApplied,
        value: StateMachineMetaValue::LogIdValue(LogId { term: 1, node_id: 2, index: 3 }),
    });
    round_trip(RaftStoreEntry::StateMachineMeta {
        key: StateMachineMetaKey::Initialized,
        value: StateMachineMetaValue::BoolValue(true),
    });
    round_trip(RaftStoreEntry::StateMachineMeta {
        key: StateMachineMetaKey::LastMembership,
        value: StateMachineMetaValue::MembershipValue(StoredMembership::new(
            Some(LogId { term: 3, node_id: 3, index: 3 }),
            Membership { configs: vec![vec![1, 2, 3], vec![4]], nodes: vec![1, 2, 3, 4] },
        )),
    });
    round_trip(RaftStoreEntry::StateMachineMeta {
        key: StateMachineMetaKey::LastMembership,
        value: StateMachineMetaValue::MembershipValue(StoredMembership::new(
            None,
            Membership::empty(),
        )),
    });
    round_trip(RaftStoreEntry::Expire {
        key: ExpireKey::new(5_000, 2),
        value: ExpireValue::new(b("b"), 2),
    });
    round_trip(RaftStoreEntry::GenericKV {
        key: b("a"),
        value: SeqV { seq: 1, meta: None, data: b("a0") },
    });
    round_trip(RaftStoreEntry::GenericKV {
        key: b("k"),
        value: SeqV {
            seq: u64::MAX,
            meta: Some(ValueMeta { expire_at_ms: Some(15_000) }),
            data: vec![0, 1, 2, 255],
        },
    });
    round_trip(RaftStoreEntry::GenericKV {
        key: b("k"),
        value: SeqV { seq: 2, meta: Some(ValueMeta { expire_at_ms: None }), data: vec![] },
    });
    round_trip(RaftStoreEntry::Sequences { key: b("generic-kv"), value: 9 });
}

#[test]
fn codec_escapes_quotes_backslashes_and_control_bytes() {
    let key = vec![b'a', b'"', b'\\', 0x01, 0x1f, b'z'];
    let e = RaftStoreEntry::GenericKV {
        key: key.clone(),
        value: SeqV { seq: 1, meta: None, data: b("v") },
    };
    let line = encode_entry(&e);
    let text = String::from_utf8(line.clone()).unwrap();
    assert!(text.contains(r#"a\"\\\u0001\u001fz"#));
    assert_eq!(decode_entry(&line), Some(e));
}

#[test]
fn decoder_rejects_non_canonical_spellings() {
    // Parses as Logs { key: 1 }, but the canonical encoding has no leading
    // zero, so the re-encoding check refuses it.
    assert_eq!(decode_entry(&b(r#"{"Logs":{"key":01}}"#)), None);
    assert_eq!(decode_entry(&b(r#"{"Logs":{"key":1}}"#)), Some(RaftStoreEntry::Logs { key: 1 }));
}

#[test]
fn decoder_rejects_garbage() {
    assert_eq!(decode_entry(&b("")), None);
    assert_eq!(decode_entry(&b("{}")), None);
    assert_eq!(decode_entry(&b(r#"{"GenericKV":{"key":"a"}}"#)), None);
    assert_eq!(
        decode_entry(&b(r#"{"Sequences":{"key":"generic-kv","value":99999999999999999999}}"#)),
        None
    );
}
