//! The snapshot line format: one JSON object per line, UTF-8, externally
//! tagged by record kind.  The encoder is specified byte for byte by
//! [`entry_json`]; keys and values appear in a fixed field order.

use vstd::prelude::*;

use vstd::string::StringSliceAdditionalSpecFns;

use crate::data_version::DataVersion;
use crate::data_version::Header;
use crate::snapshot::RaftStoreEntry;
use crate::snapshot::StateMachineMetaKey;
use crate::types::ExpireKey;
use crate::types::LogId;
use crate::types::ValueMeta;

verus! {

/// The decimal digits of `n`, most significant first.
pub open spec fn dec_of(n: u64) -> Seq<u8>
    decreases n,
{
    if n < 10 {
        seq![(48 + n) as u8]
    } else {
        dec_of((n / 10) as u64) + seq![(48 + n % 10) as u8]
    }
}

/// A JSON string literal for a UTF-8 byte string: quotes and backslashes
/// are escaped; control bytes become `\u00XX`; all other bytes pass
/// through.
pub open spec fn json_string(s: Seq<u8>) -> Seq<u8>
    decreases s.len(),
{
    if s.len() == 0 {
        Seq::empty()
    } else {
        json_escape_byte(s[0]) + json_string(s.skip(1))
    }
}

/// The hexadecimal digit for a value below 16.
pub open spec fn hex_digit(n: u8) -> u8 {
    if n < 10 {
        (48 + n) as u8
    } else {
        (87 + n) as u8
    }
}

/// The escape of one byte inside a JSON string literal.
pub open spec fn json_escape_byte(b: u8) -> Seq<u8> {
    if b == 34 {
        seq![92u8, 34u8]
    } else if b == 92 {
        seq![92u8, 92u8]
    } else if b < 32 {
        seq![92u8, 117u8, 48u8, 48u8, hex_digit(b / 16), hex_digit(b % 16)]
    } else {
        seq![b]
    }
}

/// A quoted JSON string literal.
pub open spec fn json_quoted(s: Seq<u8>) -> Seq<u8> {
    seq![34u8] + json_string(s) + seq![34u8]
}

/// A JSON array of byte values.
pub open spec fn json_byte_array(s: Seq<u8>) -> Seq<u8>
    decreases s.len(),
{
    seq![91u8] + json_byte_array_items(s) + seq![93u8]
}

pub open spec fn json_byte_array_items(s: Seq<u8>) -> Seq<u8>
    decreases s.len(),
{
    if s.len() == 0 {
        Seq::empty()
    } else if s.len() == 1 {
        dec_of(s[0] as u64)
    } else {
        dec_of(s[0] as u64) + seq![44u8] + json_byte_array_items(s.skip(1))
    }
}

/// Append the decimal digits of `n`.
fn push_dec(out: &mut Vec<u8>, n: u64)
    ensures
        final(out)@ == old(out)@ + dec_of(n),
    decreases n,
{
    if n < 10 {
        out.push((48 + (n as u8)));
        proof {
            assert(final(out)@ =~= old(out)@ + dec_of(n));
        }
    } else {
        let q = n / 10;
        let r = n % 10;
        push_dec(out, q);
        out.push((48 + (r as u8)));
        proof {
            assert(final(out)@ =~= old(out)@ + dec_of(n));
        }
    }
}

/// Append a quoted JSON string literal for the bytes.
fn push_quoted(out: &mut Vec<u8>, s: &Vec<u8>)
    ensures
        final(out)@ == old(out)@ + json_quoted(s@),
{
    out.push(34u8);
    let n = s.len();
    let mut i: usize = 0;
    proof {
        assert(s@.take(0) =~= Seq::<u8>::empty());
        assert(out@ =~= old(out)@ + seq![34u8] + json_string(s@.take(0)));
    }
    while i < n
        invariant
            0 <= i <= n == s@.len(),
            out@ == old(out)@ + seq![34u8] + json_string(s@.take(i as int)),
        decreases n - i,
    {
        let ghost pre = out@;
        let b = s[i];
        if b == 34 {
            out.push(92u8);
            out.push(34u8);
        } else if b == 92 {
            out.push(92u8);
            out.push(92u8);
        } else if b < 32 {
            out.push(92u8);
            out.push(117u8);
            out.push(48u8);
            out.push(48u8);
            let hi = b / 16;
            let lo = b % 16;
            let hd: u8 = if hi < 10 {
                48 + hi
            } else {
                87 + hi
            };
            let ld: u8 = if lo < 10 {
                48 + lo
            } else {
                87 + lo
            };
            out.push(hd);
            out.push(ld);
        } else {
            out.push(b);
        }
        proof {
            assert(out@ =~= pre + json_escape_byte(s@[i as int]));
            assert(json_string(s@.take(i as int + 1)) =~= json_string(s@.take(i as int))
                + json_escape_byte(s@[i as int])) by {
                lemma_json_string_push(s@.take(i as int), s@[i as int]);
                assert(s@.take(i as int + 1) =~= s@.take(i as int).push(s@[i as int]));
            }
            assert(out@ =~= old(out)@ + seq![34u8] + json_string(s@.take(i as int + 1)));
        }
        i = i + 1;
    }
    out.push(34u8);
    proof {
        assert(s@.take(n as int) =~= s@);
        assert(final(out)@ =~= old(out)@ + json_quoted(s@));
    }
}

/// Extending a string extends its JSON literal.
proof fn lemma_json_string_push(s: Seq<u8>, b: u8)
    ensures
        json_string(s.push(b)) == json_string(s) + json_escape_byte(b),
    decreases s.len(),
{
    if s.len() == 0 {
        assert(s.push(b)[0] == b);
        assert(s.push(b).skip(1) =~= Seq::<u8>::empty());
        assert(json_string(Seq::<u8>::empty()) =~= Seq::<u8>::empty());
        assert(json_string(s.push(b)) =~= json_escape_byte(b));
        assert(json_string(s) + json_escape_byte(b) =~= json_escape_byte(b));
    } else {
        assert(s.push(b)[0] == s[0]);
        assert(s.push(b).skip(1) =~= s.skip(1).push(b));
        lemma_json_string_push(s.skip(1), b);
        assert(json_string(s.push(b)) =~= json_string(s) + json_escape_byte(b));
    }
}

/// Extending the byte list extends its item list.
proof fn lemma_json_items_push(t: Seq<u8>, b: u8)
    ensures
        t.len() == 0 ==> json_byte_array_items(t.push(b)) == dec_of(b as u64),
        t.len() > 0 ==> json_byte_array_items(t.push(b)) == json_byte_array_items(t)
            + seq![44u8] + dec_of(b as u64),
    decreases t.len(),
{
    if t.len() == 0 {
        assert(t.push(b)[0] == b);
        assert(t.push(b).len() == 1);
        assert(json_byte_array_items(t.push(b)) =~= dec_of(b as u64));
    } else {
        assert(t.push(b)[0] == t[0]);
        assert(t.push(b).skip(1) =~= t.skip(1).push(b));
        lemma_json_items_push(t.skip(1), b);
        if t.len() == 1 {
            assert(t.skip(1).len() == 0);
            assert(json_byte_array_items(t.push(b)) =~= json_byte_array_items(t) + seq![44u8]
                + dec_of(b as u64));
        } else {
            assert(json_byte_array_items(t.push(b)) =~= json_byte_array_items(t) + seq![44u8]
                + dec_of(b as u64));
        }
    }
}

/// Append a JSON array of byte values.
fn push_byte_array(out: &mut Vec<u8>, s: &Vec<u8>)
    ensures
        final(out)@ == old(out)@ + json_byte_array(s@),
{
    out.push(91u8);
    let n = s.len();
    let mut i: usize = 0;
    proof {
        assert(s@.take(0) =~= Seq::<u8>::empty());
        assert(json_byte_array_items(Seq::<u8>::empty()) =~= Seq::<u8>::empty());
        assert(out@ =~= old(out)@ + seq![91u8] + json_byte_array_items(s@.take(0)));
    }
    while i < n
        invariant
            0 <= i <= n == s@.len(),
            out@ == old(out)@ + seq![91u8] + json_byte_array_items(s@.take(i as int)),
        decreases n - i,
    {
        let ghost pre = out@;
        if i > 0 {
            out.push(44u8);
        }
        push_dec(out, s[i] as u64);
        proof {
            lemma_json_items_push(s@.take(i as int), s@[i as int]);
            assert(s@.take(i as int + 1) =~= s@.take(i as int).push(s@[i as int]));
            assert(out@ =~= old(out)@ + seq![91u8] + json_byte_array_items(
                s@.take(i as int + 1),
            ));
        }
        i = i + 1;
    }
    out.push(93u8);
    proof {
        assert(s@.take(n as int) =~= s@);
        assert(final(out)@ =~= old(out)@ + json_byte_array(s@));
    }
}

/// Append a fixed ASCII keyword, byte by byte.
fn push_ascii(out: &mut Vec<u8>, s: &Vec<u8>)
    ensures
        final(out)@ == old(out)@ + s@,
{
    let n = s.len();
    let mut i: usize = 0;
    while i < n
        invariant
            0 <= i <= n == s@.len(),
            out@ == old(out)@ + s@.take(i as int),
        decreases n - i,
    {
        out.push(s[i]);
        proof {
            assert(s@.take(i as int + 1) =~= s@.take(i as int).push(s@[i as int]));
            assert(out@ =~= old(out)@ + s@.take(i as int + 1));
        }
        i = i + 1;
    }
    proof {
        assert(s@.take(n as int) =~= s@);
    }
}



/// The JSON literal of a data version.
pub open spec fn version_json(v: DataVersion) -> Seq<u8> {
    match v {
        DataVersion::V0 => "\"V0\"".spec_bytes(),
        DataVersion::V001 => "\"V001\"".spec_bytes(),
        DataVersion::V002 => "\"V002\"".spec_bytes(),
        DataVersion::V003 => "\"V003\"".spec_bytes(),
    }
}

/// The JSON object of a log id.
pub open spec fn log_id_json(l: LogId) -> Seq<u8> {
    "{\"leader_id\":{\"term\":".spec_bytes() + dec_of(l.term) + ",\"node_id\":".spec_bytes()
        + dec_of(l.node_id) + "},\"index\":".spec_bytes() + dec_of(l.index)
        + "}".spec_bytes()
}

/// An optional log id: `null` when absent.
pub open spec fn opt_log_id_json(l: Option<LogId>) -> Seq<u8> {
    match l {
        Option::Some(x) => log_id_json(x),
        Option::None => "null".spec_bytes(),
    }
}

/// The comma-separated decimal items of a list of numbers.
pub open spec fn u64_items_json(ns: Seq<u64>) -> Seq<u8>
    decreases ns.len(),
{
    if ns.len() == 0 {
        Seq::empty()
    } else if ns.len() == 1 {
        dec_of(ns[0])
    } else {
        dec_of(ns[0]) + ",".spec_bytes() + u64_items_json(ns.skip(1))
    }
}

/// The comma-separated config arrays of a membership.
pub open spec fn configs_json(cs: Seq<Seq<u64>>) -> Seq<u8>
    decreases cs.len(),
{
    if cs.len() == 0 {
        Seq::empty()
    } else if cs.len() == 1 {
        "[".spec_bytes() + u64_items_json(cs[0]) + "]".spec_bytes()
    } else {
        "[".spec_bytes() + u64_items_json(cs[0]) + "]".spec_bytes() + ",".spec_bytes()
            + configs_json(cs.skip(1))
    }
}

/// The member-id map of a membership: each id maps to an empty object.
pub open spec fn nodes_json(ns: Seq<u64>) -> Seq<u8>
    decreases ns.len(),
{
    if ns.len() == 0 {
        Seq::empty()
    } else if ns.len() == 1 {
        "\"".spec_bytes() + dec_of(ns[0]) + "\":{}".spec_bytes()
    } else {
        "\"".spec_bytes() + dec_of(ns[0]) + "\":{}".spec_bytes() + ",".spec_bytes()
            + nodes_json(ns.skip(1))
    }
}

/// The JSON object of a membership.
pub open spec fn membership_json(m: crate::types::MembershipV) -> Seq<u8> {
    "{\"configs\":[".spec_bytes() + configs_json(m.configs) + "],\"nodes\":{".spec_bytes()
        + nodes_json(m.nodes) + "}}".spec_bytes()
}

/// The JSON object of an optional value meta.
pub open spec fn meta_json(m: Option<ValueMeta>) -> Seq<u8> {
    match m {
        Option::None => "null".spec_bytes(),
        Option::Some(v) => "{\"expire_at_ms\":".spec_bytes() + (match v.expire_at_ms {
            Option::Some(t) => dec_of(t),
            Option::None => "null".spec_bytes(),
        }) + "}".spec_bytes(),
    }
}

/// The JSON object of a state-machine metadata value.
pub open spec fn meta_value_json(v: crate::snapshot::StateMachineMetaValueV) -> Seq<u8> {
    match v {
        crate::snapshot::StateMachineMetaValueV::LogIdValue(l) => "{\"LogId\":".spec_bytes()
            + log_id_json(l) + "}".spec_bytes(),
        crate::snapshot::StateMachineMetaValueV::BoolValue(b) => if b {
            "{\"Bool\":true}".spec_bytes()
        } else {
            "{\"Bool\":false}".spec_bytes()
        },
        crate::snapshot::StateMachineMetaValueV::MembershipValue(m) => (
        "{\"Membership\":{\"log_id\":".spec_bytes() + opt_log_id_json(m.log_id)
            + ",\"membership\":".spec_bytes() + membership_json(m.membership)
            + "}}".spec_bytes()),
    }
}

/// The exact JSON line of one store entry, without a trailing newline.
pub open spec fn entry_json(e: crate::snapshot::RaftStoreEntryV) -> Seq<u8> {
    match e {
        crate::snapshot::RaftStoreEntryV::DataHeader { key, value } => (
        "{\"DataHeader\":{\"key\":".spec_bytes() + json_quoted(key)
            + ",\"value\":{\"version\":".spec_bytes() + version_json(value.version)
            + ",\"upgrading\":".spec_bytes() + (match value.upgrading {
            Option::Some(v) => version_json(v),
            Option::None => "null".spec_bytes(),
        }) + "}}}".spec_bytes()),
        crate::snapshot::RaftStoreEntryV::Logs { key } => ("{\"Logs\":{\"key\":".spec_bytes()
            + dec_of(key) + "}}".spec_bytes()),
        crate::snapshot::RaftStoreEntryV::LogMeta { key } => (
        "{\"LogMeta\":{\"key\":".spec_bytes() + json_quoted(key) + "}}".spec_bytes()),
        crate::snapshot::RaftStoreEntryV::RaftStateKV { key } => (
        "{\"RaftStateKV\":{\"key\":".spec_bytes() + json_quoted(key) + "}}".spec_bytes()),
        crate::snapshot::RaftStoreEntryV::ClientLastResps { key } => (
        "{\"ClientLastResps\":{\"key\":".spec_bytes() + json_quoted(key)
            + "}}".spec_bytes()),
        crate::snapshot::RaftStoreEntryV::Nodes { key, value } => (
        "{\"Nodes\":{\"key\":".spec_bytes() + dec_of(key)
            + ",\"value\":{\"name\":".spec_bytes() + json_quoted(value.name)
            + ",\"endpoint\":{\"addr\":".spec_bytes() + json_quoted(value.endpoint_addr)
            + ",\"port\":".spec_bytes() + dec_of(value.endpoint_port)
            + "},\"grpc_api_advertise_address\":".spec_bytes() + (match value.grpc_api_advertise_address {
            Option::Some(a) => json_quoted(a),
            Option::None => "null".spec_bytes(),
        }) + "}}}".spec_bytes()),
        crate::snapshot::RaftStoreEntryV::StateMachineMeta { key, value } => (
        "{\"StateMachineMeta\":{\"key\":".spec_bytes() + (match key {
            StateMachineMetaKey::LastApplied => "\"LastApplied\"".spec_bytes(),
            StateMachineMetaKey::Initialized => "\"Initialized\"".spec_bytes(),
            StateMachineMetaKey::LastMembership => "\"LastMembership\"".spec_bytes(),
        }) + ",\"value\":".spec_bytes() + meta_value_json(value) + "}}".spec_bytes()),
        crate::snapshot::RaftStoreEntryV::Expire { key, value } => (
        "{\"Expire\":{\"key\":{\"time_ms\":".spec_bytes() + dec_of(key.time_ms)
            + ",\"seq\":".spec_bytes() + dec_of(key.seq)
            + "},\"value\":{\"seq\":".spec_bytes() + dec_of(value.seq)
            + ",\"key\":".spec_bytes() + json_quoted(value.key) + "}}}".spec_bytes()),
        crate::snapshot::RaftStoreEntryV::GenericKV { key, value } => (
        "{\"GenericKV\":{\"key\":".spec_bytes() + json_quoted(key)
            + ",\"value\":{\"seq\":".spec_bytes() + dec_of(value.seq)
            + ",\"meta\":".spec_bytes() + meta_json(value.meta) + ",\"data\":".spec_bytes()
            + json_byte_array(value.data) + "}}}".spec_bytes()),
        crate::snapshot::RaftStoreEntryV::Sequences { key, value } => (
        "{\"Sequences\":{\"key\":".spec_bytes() + json_quoted(key)
            + ",\"value\":".spec_bytes() + dec_of(value) + "}}".spec_bytes()),
    }
}


/// Extending a number list extends its item list.
proof fn lemma_u64_items_push(t: Seq<u64>, n: u64)
    ensures
        t.len() == 0 ==> u64_items_json(t.push(n)) == dec_of(n),
        t.len() > 0 ==> u64_items_json(t.push(n)) == u64_items_json(t) + ",".spec_bytes()
            + dec_of(n),
    decreases t.len(),
{
    if t.len() == 0 {
        assert(t.push(n)[0] == n);
        assert(t.push(n).len() == 1);
        assert(u64_items_json(t.push(n)) =~= dec_of(n));
    } else {
        assert(t.push(n)[0] == t[0]);
        assert(t.push(n).skip(1) =~= t.skip(1).push(n));
        lemma_u64_items_push(t.skip(1), n);
        if t.len() == 1 {
            assert(t.skip(1).len() == 0);
            assert(u64_items_json(t.push(n)) =~= u64_items_json(t) + ",".spec_bytes() + dec_of(
                n,
            ));
        } else {
            assert(u64_items_json(t.push(n)) =~= u64_items_json(t) + ",".spec_bytes() + dec_of(
                n,
            ));
        }
    }
}

/// Extending a config list extends its JSON image.
proof fn lemma_configs_push(t: Seq<Seq<u64>>, c: Seq<u64>)
    ensures
        t.len() == 0 ==> configs_json(t.push(c)) == "[".spec_bytes() + u64_items_json(c)
            + "]".spec_bytes(),
        t.len() > 0 ==> configs_json(t.push(c)) == configs_json(t) + ",".spec_bytes()
            + "[".spec_bytes() + u64_items_json(c) + "]".spec_bytes(),
    decreases t.len(),
{
    if t.len() == 0 {
        assert(t.push(c)[0] == c);
        assert(t.push(c).len() == 1);
        assert(configs_json(t.push(c)) =~= "[".spec_bytes() + u64_items_json(c)
            + "]".spec_bytes());
    } else {
        assert(t.push(c)[0] == t[0]);
        assert(t.push(c).skip(1) =~= t.skip(1).push(c));
        lemma_configs_push(t.skip(1), c);
        if t.len() == 1 {
            assert(t.skip(1).len() == 0);
            assert(configs_json(t.push(c)) =~= configs_json(t) + ",".spec_bytes()
                + "[".spec_bytes() + u64_items_json(c) + "]".spec_bytes());
        } else {
            assert(configs_json(t.push(c)) =~= configs_json(t) + ",".spec_bytes()
                + "[".spec_bytes() + u64_items_json(c) + "]".spec_bytes());
        }
    }
}

/// Extending a member-id list extends its JSON image.
proof fn lemma_nodes_push(t: Seq<u64>, n: u64)
    ensures
        t.len() == 0 ==> nodes_json(t.push(n)) == "\"".spec_bytes() + dec_of(n)
            + "\":{}".spec_bytes(),
        t.len() > 0 ==> nodes_json(t.push(n)) == nodes_json(t) + ",".spec_bytes()
            + "\"".spec_bytes() + dec_of(n) + "\":{}".spec_bytes(),
    decreases t.len(),
{
    if t.len() == 0 {
        assert(t.push(n)[0] == n);
        assert(t.push(n).len() == 1);
        assert(nodes_json(t.push(n)) =~= "\"".spec_bytes() + dec_of(n) + "\":{}".spec_bytes());
    } else {
        assert(t.push(n)[0] == t[0]);
        assert(t.push(n).skip(1) =~= t.skip(1).push(n));
        lemma_nodes_push(t.skip(1), n);
        if t.len() == 1 {
            assert(t.skip(1).len() == 0);
            assert(nodes_json(t.push(n)) =~= nodes_json(t) + ",".spec_bytes()
                + "\"".spec_bytes() + dec_of(n) + "\":{}".spec_bytes());
        } else {
            assert(nodes_json(t.push(n)) =~= nodes_json(t) + ",".spec_bytes()
                + "\"".spec_bytes() + dec_of(n) + "\":{}".spec_bytes());
        }
    }
}

/// Append a fixed ASCII literal.
fn push_lit(out: &mut Vec<u8>, s: &str)
    ensures
        final(out)@ == old(out)@ + s.spec_bytes(),
        final(out)@.len() >= old(out)@.len(),
{
    out.extend_from_slice(s.as_bytes());
}

/// Append a log id object: `{"leader_id":{"term":T,"node_id":N},"index":I}`.
fn push_log_id(out: &mut Vec<u8>, l: &LogId)
    ensures
        final(out)@ == old(out)@ + log_id_json(*l),
{
    push_lit(out, "{\"leader_id\":{\"term\":");
    push_dec(out, l.term);
    push_lit(out, ",\"node_id\":");
    push_dec(out, l.node_id);
    push_lit(out, "},\"index\":");
    push_dec(out, l.index);
    push_lit(out, "}");
    proof {
        assert(final(out)@ =~= old(out)@ + log_id_json(*l));
    }
}

/// Append a data version literal.
fn push_version(out: &mut Vec<u8>, v: &DataVersion)
    ensures
        final(out)@ == old(out)@ + version_json(*v),
{
    match v {
        DataVersion::V0 => push_lit(out, "\"V0\""),
        DataVersion::V001 => push_lit(out, "\"V001\""),
        DataVersion::V002 => push_lit(out, "\"V002\""),
        DataVersion::V003 => push_lit(out, "\"V003\""),
    }
}

/// Append a membership object:
/// `{"configs":[[..],..],"nodes":{"id":{},..}}`.
fn push_membership(out: &mut Vec<u8>, m: &crate::types::Membership)
    ensures
        final(out)@ == old(out)@ + membership_json(m@),
{
    push_lit(out, "{\"configs\":[");
    let ghost base = out@;
    let ghost cs = m@.configs;
    let mut i: usize = 0;
    proof {
        assert(cs.take(0) =~= Seq::<Seq<u64>>::empty());
        assert(configs_json(Seq::<Seq<u64>>::empty()) =~= Seq::<u8>::empty());
        assert(out@ =~= base + configs_json(cs.take(0)));
    }
    while i < m.configs.len()
        invariant
            0 <= i <= m.configs@.len() == cs.len(),
            cs == m@.configs,
            out@ == base + configs_json(cs.take(i as int)),
        decreases m.configs@.len() - i,
    {
        if i > 0 {
            push_lit(out, ",");
        }
        push_lit(out, "[");
        let ghost mid = out@;
        let ghost cc = cs[i as int];
        proof {
            assert(cc =~= m.configs@[i as int]@);
            assert(cc.take(0) =~= Seq::<u64>::empty());
            assert(u64_items_json(Seq::<u64>::empty()) =~= Seq::<u8>::empty());
            assert(out@ =~= mid + u64_items_json(cc.take(0)));
        }
        let mut j: usize = 0;
        while j < m.configs[i].len()
            invariant
                0 <= i < m.configs@.len() == cs.len(),
                cs == m@.configs,
                cc == cs[i as int],
                cc =~= m.configs@[i as int]@,
                0 <= j <= cc.len(),
                out@ == mid + u64_items_json(cc.take(j as int)),
            decreases m.configs@[i as int]@.len() - j,
        {
            if j > 0 {
                push_lit(out, ",");
            }
            push_dec(out, m.configs[i][j]);
            proof {
                lemma_u64_items_push(cc.take(j as int), cc[j as int]);
                assert(cc.take(j as int + 1) =~= cc.take(j as int).push(cc[j as int]));
                assert(out@ =~= mid + u64_items_json(cc.take(j as int + 1)));
            }
            j = j + 1;
        }
        push_lit(out, "]");
        proof {
            assert(cc.take(cc.len() as int) =~= cc);
            lemma_configs_push(cs.take(i as int), cc);
            assert(cs.take(i as int + 1) =~= cs.take(i as int).push(cc));
            assert(out@ =~= base + configs_json(cs.take(i as int + 1)));
        }
        i = i + 1;
    }
    proof {
        assert(cs.take(cs.len() as int) =~= cs);
    }
    push_lit(out, "],\"nodes\":{");
    let ghost base2 = out@;
    let ghost ns = m@.nodes;
    let mut i: usize = 0;
    proof {
        assert(ns.take(0) =~= Seq::<u64>::empty());
        assert(nodes_json(Seq::<u64>::empty()) =~= Seq::<u8>::empty());
        assert(out@ =~= base2 + nodes_json(ns.take(0)));
    }
    while i < m.nodes.len()
        invariant
            0 <= i <= m.nodes@.len() == ns.len(),
            ns == m@.nodes,
            out@ == base2 + nodes_json(ns.take(i as int)),
        decreases m.nodes@.len() - i,
    {
        if i > 0 {
            push_lit(out, ",");
        }
        push_lit(out, "\"");
        push_dec(out, m.nodes[i]);
        push_lit(out, "\":{}");
        proof {
            lemma_nodes_push(ns.take(i as int), ns[i as int]);
            assert(ns.take(i as int + 1) =~= ns.take(i as int).push(ns[i as int]));
            assert(out@ =~= base2 + nodes_json(ns.take(i as int + 1)));
        }
        i = i + 1;
    }
    push_lit(out, "}}");
    proof {
        assert(ns.take(ns.len() as int) =~= ns);
        assert(final(out)@ =~= old(out)@ + membership_json(m@));
    }
}

/// Encode one store entry as its JSON line, without the trailing newline.
///
/// The format is the external line protocol: one externally tagged JSON
/// object per record, fields in a fixed order; keys and node names are
/// emitted as JSON strings, values as byte arrays.
#[verifier::rlimit(100)]
pub fn encode_entry(e: &RaftStoreEntry) -> (r: Vec<u8>)
    ensures
        r@ == entry_json(e@),
{
    let mut out: Vec<u8> = Vec::new();
    match e {
        RaftStoreEntry::DataHeader { key, value } => {
            push_lit(&mut out, "{\"DataHeader\":{\"key\":");
            push_quoted(&mut out, key);
            push_lit(&mut out, ",\"value\":{\"version\":");
            push_version(&mut out, &value.version);
            push_lit(&mut out, ",\"upgrading\":");
            match &value.upgrading {
                Option::Some(v) => push_version(&mut out, v),
                Option::None => push_lit(&mut out, "null"),
            }
            push_lit(&mut out, "}}}");
            proof {
                assert(out@ =~= entry_json(e@));
            }
        },
        RaftStoreEntry::Logs { key } => {
            push_lit(&mut out, "{\"Logs\":{\"key\":");
            push_dec(&mut out, *key);
            push_lit(&mut out, "}}");
            proof {
                assert(out@ =~= entry_json(e@));
            }
        },
        RaftStoreEntry::LogMeta { key } => {
            push_lit(&mut out, "{\"LogMeta\":{\"key\":");
            push_quoted(&mut out, key);
            push_lit(&mut out, "}}");
            proof {
                assert(out@ =~= entry_json(e@));
            }
        },
        RaftStoreEntry::RaftStateKV { key } => {
            push_lit(&mut out, "{\"RaftStateKV\":{\"key\":");
            push_quoted(&mut out, key);
            push_lit(&mut out, "}}");
            proof {
                assert(out@ =~= entry_json(e@));
            }
        },
        RaftStoreEntry::ClientLastResps { key } => {
            push_lit(&mut out, "{\"ClientLastResps\":{\"key\":");
            push_quoted(&mut out, key);
            push_lit(&mut out, "}}");
            proof {
                assert(out@ =~= entry_json(e@));
            }
        },
        RaftStoreEntry::Nodes { key, value } => {
            push_lit(&mut out, "{\"Nodes\":{\"key\":");
            push_dec(&mut out, *key);
            push_lit(&mut out, ",\"value\":{\"name\":");
            push_quoted(&mut out, &value.name);
            push_lit(&mut out, ",\"endpoint\":{\"addr\":");
            push_quoted(&mut out, &value.endpoint_addr);
            push_lit(&mut out, ",\"port\":");
            push_dec(&mut out, value.endpoint_port);
            push_lit(&mut out, "},\"grpc_api_advertise_address\":");
            match &value.grpc_api_advertise_address {
                Option::Some(a) => push_quoted(&mut out, a),
                Option::None => push_lit(&mut out, "null"),
            }
            push_lit(&mut out, "}}}");
            proof {
                assert(out@ =~= entry_json(e@));
            }
        },
        RaftStoreEntry::StateMachineMeta { key, value } => {
            push_lit(&mut out, "{\"StateMachineMeta\":{\"key\":");
            match key {
                StateMachineMetaKey::LastApplied => push_lit(&mut out, "\"LastApplied\""),
                StateMachineMetaKey::Initialized => push_lit(&mut out, "\"Initialized\""),
                StateMachineMetaKey::LastMembership => push_lit(
                    &mut out,
                    "\"LastMembership\"",
                ),
            }
            push_lit(&mut out, ",\"value\":");
            match value {
                crate::snapshot::StateMachineMetaValue::LogIdValue(l) => {
                    push_lit(&mut out, "{\"LogId\":");
                    push_log_id(&mut out, l);
                    push_lit(&mut out, "}");
                },
                crate::snapshot::StateMachineMetaValue::BoolValue(bv) => {
                    if *bv {
                        push_lit(&mut out, "{\"Bool\":true}");
                    } else {
                        push_lit(&mut out, "{\"Bool\":false}");
                    }
                },
                crate::snapshot::StateMachineMetaValue::MembershipValue(m) => {
                    push_lit(&mut out, "{\"Membership\":{\"log_id\":");
                    match &m.log_id {
                        Option::Some(l) => push_log_id(&mut out, l),
                        Option::None => push_lit(&mut out, "null"),
                    }
                    push_lit(&mut out, ",\"membership\":");
                    push_membership(&mut out, &m.membership);
                    push_lit(&mut out, "}}");
                },
            }
            push_lit(&mut out, "}}");
            proof {
                assert(out@ =~= entry_json(e@));
            }
        },
        RaftStoreEntry::Expire { key, value } => {
            push_lit(&mut out, "{\"Expire\":{\"key\":{\"time_ms\":");
            push_dec(&mut out, key.time_ms);
            push_lit(&mut out, ",\"seq\":");
            push_dec(&mut out, key.seq);
            push_lit(&mut out, "},\"value\":{\"seq\":");
            push_dec(&mut out, value.seq);
            push_lit(&mut out, ",\"key\":");
            push_quoted(&mut out, &value.key);
            push_lit(&mut out, "}}}");
            proof {
                assert(out@ =~= entry_json(e@));
            }
        },
        RaftStoreEntry::GenericKV { key, value } => {
            push_lit(&mut out, "{\"GenericKV\":{\"key\":");
            push_quoted(&mut out, key);
            push_lit(&mut out, ",\"value\":{\"seq\":");
            push_dec(&mut out, value.seq);
            push_lit(&mut out, ",\"meta\":");
            match &value.meta {
                Option::Some(m) => {
                    push_lit(&mut out, "{\"expire_at_ms\":");
                    match m.expire_at_ms {
                        Option::Some(t) => push_dec(&mut out, t),
                        Option::None => push_lit(&mut out, "null"),
                    }
                    push_lit(&mut out, "}");
                },
                Option::None => push_lit(&mut out, "null"),
            }
            push_lit(&mut out, ",\"data\":");
            push_byte_array(&mut out, &value.data);
            push_lit(&mut out, "}}}");
            proof {
                assert(out@ =~= entry_json(e@));
            }
        },
        RaftStoreEntry::Sequences { key, value } => {
            push_lit(&mut out, "{\"Sequences\":{\"key\":");
            push_quoted(&mut out, key);
            push_lit(&mut out, ",\"value\":");
            push_dec(&mut out, *value);
            push_lit(&mut out, "}}");
            proof {
                assert(out@ =~= entry_json(e@));
            }
        },
    }
    out
}


/// Match a fixed ASCII keyword at `pos`; the position after it, or `None`.
fn eat_lit(s: &Vec<u8>, pos: usize, word: &str) -> (r: Option<usize>)
    ensures
        r matches Some(p) && pos <= p <= s@.len() || r is None,
{
    let w = word.as_bytes();
    let n = w.len();
    if pos > s.len() || n > s.len() - pos {
        return Option::None;
    }
    let mut i: usize = 0;
    while i < n
        invariant
            0 <= i <= n == w@.len(),
            pos + n <= s@.len(),
            s@.len() <= usize::MAX,
        decreases n - i,
    {
        if s[pos + i] != w[i] {
            return Option::None;
        }
        i = i + 1;
    }
    Option::Some(pos + n)
}

/// Parse an unsigned decimal number at `pos`.
fn eat_u64(s: &Vec<u8>, pos: usize) -> (r: Option<(u64, usize)>)
    ensures
        r matches Some(p) && pos < p.1 <= s@.len() || r is None,
{
    if pos >= s.len() {
        return Option::None;
    }
    let mut i = pos;
    let mut n: u64 = 0;
    let mut any: bool = false;
    while i < s.len() && s[i] >= 48 && s[i] <= 57
        invariant
            pos <= i <= s@.len(),
            s@.len() <= usize::MAX,
        decreases s@.len() - i,
    {
        let d = (s[i] - 48) as u64;
        if n > (0xffff_ffff_ffff_ffffu64 - d) / 10 {
            return Option::None;
        }
        n = n * 10 + d;
        any = true;
        i = i + 1;
    }
    if any && i > pos {
        Option::Some((n, i))
    } else {
        Option::None
    }
}

/// Parse a quoted JSON string at `pos`, undoing the encoder's escapes.
fn eat_quoted(s: &Vec<u8>, pos: usize) -> (r: Option<(Vec<u8>, usize)>)
    ensures
        r matches Some(p) && pos < p.1 <= s@.len() || r is None,
{
    if pos >= s.len() || s[pos] != 34 {
        return Option::None;
    }
    let mut out: Vec<u8> = Vec::new();
    let mut i = pos + 1;
    while i < s.len()
        invariant
            pos < i <= s@.len(),
            s@.len() <= usize::MAX,
        decreases s@.len() - i,
    {
        let b = s[i];
        if b == 34 {
            return Option::Some((out, i + 1));
        }
        if b == 92 {
            if s.len() - i < 2 {
                return Option::None;
            }
            let e = s[i + 1];
            if e == 34 {
                out.push(34);
                i = i + 2;
            } else if e == 92 {
                out.push(92);
                i = i + 2;
            } else if e == 117 {
                if s.len() - i < 6 {
                    return Option::None;
                }
                let h1 = hex_val(s[i + 4]);
                let h2 = hex_val(s[i + 5]);
                match (h1, h2) {
                    (Option::Some(a), Option::Some(c)) => {
                        if s[i + 2] != 48 || s[i + 3] != 48 {
                            return Option::None;
                        }
                        out.push(a * 16 + c);
                        i = i + 6;
                    },
                    _ => {
                        return Option::None;
                    },
                }
            } else {
                return Option::None;
            }
        } else {
            out.push(b);
            i = i + 1;
        }
    }
    Option::None
}

/// The value of one hexadecimal digit.
fn hex_val(b: u8) -> (r: Option<u8>)
    ensures
        r matches Some(v) && v < 16 || r is None,
{
    if b >= 48 && b <= 57 {
        Option::Some(b - 48)
    } else if b >= 97 && b <= 102 {
        Option::Some(b - 87)
    } else {
        Option::None
    }
}

/// Parse a JSON array of byte values at `pos`.
fn eat_byte_array(s: &Vec<u8>, pos: usize) -> (r: Option<(Vec<u8>, usize)>)
    ensures
        r matches Some(p) && pos < p.1 <= s@.len() || r is None,
{
    if pos >= s.len() || s[pos] != 91 {
        return Option::None;
    }
    let mut out: Vec<u8> = Vec::new();
    let mut i = pos + 1;
    if i < s.len() && s[i] == 93 {
        return Option::Some((out, i + 1));
    }
    loop
        invariant
            pos < i <= s@.len(),
            s@.len() <= usize::MAX,
        decreases s@.len() - i,
    {
        match eat_u64(s, i) {
            Option::Some((n, p)) => {
                if n > 255 {
                    return Option::None;
                }
                out.push(n as u8);
                i = p;
            },
            Option::None => {
                return Option::None;
            },
        }
        if i < s.len() && s[i] == 44 {
            i = i + 1;
        } else if i < s.len() && s[i] == 93 {
            return Option::Some((out, i + 1));
        } else {
            return Option::None;
        }
    }
}

/// Parse an optional u64: `null` or digits.
fn eat_opt_u64(s: &Vec<u8>, pos: usize) -> (r: Option<(Option<u64>, usize)>)
    ensures
        r matches Some(p) && pos <= p.1 <= s@.len() || r is None,
{
    match eat_lit(s, pos, "null") {
        Option::Some(p) => Option::Some((Option::None, p)),
        Option::None => match eat_u64(s, pos) {
            Option::Some((n, p)) => Option::Some((Option::Some(n), p)),
            Option::None => Option::None,
        },
    }
}

/// Parse a log id object.
fn eat_log_id(s: &Vec<u8>, pos: usize) -> (r: Option<(LogId, usize)>)
    ensures
        r matches Some(p) && pos <= p.1 <= s@.len() || r is None,
{
    let p = match eat_lit(s, pos, "{\"leader_id\":{\"term\":") {
        Option::Some(p) => p,
        Option::None => {
            return Option::None;
        },
    };
    let (term, p) = match eat_u64(s, p) {
        Option::Some(x) => x,
        Option::None => {
            return Option::None;
        },
    };
    let p = match eat_lit(s, p, ",\"node_id\":") {
        Option::Some(p) => p,
        Option::None => {
            return Option::None;
        },
    };
    let (node_id, p) = match eat_u64(s, p) {
        Option::Some(x) => x,
        Option::None => {
            return Option::None;
        },
    };
    let p = match eat_lit(s, p, "},\"index\":") {
        Option::Some(p) => p,
        Option::None => {
            return Option::None;
        },
    };
    let (index, p) = match eat_u64(s, p) {
        Option::Some(x) => x,
        Option::None => {
            return Option::None;
        },
    };
    let p = match eat_lit(s, p, "}") {
        Option::Some(p) => p,
        Option::None => {
            return Option::None;
        },
    };
    Option::Some((LogId { term, node_id, index }, p))
}

/// Parse a data version literal.
fn eat_version(s: &Vec<u8>, pos: usize) -> (r: Option<(DataVersion, usize)>)
    ensures
        r matches Some(p) && pos <= p.1 <= s@.len() || r is None,
{
    match eat_lit(s, pos, "\"V001\"") {
        Option::Some(p) => {
            return Option::Some((DataVersion::V001, p));
        },
        Option::None => {},
    }
    match eat_lit(s, pos, "\"V002\"") {
        Option::Some(p) => {
            return Option::Some((DataVersion::V002, p));
        },
        Option::None => {},
    }
    match eat_lit(s, pos, "\"V003\"") {
        Option::Some(p) => {
            return Option::Some((DataVersion::V003, p));
        },
        Option::None => {},
    }
    match eat_lit(s, pos, "\"V0\"") {
        Option::Some(p) => Option::Some((DataVersion::V0, p)),
        Option::None => Option::None,
    }
}

/// Parse a membership object as the encoder writes it.
fn eat_membership(s: &Vec<u8>, pos: usize) -> (r: Option<(crate::types::Membership, usize)>)
    ensures
        r matches Some(p) && pos <= p.1 <= s@.len() || r is None,
{
    let mut p = match eat_lit(s, pos, "{\"configs\":[") {
        Option::Some(p) => p,
        Option::None => {
            return Option::None;
        },
    };
    let mut configs: Vec<Vec<u64>> = Vec::new();
    if p < s.len() && s[p] == 91 {
        loop
            invariant_except_break
                p < s@.len(),
            invariant
                pos <= p <= s@.len(),
                s@.len() <= usize::MAX,
            decreases s@.len() - p,
        {
            p = p + 1;
            let ghost p_entry = p;
            let mut one: Vec<u64> = Vec::new();
            if p < s.len() && s[p] == 93 {
                p = p + 1;
            } else {
                loop
                    invariant
                        pos <= p <= s@.len(),
                        p_entry <= p,
                        s@.len() <= usize::MAX,
                    decreases s@.len() - p,
                {
                    let (n, p2) = match eat_u64(s, p) {
                        Option::Some(x) => x,
                        Option::None => {
                            return Option::None;
                        },
                    };
                    one.push(n);
                    p = p2;
                    if p < s.len() && s[p] == 44 {
                        p = p + 1;
                    } else if p < s.len() && s[p] == 93 {
                        p = p + 1;
                        break ;
                    } else {
                        return Option::None;
                    }
                }
            }
            configs.push(one);
            if p < s.len() && s[p] == 44 && p + 1 < s.len() && s[p + 1] == 91 {
                p = p + 1;
            } else {
                break ;
            }
        }
    }
    let mut p = match eat_lit(s, p, "],\"nodes\":{") {
        Option::Some(p) => p,
        Option::None => {
            return Option::None;
        },
    };
    let mut nodes: Vec<u64> = Vec::new();
    if p < s.len() && s[p] == 34 {
        loop
            invariant_except_break
                p < s@.len(),
            invariant
                pos <= p <= s@.len(),
                s@.len() <= usize::MAX,
            decreases s@.len() - p,
        {
            p = p + 1;
            let (n, p2) = match eat_u64(s, p) {
                Option::Some(x) => x,
                Option::None => {
                    return Option::None;
                },
            };
            nodes.push(n);
            p = match eat_lit(s, p2, "\":{}") {
                Option::Some(p) => p,
                Option::None => {
                    return Option::None;
                },
            };
            if p < s.len() && s[p] == 44 && p + 1 < s.len() && s[p + 1] == 34 {
                p = p + 1;
            } else {
                break ;
            }
        }
    }
    let p = match eat_lit(s, p, "}}") {
        Option::Some(p) => p,
        Option::None => {
            return Option::None;
        },
    };
    Option::Some((crate::types::Membership { configs, nodes }, p))
}

/// Decode one line of the snapshot format back into a store entry.
///
/// A parsed candidate is accepted only when re-encoding it reproduces the
/// input byte for byte, so every accepted line is exactly the encoding of
/// the returned entry; anything else is rejected with `None`.
pub fn decode_entry(s: &Vec<u8>) -> (r: Option<RaftStoreEntry>)
    ensures
        r matches Some(d) ==> s@ == entry_json(d@),
{
    let cand = match parse_entry(s) {
        Option::Some(c) => c,
        Option::None => {
            return Option::None;
        },
    };
    let enc = encode_entry(&cand);
    if matches!(
        crate::bytes_order::key_compare(&enc, s),
        crate::bytes_order::KeyOrdering::Equal
    ) {
        Option::Some(cand)
    } else {
        Option::None
    }
}

/// Parse one line of the snapshot format; [`decode_entry`] checks the
/// candidate by re-encoding it.
fn parse_entry(s: &Vec<u8>) -> Option<RaftStoreEntry>
{
    match eat_lit(s, 0, "{\"DataHeader\":{\"key\":") {
        Option::Some(p) => {
            let (key, p) = match eat_quoted(s, p) {
                Option::Some(x) => x,
                Option::None => {
                    return Option::None;
                },
            };
            let p = match eat_lit(s, p, ",\"value\":{\"version\":") {
                Option::Some(p) => p,
                Option::None => {
                    return Option::None;
                },
            };
            let (version, p) = match eat_version(s, p) {
                Option::Some(x) => x,
                Option::None => {
                    return Option::None;
                },
            };
            let p = match eat_lit(s, p, ",\"upgrading\":") {
                Option::Some(p) => p,
                Option::None => {
                    return Option::None;
                },
            };
            let (upgrading, p) = match eat_lit(s, p, "null") {
                Option::Some(p2) => (Option::None, p2),
                Option::None => match eat_version(s, p) {
                    Option::Some((v, p2)) => (Option::Some(v), p2),
                    Option::None => {
                        return Option::None;
                    },
                },
            };
            if eat_lit(s, p, "}}}").is_none() {
                return Option::None;
            }
            return Option::Some(
                RaftStoreEntry::DataHeader { key, value: Header { version, upgrading } },
            );
        },
        Option::None => {},
    }
    match eat_lit(s, 0, "{\"Sequences\":{\"key\":") {
        Option::Some(p) => {
            let (key, p) = match eat_quoted(s, p) {
                Option::Some(x) => x,
                Option::None => {
                    return Option::None;
                },
            };
            let p = match eat_lit(s, p, ",\"value\":") {
                Option::Some(p) => p,
                Option::None => {
                    return Option::None;
                },
            };
            let (value, p) = match eat_u64(s, p) {
                Option::Some(x) => x,
                Option::None => {
                    return Option::None;
                },
            };
            if eat_lit(s, p, "}}").is_none() {
                return Option::None;
            }
            return Option::Some(RaftStoreEntry::Sequences { key, value });
        },
        Option::None => {},
    }
    match eat_lit(s, 0, "{\"Nodes\":{\"key\":") {
        Option::Some(p) => {
            let (key, p) = match eat_u64(s, p) {
                Option::Some(x) => x,
                Option::None => {
                    return Option::None;
                },
            };
            let p = match eat_lit(s, p, ",\"value\":{\"name\":") {
                Option::Some(p) => p,
                Option::None => {
                    return Option::None;
                },
            };
            let (name, p) = match eat_quoted(s, p) {
                Option::Some(x) => x,
                Option::None => {
                    return Option::None;
                },
            };
            let p = match eat_lit(s, p, ",\"endpoint\":{\"addr\":") {
                Option::Some(p) => p,
                Option::None => {
                    return Option::None;
                },
            };
            let (addr, p) = match eat_quoted(s, p) {
                Option::Some(x) => x,
                Option::None => {
                    return Option::None;
                },
            };
            let p = match eat_lit(s, p, ",\"port\":") {
                Option::Some(p) => p,
                Option::None => {
                    return Option::None;
                },
            };
            let (port, p) = match eat_u64(s, p) {
                Option::Some(x) => x,
                Option::None => {
                    return Option::None;
                },
            };
            let p = match eat_lit(s, p, "},\"grpc_api_advertise_address\":") {
                Option::Some(p) => p,
                Option::None => {
                    return Option::None;
                },
            };
            let (adv, p) = match eat_lit(s, p, "null") {
                Option::Some(p2) => (Option::None, p2),
                Option::None => match eat_quoted(s, p) {
                    Option::Some((a, p2)) => (Option::Some(a), p2),
                    Option::None => {
                        return Option::None;
                    },
                },
            };
            if eat_lit(s, p, "}}}").is_none() {
                return Option::None;
            }
            return Option::Some(
                RaftStoreEntry::Nodes {
                    key,
                    value: crate::types::Node {
                        name,
                        endpoint_addr: addr,
                        endpoint_port: port,
                        grpc_api_advertise_address: adv,
                    },
                },
            );
        },
        Option::None => {},
    }
    match eat_lit(s, 0, "{\"GenericKV\":{\"key\":") {
        Option::Some(p) => {
            let (key, p) = match eat_quoted(s, p) {
                Option::Some(x) => x,
                Option::None => {
                    return Option::None;
                },
            };
            let p = match eat_lit(s, p, ",\"value\":{\"seq\":") {
                Option::Some(p) => p,
                Option::None => {
                    return Option::None;
                },
            };
            let (seq, p) = match eat_u64(s, p) {
                Option::Some(x) => x,
                Option::None => {
                    return Option::None;
                },
            };
            let p = match eat_lit(s, p, ",\"meta\":") {
                Option::Some(p) => p,
                Option::None => {
                    return Option::None;
                },
            };
            let (meta, p) = match eat_lit(s, p, "null") {
                Option::Some(p2) => (Option::None, p2),
                Option::None => {
                    let p2 = match eat_lit(s, p, "{\"expire_at_ms\":") {
                        Option::Some(p2) => p2,
                        Option::None => {
                            return Option::None;
                        },
                    };
                    let (t, p2) = match eat_opt_u64(s, p2) {
                        Option::Some(x) => x,
                        Option::None => {
                            return Option::None;
                        },
                    };
                    let p2 = match eat_lit(s, p2, "}") {
                        Option::Some(p2) => p2,
                        Option::None => {
                            return Option::None;
                        },
                    };
                    (Option::Some(ValueMeta { expire_at_ms: t }), p2)
                },
            };
            let p = match eat_lit(s, p, ",\"data\":") {
                Option::Some(p) => p,
                Option::None => {
                    return Option::None;
                },
            };
            let (data, p) = match eat_byte_array(s, p) {
                Option::Some(x) => x,
                Option::None => {
                    return Option::None;
                },
            };
            if eat_lit(s, p, "}}}").is_none() {
                return Option::None;
            }
            return Option::Some(
                RaftStoreEntry::GenericKV {
                    key,
                    value: crate::types::SeqV { seq, meta, data },
                },
            );
        },
        Option::None => {},
    }
    match eat_lit(s, 0, "{\"Expire\":{\"key\":{\"time_ms\":") {
        Option::Some(p) => {
            let (time_ms, p) = match eat_u64(s, p) {
                Option::Some(x) => x,
                Option::None => {
                    return Option::None;
                },
            };
            let p = match eat_lit(s, p, ",\"seq\":") {
                Option::Some(p) => p,
                Option::None => {
                    return Option::None;
                },
            };
            let (kseq, p) = match eat_u64(s, p) {
                Option::Some(x) => x,
                Option::None => {
                    return Option::None;
                },
            };
            let p = match eat_lit(s, p, "},\"value\":{\"seq\":") {
                Option::Some(p) => p,
                Option::None => {
                    return Option::None;
                },
            };
            let (vseq, p) = match eat_u64(s, p) {
                Option::Some(x) => x,
                Option::None => {
                    return Option::None;
                },
            };
            let p = match eat_lit(s, p, ",\"key\":") {
                Option::Some(p) => p,
                Option::None => {
                    return Option::None;
                },
            };
            let (vkey, p) = match eat_quoted(s, p) {
                Option::Some(x) => x,
                Option::None => {
                    return Option::None;
                },
            };
            if eat_lit(s, p, "}}}").is_none() {
                return Option::None;
            }
            return Option::Some(
                RaftStoreEntry::Expire {
                    key: ExpireKey { time_ms, seq: kseq },
                    value: crate::types::ExpireValue { seq: vseq, key: vkey },
                },
            );
        },
        Option::None => {},
    }
    match eat_lit(s, 0, "{\"StateMachineMeta\":{\"key\":") {
        Option::Some(p) => {
            let (key, p) = match eat_lit(s, p, "\"LastApplied\"") {
                Option::Some(p2) => (StateMachineMetaKey::LastApplied, p2),
                Option::None => match eat_lit(s, p, "\"LastMembership\"") {
                    Option::Some(p2) => (StateMachineMetaKey::LastMembership, p2),
                    Option::None => match eat_lit(s, p, "\"Initialized\"") {
                        Option::Some(p2) => (StateMachineMetaKey::Initialized, p2),
                        Option::None => {
                            return Option::None;
                        },
                    },
                },
            };
            let p = match eat_lit(s, p, ",\"value\":") {
                Option::Some(p) => p,
                Option::None => {
                    return Option::None;
                },
            };
            match eat_lit(s, p, "{\"LogId\":") {
                Option::Some(p2) => {
                    let (l, p3) = match eat_log_id(s, p2) {
                        Option::Some(x) => x,
                        Option::None => {
                            return Option::None;
                        },
                    };
                    if eat_lit(s, p3, "}}}").is_none() {
                        return Option::None;
                    }
                    return Option::Some(
                        RaftStoreEntry::StateMachineMeta {
                            key,
                            value: crate::snapshot::StateMachineMetaValue::LogIdValue(l),
                        },
                    );
                },
                Option::None => {},
            }
            match eat_lit(s, p, "{\"Bool\":true}") {
                Option::Some(p2) => {
                    if eat_lit(s, p2, "}}").is_none() {
                        return Option::None;
                    }
                    return Option::Some(
                        RaftStoreEntry::StateMachineMeta {
                            key,
                            value: crate::snapshot::StateMachineMetaValue::BoolValue(true),
                        },
                    );
                },
                Option::None => {},
            }
            match eat_lit(s, p, "{\"Bool\":false}") {
                Option::Some(p2) => {
                    if eat_lit(s, p2, "}}").is_none() {
                        return Option::None;
                    }
                    return Option::Some(
                        RaftStoreEntry::StateMachineMeta {
                            key,
                            value: crate::snapshot::StateMachineMetaValue::BoolValue(false),
                        },
                    );
                },
                Option::None => {},
            }
            let p = match eat_lit(s, p, "{\"Membership\":{\"log_id\":") {
                Option::Some(p) => p,
                Option::None => {
                    return Option::None;
                },
            };
            let (lid, p) = match eat_lit(s, p, "null") {
                Option::Some(p2) => (Option::None, p2),
                Option::None => match eat_log_id(s, p) {
                    Option::Some((l, p2)) => (Option::Some(l), p2),
                    Option::None => {
                        return Option::None;
                    },
                },
            };
            let p = match eat_lit(s, p, ",\"membership\":") {
                Option::Some(p) => p,
                Option::None => {
                    return Option::None;
                },
            };
            let (m, p) = match eat_membership(s, p) {
                Option::Some(x) => x,
                Option::None => {
                    return Option::None;
                },
            };
            if eat_lit(s, p, "}}}}").is_none() {
                return Option::None;
            }
            return Option::Some(
                RaftStoreEntry::StateMachineMeta {
                    key,
                    value: crate::snapshot::StateMachineMetaValue::MembershipValue(
                        crate::types::StoredMembership { log_id: lid, membership: m },
                    ),
                },
            );
        },
        Option::None => {},
    }
    match eat_lit(s, 0, "{\"Logs\":{\"key\":") {
        Option::Some(p) => {
            let (key, p) = match eat_u64(s, p) {
                Option::Some(x) => x,
                Option::None => {
                    return Option::None;
                },
            };
            if eat_lit(s, p, "}}").is_none() {
                return Option::None;
            }
            return Option::Some(RaftStoreEntry::Logs { key });
        },
        Option::None => {},
    }
    match eat_lit(s, 0, "{\"LogMeta\":{\"key\":") {
        Option::Some(p) => {
            let (key, p) = match eat_quoted(s, p) {
                Option::Some(x) => x,
                Option::None => {
                    return Option::None;
                },
            };
            if eat_lit(s, p, "}}").is_none() {
                return Option::None;
            }
            return Option::Some(RaftStoreEntry::LogMeta { key });
        },
        Option::None => {},
    }
    match eat_lit(s, 0, "{\"RaftStateKV\":{\"key\":") {
        Option::Some(p) => {
            let (key, p) = match eat_quoted(s, p) {
                Option::Some(x) => x,
                Option::None => {
                    return Option::None;
                },
            };
            if eat_lit(s, p, "}}").is_none() {
                return Option::None;
            }
            return Option::Some(RaftStoreEntry::RaftStateKV { key });
        },
        Option::None => {},
    }
    match eat_lit(s, 0, "{\"ClientLastResps\":{\"key\":") {
        Option::Some(p) => {
            let (key, p) = match eat_quoted(s, p) {
                Option::Some(x) => x,
                Option::None => {
                    return Option::None;
                },
            };
            if eat_lit(s, p, "}}").is_none() {
                return Option::None;
            }
            return Option::Some(RaftStoreEntry::ClientLastResps { key });
        },
        Option::None => {},
    }
    Option::None
}

} // verus!
