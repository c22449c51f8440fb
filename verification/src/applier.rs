//! The applier: turns one committed Raft log entry into state changes.
//!
//! Per entry, strictly in order: sweep the expiration index up to the
//! entry's time, enforce `last_applied` monotonicity, dispatch the payload,
//! and queue change events for the subscriber.

use vstd::prelude::*;

use crate::bytes_order::key_dup;
use crate::cmd::AppliedState;
use crate::cmd::Change;
use crate::cmd::Cmd;
use crate::cmd::CmdV;
use crate::cmd::Entry;
use crate::cmd::EntryPayload;
use crate::cmd::UpsertKV;
use crate::leveled_map::merged_exp_at;
use crate::leveled_map::merged_kv_at;
use crate::leveled_map::total_exp;
use crate::leveled_map::total_kv;
use crate::sm::kv_state;
use crate::sm::opt_marked_seqv;
use crate::sm::SMV003;
use crate::txn::TxnOp;
use crate::txn::TxnOpV;
use crate::types::expire_key_lt;
use crate::types::marked_expire_at_ms;
use crate::types::marked_seq;
use crate::types::seqv_opt_eq;
use crate::types::ExpireKey;
use crate::types::MarkedV;
use crate::types::SeqV;

verus! {

/// An upper bound on the sequence numbers one transaction operation may
/// consume, given a bound on the number of live keys.
pub open spec fn op_seq_budget(op: TxnOpV, kv_bound: int) -> int {
    match op {
        TxnOpV::Get { .. } => 0,
        TxnOpV::Put { .. } => 2,
        TxnOpV::Delete { .. } => 2,
        TxnOpV::DeleteByPrefix { .. } => kv_bound,
    }
}

/// An upper bound on the primary records one transaction operation may add.
pub open spec fn op_kv_growth(op: TxnOpV, kv_bound: int) -> int {
    match op {
        TxnOpV::Get { .. } => 0,
        TxnOpV::Put { .. } => 2,
        TxnOpV::Delete { .. } => 2,
        TxnOpV::DeleteByPrefix { .. } => 2 * kv_bound,
    }
}

/// An upper bound on the sequence numbers a list of transaction operations
/// consumes, threading the growing bound on primary records.
pub open spec fn txn_seq_budget(ops: Seq<TxnOpV>, kv_bound: int) -> int
    decreases ops.len(),
{
    if ops.len() == 0 {
        0
    } else {
        op_seq_budget(ops[0], kv_bound) + txn_seq_budget(
            ops.skip(1),
            kv_bound + op_kv_growth(ops[0], kv_bound),
        )
    }
}

/// The budget is non-negative and monotone in the key bound.
pub proof fn lemma_txn_seq_budget_mono(ops: Seq<TxnOpV>, b1: int, b2: int)
    requires
        0 <= b1 <= b2,
    ensures
        0 <= txn_seq_budget(ops, b1) <= txn_seq_budget(ops, b2),
    decreases ops.len(),
{
    if ops.len() > 0 {
        lemma_txn_seq_budget_mono(
            ops.skip(1),
            b1 + op_kv_growth(ops[0], b1),
            b2 + op_kv_growth(ops[0], b2),
        );
    }
}

/// Record totals are never negative.
pub proof fn lemma_totals_nonneg(levels: Seq<crate::level_data::LevelDataV>)
    ensures
        total_kv(levels) >= 0,
        total_exp(levels) >= 0,
    decreases levels.len(),
{
    if levels.len() > 0 {
        lemma_totals_nonneg(levels.drop_last());
    }
}

/// An upper bound on the sequence numbers one command consumes.
pub open spec fn cmd_seq_budget(cmd: CmdV, kv_bound: int) -> int {
    match cmd {
        CmdV::AddNode { .. } => 0,
        CmdV::RemoveNode { .. } => 0,
        CmdV::UpsertKV(_) => 2,
        CmdV::Transaction(t) => txn_seq_budget(t.if_then, kv_bound) + txn_seq_budget(
            t.else_then,
            kv_bound,
        ),
    }
}

/// An upper bound on the sequence numbers applying one entry consumes: the
/// expiration sweep may delete one record per expiration entry, and then
/// the payload runs against a store that has grown accordingly.
pub open spec fn apply_seq_budget(levels: Seq<crate::level_data::LevelDataV>, e: crate::cmd::EntryV) -> int {
    total_exp(levels) + 2 + (match e.payload {
        crate::cmd::EntryPayloadV::Normal(d) => cmd_seq_budget(
            d.cmd,
            total_kv(levels) + 2 * total_exp(levels),
        ),
        _ => 0,
    })
}

/// The expiration key appears among the first `j` entries of the scanned
/// index.
pub open spec fn seen_in_prefix(exp: Seq<crate::expire_map::ExpPair>, j: int, e: ExpireKey) -> bool {
    exists|l: int| 0 <= l < j && (#[trigger] exp[l]).0 == e
}

pub proof fn lemma_seen_in_prefix_mono(
    exp: Seq<crate::expire_map::ExpPair>,
    j1: int,
    j2: int,
    e: ExpireKey,
)
    requires
        seen_in_prefix(exp, j1, e),
        j1 <= j2,
    ensures
        seen_in_prefix(exp, j2, e),
{
    let l = choose|l: int| 0 <= l < j1 && (#[trigger] exp[l]).0 == e;
    assert(0 <= l < j2 && exp[l].0 == e);
}

/// The view of a queued change list.
pub open spec fn changes_v(cs: Seq<Change>) -> Seq<crate::cmd::ChangeV> {
    cs.map_values(|c: Change| c@)
}

/// The event one write queues: a single change when the value differs
/// before and after, nothing otherwise.
pub open spec fn change_of(
    key: Seq<u8>,
    prev: Option<crate::types::SeqVV>,
    result: Option<crate::types::SeqVV>,
) -> Seq<crate::cmd::ChangeV> {
    if prev == result {
        Seq::empty()
    } else {
        seq![crate::cmd::ChangeV { ident: Option::Some(key), prev, result }]
    }
}

/// A versioned value with its metadata stripped, as `Get` responses report
/// it.
pub open spec fn strip_meta(v: Option<crate::types::SeqVV>) -> Option<crate::types::SeqVV> {
    match v {
        Option::None => Option::None,
        Option::Some(x) => Option::Some(
            (crate::types::SeqVV { seq: x.seq, meta: Option::None, data: x.data }),
        ),
    }
}

/// The upsert a transaction `Put` performs.
pub open spec fn put_upsert(key: Seq<u8>, value: Seq<u8>, expire_at_ms: Option<u64>) -> crate::cmd::UpsertKVV {
    crate::cmd::UpsertKVV {
        key,
        seq: crate::cmd::MatchSeq::Any,
        value: crate::cmd::OperationV::Update(value),
        value_meta: Option::Some((crate::types::ValueMeta { expire_at_ms })),
    }
}

/// The upsert a transaction `Delete` performs, gated when a sequence number
/// is demanded.
pub open spec fn delete_upsert(key: Seq<u8>, match_seq: Option<u64>) -> crate::cmd::UpsertKVV {
    crate::cmd::UpsertKVV {
        key,
        seq: match match_seq {
            Option::Some(s) => crate::cmd::MatchSeq::Exact(s),
            Option::None => crate::cmd::MatchSeq::Any,
        },
        value: crate::cmd::OperationV::Delete,
        value_meta: Option::None,
    }
}

/// The exact effect of `DeleteByPrefix`: one change per live key under the
/// prefix, in ascending key order; each such key is freshly tombstoned, the
/// counter advances once per deleted key, everything else is untouched, and
/// the response reports the clamped count.
pub open spec fn dbp_rel(
    pre: crate::sm::SMV003V,
    post: crate::sm::SMV003V,
    prefix: Seq<u8>,
    resp: crate::txn::TxnOpResponseV,
    ch: Seq<crate::cmd::ChangeV>,
) -> bool {
    let seq0 = pre.levels.last().sys.seq;
    &&& post.expire_cursor == pre.expire_cursor
    &&& post.levels.last().sys.last_applied == pre.levels.last().sys.last_applied
    &&& post.levels.last().sys.last_membership == pre.levels.last().sys.last_membership
    &&& post.levels.last().sys.nodes == pre.levels.last().sys.nodes
    &&& post.levels.last().sys.seq == seq0 + ch.len()
    &&& forall|i: int|
        0 <= i < ch.len() ==> {
            let c = #[trigger] ch[i];
            &&& c.ident matches Some(k) && crate::bytes_order::is_prefix_of(prefix, k)
                && c.prev == kv_state(pre.levels, k) && c.prev is Some && c.result is None
                && merged_kv_at(post.levels, k) == Option::Some(
                (MarkedV::TombStone { internal_seq: (seq0 + i + 1) as u64 }),
            )
        }
    &&& forall|i: int, j: int|
        0 <= i < j < ch.len() ==> crate::bytes_order::lex_lt(
            (#[trigger] ch[i]).ident.unwrap(),
            (#[trigger] ch[j]).ident.unwrap(),
        )
    &&& forall|k: Seq<u8>|
        crate::bytes_order::is_prefix_of(prefix, k) && (#[trigger] kv_state(pre.levels, k))
            is Some ==> exists|i: int| 0 <= i < ch.len() && (#[trigger] ch[i]).ident
            == Option::Some(k)
    &&& forall|k: Seq<u8>|
        (forall|i: int| 0 <= i < ch.len() ==> (#[trigger] ch[i]).ident != Option::Some(k))
            ==> #[trigger] merged_kv_at(post.levels, k) == merged_kv_at(pre.levels, k)
    &&& forall|e: ExpireKey|
        #[trigger] merged_exp_at(post.levels, e) == merged_exp_at(pre.levels, e) || (
        merged_exp_at(post.levels, e) matches Some(m) && m is TombStone)
    &&& resp == (crate::txn::TxnOpResponseV::DeleteByPrefix {
        prefix,
        count: if ch.len() > 0xffff_ffff {
            0xffff_ffffu32
        } else {
            ch.len() as u32
        },
    })
}

/// `DeleteByPrefix` with the empty prefix deletes every live key: after it,
/// no key reads back a value, and the response counts every key that was
/// live.
pub proof fn lemma_empty_prefix_deletes_all(
    pre: crate::sm::SMV003V,
    post: crate::sm::SMV003V,
    resp: crate::txn::TxnOpResponseV,
    ch: Seq<crate::cmd::ChangeV>,
)
    requires
        dbp_rel(pre, post, Seq::empty(), resp, ch),
    ensures
        forall|k: Seq<u8>| #[trigger] kv_state(post.levels, k) is None,
        forall|k: Seq<u8>| #[trigger] kv_state(pre.levels, k) is Some ==> exists|i: int|
            0 <= i < ch.len() && (#[trigger] ch[i]).ident == Option::Some(k),
{
    assert forall|k: Seq<u8>| #[trigger] kv_state(post.levels, k) is None by {
        assert(k.subrange(0, 0) =~= Seq::<u8>::empty());
        assert(crate::bytes_order::is_prefix_of(Seq::empty(), k));
        if kv_state(pre.levels, k) is Some {
            let i = choose|i: int| 0 <= i < ch.len() && (#[trigger] ch[i]).ident == Option::Some(
                k,
            );
            assert(merged_kv_at(post.levels, k) matches Some(m) && m is TombStone);
        } else {
            if exists|i: int| 0 <= i < ch.len() && (#[trigger] ch[i]).ident == Option::Some(k) {
                let i = choose|i: int|
                    0 <= i < ch.len() && (#[trigger] ch[i]).ident == Option::Some(k);
                assert(ch[i].prev is Some);
            } else {
                assert(merged_kv_at(post.levels, k) == merged_kv_at(pre.levels, k));
            }
        }
    }
    assert forall|k: Seq<u8>| #[trigger] kv_state(pre.levels, k) is Some implies exists|i: int|
        0 <= i < ch.len() && (#[trigger] ch[i]).ident == Option::Some(k) by {
        assert(k.subrange(0, 0) =~= Seq::<u8>::empty());
        assert(crate::bytes_order::is_prefix_of(Seq::empty(), k));
    }
}

/// The exact effect of one transaction operation: the state change, the
/// response pushed, and the change events queued.
pub open spec fn op_rel(
    pre: crate::sm::SMV003V,
    post: crate::sm::SMV003V,
    op: TxnOpV,
    resp: crate::txn::TxnOpResponseV,
    ch: Seq<crate::cmd::ChangeV>,
) -> bool {
    match op {
        TxnOpV::Get { key } => {
            &&& crate::sm::sm_obs_eq(pre, post)
            &&& ch.len() == 0
            &&& resp == (crate::txn::TxnOpResponseV::Get {
                key,
                value: strip_meta(kv_state(pre.levels, key)),
            })
        },
        TxnOpV::Put { key, value, expire_at_ms, prev_value } => {
            let up = put_upsert(key, value, expire_at_ms);
            let prev = crate::sm::upsert_prev_v(pre.levels, up);
            let res = crate::sm::upsert_result_v(pre, up);
            &&& crate::sm::upsert_rel(pre, post, up)
            &&& ch == change_of(key, prev, res)
            &&& resp == (crate::txn::TxnOpResponseV::Put {
                key,
                prev_value: if prev_value {
                    prev
                } else {
                    Option::None
                },
            })
        },
        TxnOpV::Delete { key, match_seq, prev_value } => {
            let up = delete_upsert(key, match_seq);
            let prev = crate::sm::upsert_prev_v(pre.levels, up);
            let res = crate::sm::upsert_result_v(pre, up);
            &&& crate::sm::upsert_rel(pre, post, up)
            &&& ch == change_of(key, prev, res)
            &&& resp == (crate::txn::TxnOpResponseV::Delete {
                key,
                success: prev is Some && res is None,
                prev_value: if prev_value {
                    prev
                } else {
                    Option::None
                },
            })
        },
        TxnOpV::DeleteByPrefix { prefix } => dbp_rel(pre, post, prefix, resp, ch),
    }
}

/// The exact effect of a list of transaction operations, run left to right:
/// the responses line up with the operations and the change events
/// concatenate in program order.
pub open spec fn ops_rel(
    pre: crate::sm::SMV003V,
    post: crate::sm::SMV003V,
    ops: Seq<TxnOpV>,
    resps: Seq<crate::txn::TxnOpResponseV>,
    ch: Seq<crate::cmd::ChangeV>,
) -> bool
    decreases ops.len(),
{
    if ops.len() == 0 {
        &&& crate::sm::sm_obs_eq(pre, post)
        &&& resps.len() == 0
        &&& ch.len() == 0
    } else {
        &&& resps.len() == ops.len()
        &&& exists|mid: crate::sm::SMV003V, ch0: Seq<crate::cmd::ChangeV>, ch1: Seq<crate::cmd::ChangeV>|
            ops_rel(pre, mid, ops.drop_last(), resps.drop_last(), ch0) && op_rel(
                mid,
                post,
                ops.last(),
                resps.last(),
                ch1,
            ) && ch == ch0 + ch1
    }
}

/// The exact effect of one command: the state change, the applied result,
/// and the change events queued.
pub open spec fn cmd_rel(
    pre: crate::sm::SMV003V,
    post: crate::sm::SMV003V,
    cmd: CmdV,
    rv: crate::cmd::AppliedStateV,
    ch: Seq<crate::cmd::ChangeV>,
) -> bool {
    match cmd {
        CmdV::AddNode { node_id, node, overriding } => {
            let prev = crate::node_map::node_lookup(pre.levels.last().sys.nodes, node_id);
            &&& ch.len() == 0
            &&& node_cmd_frame(pre, post)
            &&& post.levels.last().sys.nodes == (if prev is Some && !overriding {
                pre.levels.last().sys.nodes
            } else {
                crate::node_map::node_insert(pre.levels.last().sys.nodes, node_id, node)
            })
            &&& (match prev {
                Option::Some(p) => rv matches crate::cmd::AppliedStateV::Node {
                    prev: Some(rp),
                    result: rr,
                } && rp == p && (if overriding {
                    rr == Option::Some(node)
                } else {
                    rr == Option::Some(p)
                }),
                Option::None => rv == (crate::cmd::AppliedStateV::Node {
                    prev: Option::None,
                    result: Option::Some(node),
                }),
            })
        },
        CmdV::RemoveNode { node_id } => {
            let prev = crate::node_map::node_lookup(pre.levels.last().sys.nodes, node_id);
            &&& ch.len() == 0
            &&& node_cmd_frame(pre, post)
            &&& post.levels.last().sys.nodes == crate::node_map::node_remove(
                pre.levels.last().sys.nodes,
                node_id,
            )
            &&& rv == (crate::cmd::AppliedStateV::Node { prev, result: Option::None })
        },
        CmdV::UpsertKV(up) => {
            let prev = crate::sm::upsert_prev_v(pre.levels, up);
            let res = crate::sm::upsert_result_v(pre, up);
            &&& crate::sm::upsert_rel(pre, post, up)
            &&& ch == change_of(up.key, prev, res)
            &&& rv == crate::cmd::AppliedStateV::KV(
                (crate::cmd::ChangeV { ident: Option::None, prev, result: res }),
            )
        },
        CmdV::Transaction(t) => {
            let success = eval_conds_spec(pre.levels, t.condition);
            match rv {
                crate::cmd::AppliedStateV::TxnReply(reply) => {
                    &&& reply.success == success
                    &&& reply.error.len() == 0
                    &&& ops_rel(
                        pre,
                        post,
                        if success {
                            t.if_then
                        } else {
                            t.else_then
                        },
                        reply.responses,
                        ch,
                    )
                },
                _ => false,
            }
        },
    }
}

/// A node command leaves everything but the node table untouched.
pub open spec fn node_cmd_frame(pre: crate::sm::SMV003V, post: crate::sm::SMV003V) -> bool {
    &&& forall|k: Seq<u8>| #[trigger] merged_kv_at(post.levels, k) == merged_kv_at(pre.levels, k)
    &&& forall|e: ExpireKey| #[trigger] merged_exp_at(post.levels, e) == merged_exp_at(
        pre.levels,
        e,
    )
    &&& post.levels.last().sys.seq == pre.levels.last().sys.seq
    &&& post.levels.last().sys.last_applied == pre.levels.last().sys.last_applied
    &&& post.levels.last().sys.last_membership == pre.levels.last().sys.last_membership
    &&& post.expire_cursor == pre.expire_cursor
}

/// The exact effect of the expiration sweep up to `t` (inclusive): one
/// change per swept key, in expiration-key order; each swept key was live
/// and due and is freshly tombstoned; the counter advances once per swept
/// key; no due live expiration entry remains; the cursor never moves
/// backwards.  The sys block is not constrained here.
pub open spec fn sweep_rel(
    pre: crate::sm::SMV003V,
    post: crate::sm::SMV003V,
    t: u64,
    ch: Seq<crate::cmd::ChangeV>,
) -> bool {
    let seq0 = pre.levels.last().sys.seq;
    &&& post.expire_cursor == (if t == 0 || t < pre.expire_cursor.time_ms {
        pre.expire_cursor
    } else {
        ExpireKey { time_ms: t, seq: 0 }
    })
    &&& if t == 0 {
        &&& ch.len() == 0
        &&& post.levels.last().sys.seq == seq0
        &&& forall|k: Seq<u8>| #[trigger] merged_kv_at(post.levels, k) == merged_kv_at(
            pre.levels,
            k,
        )
        &&& forall|e: ExpireKey| #[trigger] merged_exp_at(post.levels, e) == merged_exp_at(
            pre.levels,
            e,
        )
    } else {
        &&& post.levels.last().sys.seq == seq0 + ch.len()
        &&& forall|i: int|
            0 <= i < ch.len() ==> {
                let c = #[trigger] ch[i];
                &&& c.ident matches Some(k)
                    && (merged_kv_at(pre.levels, k) matches Some(m) && m is Normal
                    && (marked_expire_at_ms(m) matches Some(tm) && tm <= t)
                    && c.prev == crate::types::marked_to_seqv(m))
                    && c.result is None
                    && merged_kv_at(post.levels, k) == Option::Some(
                    (MarkedV::TombStone { internal_seq: (seq0 + i + 1) as u64 }),
                )
            }
        &&& forall|i: int, j: int|
            0 <= i < j < ch.len() ==> expire_key_lt(
                crate::sm::opt_ekey_of(
                    merged_kv_at(pre.levels, (#[trigger] ch[i]).ident.unwrap()),
                ).unwrap(),
                crate::sm::opt_ekey_of(
                    merged_kv_at(pre.levels, (#[trigger] ch[j]).ident.unwrap()),
                ).unwrap(),
            )
        &&& forall|k: Seq<u8>|
            ((#[trigger] merged_kv_at(pre.levels, k)) matches Some(m) && m is Normal && (
            marked_expire_at_ms(m) matches Some(tm) && tm <= t)) ==> exists|i: int|
                0 <= i < ch.len() && (#[trigger] ch[i]).ident == Option::Some(k)
        &&& forall|k: Seq<u8>|
            (forall|i: int| 0 <= i < ch.len() ==> (#[trigger] ch[i]).ident != Option::Some(k))
                ==> #[trigger] merged_kv_at(post.levels, k) == merged_kv_at(pre.levels, k)
        &&& forall|e: ExpireKey|
            e.time_ms <= t ==> !(#[trigger] merged_exp_at(post.levels, e) matches Some(m)
                && m is Normal)
        &&& forall|e: ExpireKey|
            #[trigger] merged_exp_at(post.levels, e) == merged_exp_at(pre.levels, e) || ((
            merged_exp_at(pre.levels, e) matches Some(m) && m is Normal) && e.time_ms <= t
                && (merged_exp_at(post.levels, e) matches Some(m2) && m2 is TombStone))
    }
}

/// The exact effect of applying one accepted entry, witnessed by the state
/// `mid` after the expiration sweep and the sys-block writes: the sweep ran
/// up to the entry's time and queued `chs`; the entry's log id and, for a
/// membership entry, its membership were installed; the payload then acted
/// on `mid` exactly, queueing `chc`; and the subscriber, when installed,
/// received the pending events, the sweep's and the payload's, in order.
pub open spec fn apply_rel(
    pre: crate::sm::SMV003V,
    post: crate::sm::SMV003V,
    e: crate::cmd::EntryV,
    rv: crate::cmd::AppliedStateV,
    pending: Seq<crate::cmd::ChangeV>,
    sub_pre: Option<crate::sm::ChangeCollector>,
    sub_post: Option<crate::sm::ChangeCollector>,
    mid: crate::sm::SMV003V,
    chs: Seq<crate::cmd::ChangeV>,
    chc: Seq<crate::cmd::ChangeV>,
) -> bool {
    &&& sweep_rel(pre, mid, crate::cmd::entry_time_ms(e), chs)
    &&& mid.levels.last().sys.last_applied == Option::Some(e.log_id)
    &&& mid.levels.last().sys.last_membership == (match e.payload {
        crate::cmd::EntryPayloadV::Membership(m) => (crate::types::StoredMembershipV {
            log_id: Option::Some(e.log_id),
            membership: m,
        }),
        _ => pre.levels.last().sys.last_membership,
    })
    &&& mid.levels.last().sys.nodes == pre.levels.last().sys.nodes
    &&& (match e.payload {
        crate::cmd::EntryPayloadV::Normal(d) => cmd_rel(mid, post, d.cmd, rv, chc),
        _ => crate::sm::sm_obs_eq(mid, post) && rv == crate::cmd::AppliedStateV::Nothing
            && chc.len() == 0,
    })
    &&& (match sub_pre {
        Option::Some(c) => sub_post matches Some(c2) && changes_v(c2.received@) == changes_v(
            c.received@,
        ) + pending + chs + chc,
        Option::None => sub_post is None,
    })
}

/// The last membership was installed at or before the last applied entry.
pub open spec fn membership_applied_le(levels: Seq<crate::level_data::LevelDataV>) -> bool {
    match levels.last().sys.last_membership.log_id {
        Option::None => true,
        Option::Some(l) => levels.last().sys.last_applied matches Some(a)
            && crate::types::log_id_le(l, a),
    }
}

/// A helper that applies Raft log entries to the state machine, collecting
/// the change events of the entry being applied.
pub struct ApplierV003 {
    pub changes: Vec<Change>,
}

impl ApplierV003 {
    pub fn new() -> (r: ApplierV003)
        ensures
            r.changes@.len() == 0,
    {
        ApplierV003 { changes: Vec::new() }
    }

    /// Queue a change event for `key`: appended exactly when the value
    /// differs before and after, nothing otherwise.
    pub fn push_change(&mut self, key: Vec<u8>, prev: Option<SeqV>, result: Option<SeqV>)
        ensures
            changes_v(final(self).changes@) == changes_v(old(self).changes@) + change_of(
                key@,
                crate::sm::opt_seqv_v(prev),
                crate::sm::opt_seqv_v(result),
            ),
    {
        if seqv_opt_eq(&prev, &result) {
            proof {
                assert(crate::sm::opt_seqv_v(prev) == crate::sm::opt_seqv_v(result));
                assert(changes_v(self.changes@) =~= changes_v(self.changes@) + change_of(
                    key@,
                    crate::sm::opt_seqv_v(prev),
                    crate::sm::opt_seqv_v(result),
                ));
            }
            return ;
        }
        let ghost pre = self.changes@;
        let c = Change { ident: Option::Some(key), prev, result };
        proof {
            assert(crate::sm::opt_seqv_v(prev) != crate::sm::opt_seqv_v(result));
            assert(c@ == (crate::cmd::ChangeV {
                ident: Option::Some(c.ident.unwrap()@),
                prev: crate::sm::opt_seqv_v(prev),
                result: crate::sm::opt_seqv_v(result),
            }));
        }
        self.changes.push(c);
        proof {
            assert(changes_v(self.changes@) =~= changes_v(pre) + change_of(
                c.ident.unwrap()@,
                crate::sm::opt_seqv_v(prev),
                crate::sm::opt_seqv_v(result),
            ));
        }
    }

    /// Delete every expired entry: stream the expiration index in order,
    /// delete each entry due at `log_time_ms` (inclusive), stop at the
    /// first that is not due, then advance the expiration cursor.
    #[verifier::rlimit(100)]
    pub fn clean_expired_kvs(&mut self, sm: &mut SMV003, log_time_ms: u64)
        requires
            old(sm).inv(),
            old(sm).spec_seq() + total_exp(old(sm)@.levels) + 2 <= u64::MAX,
        ensures
            final(sm).inv(),
            final(sm)@.levels.last().sys.last_applied == old(sm)@.levels.last().sys.last_applied,
            final(sm)@.levels.last().sys.last_membership == old(
                sm,
            )@.levels.last().sys.last_membership,
            final(sm)@.levels.last().sys.nodes == old(sm)@.levels.last().sys.nodes,
            final(sm).subscriber_ref() == old(sm).subscriber_ref(),
            final(sm).spec_seq() <= old(sm).spec_seq() + total_exp(old(sm)@.levels),
            total_kv(final(sm)@.levels) <= total_kv(old(sm)@.levels) + 2 * total_exp(
                old(sm)@.levels,
            ),
            total_exp(final(sm)@.levels) <= total_exp(old(sm)@.levels) + 2 * total_exp(
                old(sm)@.levels,
            ),
            final(sm)@.expire_cursor == if log_time_ms == 0 || log_time_ms < old(
                sm,
            )@.expire_cursor.time_ms {
                old(sm)@.expire_cursor
            } else {
                ExpireKey { time_ms: log_time_ms, seq: 0 }
            },
            log_time_ms == 0 ==> final(sm)@.levels == old(sm)@.levels,
            log_time_ms != 0 ==> forall|e: ExpireKey|
                e.time_ms <= log_time_ms ==> !(#[trigger] merged_exp_at(final(sm)@.levels, e)
                    matches Some(m) && m is Normal),
            forall|k: Seq<u8>|
                #[trigger] merged_kv_at(final(sm)@.levels, k) == merged_kv_at(old(sm)@.levels, k)
                    || ((merged_kv_at(old(sm)@.levels, k) matches Some(m) && m is Normal
                    && (marked_expire_at_ms(m) matches Some(t) && t <= log_time_ms)) && (merged_kv_at(
                    final(sm)@.levels,
                    k,
                ) matches Some(m2) && m2 is TombStone)),
            crate::sm::seq_has_witness(old(sm)@.levels) ==> crate::sm::seq_has_witness(
                final(sm)@.levels,
            ),
            exists|ch: Seq<crate::cmd::ChangeV>|
                sweep_rel(old(sm)@, final(sm)@, log_time_ms, ch) && changes_v(
                    final(self).changes@,
                ) == changes_v(old(self).changes@) + ch,
    {
        if log_time_ms == 0 {
            proof {
                lemma_totals_nonneg(sm@.levels);
                let ch0 = Seq::<crate::cmd::ChangeV>::empty();
                assert(sweep_rel(sm@, sm@, log_time_ms, ch0));
                assert(changes_v(self.changes@) =~= changes_v(self.changes@) + ch0);
            }
            return ;
        }
        let ghost l0 = sm@.levels;
        let ghost seq0 = sm.spec_seq();
        let exp_map = sm.merged_expire_map();
        let n = exp_map.len();
        let ghost total0 = total_exp(l0);

        let mut to_clean: Vec<(ExpireKey, Vec<u8>)> = Vec::new();
        let mut j: usize = 0;
        let mut done: bool = false;
        proof {
            lemma_totals_nonneg(l0);
        }
        while j < n && !done
            invariant
                0 <= j <= n == exp_map@.len(),
                exp_map.wf(),
                sm.inv(),
                sm@ == old(sm)@,
                l0 == sm@.levels,
                seq0 == sm.spec_seq(),
                total0 == total_exp(l0),
                n <= total0,
                seq0 + total0 + 2 <= u64::MAX,
                forall|e: ExpireKey| #[trigger]
                    crate::expire_map::exp_lookup(exp_map@, e) == merged_exp_at(l0, e),
                done ==> j < n && exp_map@[j as int].0.time_ms > log_time_ms,
                to_clean@.len() <= j,
                forall|i: int|
                    0 <= i < to_clean@.len() ==> merged_exp_at(l0, (#[trigger] to_clean@[i]).0)
                        == Option::Some(
                        (MarkedV::Normal {
                            internal_seq: to_clean@[i].0.seq,
                            value: to_clean@[i].1@,
                            meta: Option::None,
                        }),
                    ) && to_clean@[i].0.time_ms <= log_time_ms,
                forall|i: int|
                    0 <= i < to_clean@.len() ==> seen_in_prefix(
                        exp_map@,
                        j as int,
                        (#[trigger] to_clean@[i]).0,
                    ),
                forall|i1: int, i2: int|
                    0 <= i1 < i2 < to_clean@.len() ==> expire_key_lt(
                        (#[trigger] to_clean@[i1]).0,
                        (#[trigger] to_clean@[i2]).0,
                    ),
                forall|l: int|
                    0 <= l < j ==> (#[trigger] exp_map@[l]).0.time_ms <= log_time_ms && (
                    exp_map@[l].1 is Normal ==> exists|i: int|
                        0 <= i < to_clean@.len() && (#[trigger] to_clean@[i]).0 == exp_map@[l].0),
            decreases n - j, (if done { 0int } else { 1int }),
        {
            let ghost tc_pre = to_clean@;
            let entry = exp_map.entry_at(j);
            if !entry.0.is_expired(log_time_ms) {
                done = true;
            } else {
                match &entry.1 {
                    crate::types::Marked::Normal { internal_seq, value, meta } => {
                        proof {
                            crate::expire_map::lemma_exp_lookup_at_index(exp_map@, j as int);
                            assert(merged_exp_at(l0, exp_map@[j as int].0) == Option::Some(
                                exp_map@[j as int].1,
                            ));
                            assert(match merged_exp_at(sm@.levels, exp_map@[j as int].0) {
                                Option::Some(
                                    MarkedV::Normal { internal_seq: s, value: k, meta: me },
                                ) => s == exp_map@[j as int].0.seq && me is None,
                                _ => false,
                            });
                        }
                        let ek = entry.0;
                        let kd = key_dup(value);
                        proof {
                            assert forall|i1: int| 0 <= i1 < tc_pre.len() implies expire_key_lt(
                                (#[trigger] tc_pre[i1]).0,
                                ek,
                            ) by {
                                assert(seen_in_prefix(exp_map@, j as int, tc_pre[i1].0));
                                let l = choose|l: int|
                                    0 <= l < j && ((#[trigger] exp_map@[l]).0 == tc_pre[i1].0);
                                assert(expire_key_lt(exp_map@[l].0, exp_map@[j as int].0));
                            }
                        }
                        to_clean.push((ek, kd));
                        proof {
                            assert forall|i: int| 0 <= i < to_clean@.len() implies seen_in_prefix(
                                exp_map@,
                                j as int + 1,
                                (#[trigger] to_clean@[i]).0,
                            ) by {
                                if i < tc_pre.len() {
                                    assert(to_clean@[i] == tc_pre[i]);
                                    lemma_seen_in_prefix_mono(
                                        exp_map@,
                                        j as int,
                                        j as int + 1,
                                        to_clean@[i].0,
                                    );
                                } else {
                                    assert(to_clean@[i].0 == exp_map@[j as int].0);
                                    assert(seen_in_prefix(exp_map@, j as int + 1, to_clean@[i].0));
                                }
                            }
                            assert forall|l: int|
                                0 <= l < j + 1 implies (#[trigger] exp_map@[l]).0.time_ms
                                <= log_time_ms && (exp_map@[l].1 is Normal ==> exists|i: int|
                                0 <= i < to_clean@.len() && (#[trigger] to_clean@[i]).0
                                    == exp_map@[l].0) by {
                                if l < j {
                                    if exp_map@[l].1 is Normal {
                                        let i = choose|i: int|
                                            0 <= i < tc_pre.len() && (#[trigger] tc_pre[i]).0
                                                == exp_map@[l].0;
                                        assert(to_clean@[i].0 == exp_map@[l].0);
                                    }
                                } else {
                                    assert(to_clean@[to_clean@.len() - 1].0 == exp_map@[
                                        j as int].0);
                                }
                            }
                        }
                    },
                    crate::types::Marked::TombStone { .. } => {
                        proof {
                            assert(exp_map@[j as int].1 is TombStone);
                            assert forall|i: int| 0 <= i < to_clean@.len() implies seen_in_prefix(
                                exp_map@,
                                j as int + 1,
                                (#[trigger] to_clean@[i]).0,
                            ) by {
                                lemma_seen_in_prefix_mono(
                                    exp_map@,
                                    j as int,
                                    j as int + 1,
                                    to_clean@[i].0,
                                );
                            }
                            assert forall|l: int|
                                0 <= l < j + 1 implies (#[trigger] exp_map@[l]).0.time_ms
                                <= log_time_ms && (exp_map@[l].1 is Normal ==> exists|i: int|
                                0 <= i < to_clean@.len() && (#[trigger] to_clean@[i]).0
                                    == exp_map@[l].0) by {
                                if l < j {
                                    if exp_map@[l].1 is Normal {
                                        let i = choose|i: int|
                                            0 <= i < to_clean@.len() && (#[trigger] to_clean@[i]).0
                                                == exp_map@[l].0;
                                    }
                                }
                            }
                        }
                    },
                }
                j = j + 1;
            }
        }

        // Delete each collected entry.
        let ghost base = changes_v(self.changes@);
        proof {
            // Each collected entry's backing record owns exactly that
            // expiration key.
            assert forall|i2: int| 0 <= i2 < to_clean@.len() implies crate::sm::opt_ekey_of(
                merged_kv_at(l0, (#[trigger] to_clean@[i2]).1@),
            ) == Option::Some(to_clean@[i2].0) by {
                assert(merged_exp_at(l0, to_clean@[i2].0) == Option::Some(
                    (MarkedV::Normal {
                        internal_seq: to_clean@[i2].0.seq,
                        value: to_clean@[i2].1@,
                        meta: Option::None,
                    }),
                ));
            }
            assert(changes_v(self.changes@).take(changes_v(self.changes@).len() as int)
                =~= changes_v(self.changes@));
        }
        let m = to_clean.len();
        let mut i: usize = 0;
        while i < m
            invariant
                0 <= i <= m == to_clean@.len(),
                m <= total0,
                sm.inv(),
                seq0 + total0 + 2 <= u64::MAX,
                sm.spec_seq() == seq0 + i,
                log_time_ms != 0,
                base == changes_v(old(self).changes@),
                changes_v(self.changes@).len() == base.len() + i,
                changes_v(self.changes@).take(base.len() as int) == base,
                forall|i2: int|
                    0 <= i2 < i ==> changes_v(self.changes@)[base.len() + i2]
                        == (crate::cmd::ChangeV {
                        ident: Option::Some((#[trigger] to_clean@[i2]).1@),
                        prev: crate::types::marked_to_seqv(
                            merged_kv_at(l0, to_clean@[i2].1@).unwrap(),
                        ),
                        result: Option::None,
                    }),
                forall|i2: int|
                    0 <= i2 < to_clean@.len() ==> crate::sm::opt_ekey_of(
                        merged_kv_at(l0, (#[trigger] to_clean@[i2]).1@),
                    ) == Option::Some(to_clean@[i2].0),
                forall|i2: int|
                    0 <= i2 < to_clean@.len() ==> (#[trigger] to_clean@[i2]).0.time_ms
                        <= log_time_ms,
                total_kv(sm@.levels) <= total_kv(l0) + 2 * i,
                total_exp(sm@.levels) <= total_exp(l0) + 2 * i,
                sm@.expire_cursor == old(sm)@.expire_cursor,
                sm@.levels.last().sys.last_applied == l0.last().sys.last_applied,
                sm@.levels.last().sys.last_membership == l0.last().sys.last_membership,
                sm@.levels.last().sys.nodes == l0.last().sys.nodes,
                sm.subscriber_ref() == old(sm).subscriber_ref(),
                forall|i1: int, i2: int|
                    0 <= i1 < i2 < to_clean@.len() ==> expire_key_lt(
                        (#[trigger] to_clean@[i1]).0,
                        (#[trigger] to_clean@[i2]).0,
                    ),
                forall|i2: int|
                    0 <= i2 < i ==> (#[trigger] merged_kv_at(sm@.levels, to_clean@[i2].1@))
                        == Option::Some(
                        (MarkedV::TombStone { internal_seq: (seq0 + i2 + 1) as u64 }),
                    ),
                forall|i2: int|
                    0 <= i2 < i ==> ((#[trigger] merged_exp_at(sm@.levels, to_clean@[i2].0))
                        matches Some(m2) && m2 is TombStone),
                forall|i2: int|
                    i <= i2 < to_clean@.len() ==> merged_exp_at(
                        sm@.levels,
                        (#[trigger] to_clean@[i2]).0,
                    ) == Option::Some(
                        (MarkedV::Normal {
                            internal_seq: to_clean@[i2].0.seq,
                            value: to_clean@[i2].1@,
                            meta: Option::None,
                        }),
                    ),
                forall|i2: int|
                    0 <= i2 < to_clean@.len() ==> (merged_kv_at(l0, (#[trigger] to_clean@[i2]).1@)
                        matches Some(m2) && m2 is Normal && marked_expire_at_ms(m2)
                        == Option::Some(to_clean@[i2].0.time_ms)),
                forall|k: Seq<u8>|
                    #[trigger] merged_kv_at(sm@.levels, k) == merged_kv_at(l0, k) || exists|i2: int|
                        0 <= i2 < i && (#[trigger] to_clean@[i2]).1@ == k,
                forall|e: ExpireKey|
                    #[trigger] merged_exp_at(sm@.levels, e) == merged_exp_at(l0, e) || exists|
                        i2: int,
                    |
                        0 <= i2 < i && (#[trigger] to_clean@[i2]).0 == e,
                crate::sm::seq_has_witness(l0) ==> crate::sm::seq_has_witness(sm@.levels),
            decreases m - i,
        {
            let ghost lc = sm@.levels;
            let ghost e_i = to_clean@[i as int].0;
            let ghost k_i = to_clean@[i as int].1@;
            proof {
                // The backing kv entry of the expiration entry being
                // cleaned: live, with the matching sequence number.
                assert(merged_exp_at(lc, e_i) == Option::Some(
                    (MarkedV::Normal {
                        internal_seq: e_i.seq,
                        value: k_i,
                        meta: Option::None,
                    }),
                ));
                assert(match merged_kv_at(lc, k_i) {
                    Option::Some(MarkedV::Normal { internal_seq: s2, value: _, meta }) => s2
                        == e_i.seq && crate::types::meta_expire_at_ms(meta) == Option::Some(
                        e_i.time_ms,
                    ),
                    _ => false,
                });
            }
            let key_for_up = key_dup(&to_clean[i].1);
            let key_for_change = key_dup(&to_clean[i].1);
            let up = UpsertKV::delete(key_for_up);
            let (prev, res) = sm.upsert_kv(&up);
            proof {
                assert(crate::sm::upsert_applies(up@, merged_kv_at(lc, k_i)));
                assert(merged_kv_at(sm@.levels, k_i) matches Some(m2) && m2 is TombStone);
                assert(crate::sm::opt_ekey_of(merged_kv_at(lc, k_i)) == Option::Some(e_i));
                assert(merged_exp_at(sm@.levels, e_i) matches Some(m2) && m2 is TombStone);
                // No earlier swept key equals this one: their expiration
                // keys are strictly ordered.
                assert forall|i2: int| 0 <= i2 < i implies (#[trigger] to_clean@[i2]).1@
                    != k_i by {
                    if to_clean@[i2].1@ == k_i {
                        assert(crate::sm::opt_ekey_of(merged_kv_at(l0, k_i)) == Option::Some(
                            to_clean@[i2].0,
                        ));
                        assert(expire_key_lt(to_clean@[i2].0, e_i));
                    }
                }
                assert(merged_kv_at(lc, k_i) == merged_kv_at(l0, k_i));
                // The fresh tombstone carries the next sequence number.
                assert(merged_kv_at(sm@.levels, k_i) == Option::Some(
                    (MarkedV::TombStone { internal_seq: (seq0 + i + 1) as u64 }),
                ));
                // Earlier swept keys and their expiration entries are
                // untouched by this write.
                assert forall|i2: int| 0 <= i2 < i implies (#[trigger] merged_kv_at(
                    sm@.levels,
                    to_clean@[i2].1@,
                )) == Option::Some(
                    (MarkedV::TombStone { internal_seq: (seq0 + i2 + 1) as u64 }),
                ) by {
                    assert(merged_kv_at(sm@.levels, to_clean@[i2].1@) == merged_kv_at(
                        lc,
                        to_clean@[i2].1@,
                    ));
                }
                assert forall|i2: int| 0 <= i2 < i implies ((#[trigger] merged_exp_at(
                    sm@.levels,
                    to_clean@[i2].0,
                )) matches Some(m2) && m2 is TombStone) by {
                    assert(expire_key_lt(to_clean@[i2].0, e_i));
                    assert(to_clean@[i2].0 != e_i);
                    assert(merged_exp_at(sm@.levels, to_clean@[i2].0) == merged_exp_at(
                        lc,
                        to_clean@[i2].0,
                    ));
                }
                assert forall|i2: int|
                    i + 1 <= i2 < to_clean@.len() implies merged_exp_at(
                    sm@.levels,
                    (#[trigger] to_clean@[i2]).0,
                ) == Option::Some(
                    (MarkedV::Normal {
                        internal_seq: to_clean@[i2].0.seq,
                        value: to_clean@[i2].1@,
                        meta: Option::None,
                    }),
                ) by {
                    assert(expire_key_lt(e_i, to_clean@[i2].0));
                    assert(to_clean@[i2].0 != e_i);
                    if to_clean@[i2].1@ == k_i {
                        assert(match merged_kv_at(lc, k_i) {
                            Option::Some(MarkedV::Normal { internal_seq: s2, value: _, meta }) => s2
                                == to_clean@[i2].0.seq && crate::types::meta_expire_at_ms(meta)
                                == Option::Some(to_clean@[i2].0.time_ms),
                            _ => false,
                        });
                        assert(to_clean@[i2].0 == e_i);
                    }
                }
            }
            proof {
                assert((#[trigger] merged_kv_at(sm@.levels, k_i)) matches Some(m) && marked_seq(
                    m,
                ) == sm.spec_seq());
                assert(crate::sm::seq_has_witness(sm@.levels));
                assert(crate::sm::opt_seqv_v(prev) == crate::types::marked_to_seqv(
                    merged_kv_at(l0, k_i).unwrap(),
                ));
                assert(crate::sm::opt_seqv_v(prev) is Some);
            }
            let ghost cpre = changes_v(self.changes@);
            self.push_change(key_for_change, prev, Option::None);
            proof {
                assert(change_of(k_i, crate::sm::opt_seqv_v(prev), Option::None).len() == 1);
                assert(changes_v(self.changes@).len() == base.len() + i + 1);
                assert(changes_v(self.changes@).take(base.len() as int) =~= base);
                assert(changes_v(self.changes@)[base.len() + i] == (crate::cmd::ChangeV {
                    ident: Option::Some(k_i),
                    prev: crate::types::marked_to_seqv(merged_kv_at(l0, k_i).unwrap()),
                    result: Option::None,
                }));
                assert forall|i2: int| 0 <= i2 < i + 1 implies changes_v(self.changes@)[base.len()
                    + i2] == (crate::cmd::ChangeV {
                    ident: Option::Some((#[trigger] to_clean@[i2]).1@),
                    prev: crate::types::marked_to_seqv(
                        merged_kv_at(l0, to_clean@[i2].1@).unwrap(),
                    ),
                    result: Option::None,
                }) by {
                    if i2 < i {
                        assert(changes_v(self.changes@)[base.len() + i2] == cpre[base.len() + i2]);
                    }
                }
            }
            i = i + 1;
        }

        proof {
            // Every due expiration entry was collected, hence cleaned.
            assert forall|e: ExpireKey|
                e.time_ms <= log_time_ms implies !(#[trigger] merged_exp_at(sm@.levels, e)
                matches Some(mm) && mm is Normal) by {
                if merged_exp_at(sm@.levels, e) matches Some(mm) && mm is Normal {
                    if exists|i2: int|
                        0 <= i2 < to_clean@.len() && (#[trigger] to_clean@[i2]).0 == e {
                    } else {
                        assert(merged_exp_at(sm@.levels, e) == merged_exp_at(l0, e));
                        assert(crate::expire_map::exp_lookup(exp_map@, e) == merged_exp_at(
                            l0,
                            e,
                        ));
                        crate::expire_map::lemma_exp_lookup_some_index(exp_map@, e);
                        let l = choose|l: int|
                            0 <= l < exp_map@.len() && (#[trigger] exp_map@[l]).0 == e
                                && exp_map@[l].1 == crate::expire_map::exp_lookup(
                                exp_map@,
                                e,
                            ).unwrap();
                        if l >= j {
                            assert(j < n && exp_map@[j as int].0.time_ms > log_time_ms);
                            assert(l > j ==> expire_key_lt(exp_map@[j as int].0, exp_map@[l].0));
                            assert(e.time_ms > log_time_ms);
                        } else {
                            assert(exp_map@[l].1 is Normal);
                        }
                    }
                }
            }
        }
        sm.update_expire_cursor(log_time_ms);
        proof {
            let chw = changes_v(self.changes@).skip(base.len() as int);
            assert(chw.len() == m);
            assert forall|i2: int| 0 <= i2 < m implies #[trigger] chw[i2] == (crate::cmd::ChangeV {
                ident: Option::Some(to_clean@[i2].1@),
                prev: crate::types::marked_to_seqv(merged_kv_at(l0, to_clean@[i2].1@).unwrap()),
                result: Option::None,
            }) by {
                assert(chw[i2] == changes_v(self.changes@)[base.len() + i2]);
            }
            // Every live record due at the sweep time was swept: its
            // expiration entry stands in the scanned index and was
            // collected.
            assert forall|k: Seq<u8>|
                ((#[trigger] merged_kv_at(l0, k)) matches Some(mm) && mm is Normal && (
                marked_expire_at_ms(mm) matches Some(tm) && tm <= log_time_ms)) implies exists|
                i2: int,
            | 0 <= i2 < chw.len() && (#[trigger] chw[i2]).ident == Option::Some(k) by {
                let mm = merged_kv_at(l0, k).unwrap();
                let tm = marked_expire_at_ms(mm).unwrap();
                let e = ExpireKey { time_ms: tm, seq: marked_seq(mm) };
                assert(merged_exp_at(l0, e) == Option::Some(
                    (MarkedV::Normal {
                        internal_seq: marked_seq(mm),
                        value: k,
                        meta: Option::None,
                    }),
                ));
                assert(crate::expire_map::exp_lookup(exp_map@, e) == merged_exp_at(l0, e));
                crate::expire_map::lemma_exp_lookup_some_index(exp_map@, e);
                let l = choose|l: int|
                    0 <= l < exp_map@.len() && (#[trigger] exp_map@[l]).0 == e && exp_map@[l].1
                        == crate::expire_map::exp_lookup(exp_map@, e).unwrap();
                if l >= j {
                    assert(j < n && exp_map@[j as int].0.time_ms > log_time_ms);
                    assert(l > j ==> expire_key_lt(exp_map@[j as int].0, exp_map@[l].0));
                    assert(e.time_ms > log_time_ms);
                } else {
                    assert(exp_map@[l].1 is Normal);
                    let i2 = choose|i2: int|
                        0 <= i2 < to_clean@.len() && (#[trigger] to_clean@[i2]).0 == e;
                    assert(merged_exp_at(l0, e) == Option::Some(
                        (MarkedV::Normal {
                            internal_seq: e.seq,
                            value: to_clean@[i2].1@,
                            meta: Option::None,
                        }),
                    ));
                    assert(to_clean@[i2].1@ == k);
                    assert(chw[i2].ident == Option::Some(k));
                }
            }
            // The swept keys are strictly ordered by their expiration keys.
            assert forall|i1: int, i2: int| 0 <= i1 < i2 < chw.len() implies expire_key_lt(
                crate::sm::opt_ekey_of(
                    merged_kv_at(l0, (#[trigger] chw[i1]).ident.unwrap()),
                ).unwrap(),
                crate::sm::opt_ekey_of(
                    merged_kv_at(l0, (#[trigger] chw[i2]).ident.unwrap()),
                ).unwrap(),
            ) by {
                assert(crate::sm::opt_ekey_of(merged_kv_at(l0, to_clean@[i1].1@))
                    == Option::Some(to_clean@[i1].0));
                assert(crate::sm::opt_ekey_of(merged_kv_at(l0, to_clean@[i2].1@))
                    == Option::Some(to_clean@[i2].0));
                assert(expire_key_lt(to_clean@[i1].0, to_clean@[i2].0));
            }
            // A key with no sweep event is untouched.
            assert forall|k: Seq<u8>|
                (forall|i2: int| 0 <= i2 < chw.len() ==> (#[trigger] chw[i2]).ident
                    != Option::Some(k)) implies #[trigger] merged_kv_at(sm@.levels, k)
                == merged_kv_at(l0, k) by {
                if merged_kv_at(sm@.levels, k) != merged_kv_at(l0, k) {
                    let i2 = choose|i2: int|
                        0 <= i2 < to_clean@.len() && (#[trigger] to_clean@[i2]).1@ == k;
                    assert(chw[i2].ident == Option::Some(k));
                }
            }
            // A changed expiration entry was a due live one and now holds a
            // tombstone.
            assert forall|e: ExpireKey|
                #[trigger] merged_exp_at(sm@.levels, e) == merged_exp_at(l0, e) || ((
                merged_exp_at(l0, e) matches Some(mm) && mm is Normal) && e.time_ms
                    <= log_time_ms && (merged_exp_at(sm@.levels, e) matches Some(m2)
                    && m2 is TombStone)) by {
                if merged_exp_at(sm@.levels, e) != merged_exp_at(l0, e) {
                    let i2 = choose|i2: int|
                        0 <= i2 < to_clean@.len() && (#[trigger] to_clean@[i2]).0 == e;
                    assert(merged_exp_at(l0, e) == Option::Some(
                        (MarkedV::Normal {
                            internal_seq: e.seq,
                            value: to_clean@[i2].1@,
                            meta: Option::None,
                        }),
                    ));
                    assert(to_clean@[i2].0.time_ms <= log_time_ms);
                    assert(merged_exp_at(sm@.levels, e) matches Some(m2) && m2 is TombStone);
                }
            }
            assert(sweep_rel(old(sm)@, sm@, log_time_ms, chw));
            assert(changes_v(self.changes@) =~= changes_v(old(self).changes@) + chw);
        }
    }
}


/// Evaluate a comparator on two integers.
pub open spec fn cmp_u64_spec(op: crate::txn::CmpOp, l: u64, r: u64) -> bool {
    match op {
        crate::txn::CmpOp::Eq => l == r,
        crate::txn::CmpOp::Gt => l > r,
        crate::txn::CmpOp::Lt => l < r,
        crate::txn::CmpOp::Ne => l != r,
        crate::txn::CmpOp::Ge => l >= r,
        crate::txn::CmpOp::Le => l <= r,
    }
}

/// Evaluate a comparator on two byte strings, in lexicographic order.
pub open spec fn cmp_bytes_spec(op: crate::txn::CmpOp, l: Seq<u8>, r: Seq<u8>) -> bool {
    match op {
        crate::txn::CmpOp::Eq => l == r,
        crate::txn::CmpOp::Gt => crate::bytes_order::lex_lt(r, l),
        crate::txn::CmpOp::Lt => crate::bytes_order::lex_lt(l, r),
        crate::txn::CmpOp::Ne => l != r,
        crate::txn::CmpOp::Ge => crate::bytes_order::lex_lt(r, l) || l == r,
        crate::txn::CmpOp::Le => crate::bytes_order::lex_lt(l, r) || l == r,
    }
}

/// One condition against the live store: compares the entry's sequence
/// number or value; an absent key has sequence 0 and no value; a condition
/// without a target is false.
pub open spec fn eval_cond_spec(
    levels: Seq<crate::level_data::LevelDataV>,
    c: crate::txn::TxnConditionV,
) -> bool {
    let sv = kv_state(levels, c.key);
    match c.target {
        Option::None => false,
        Option::Some(crate::txn::CondTargetV::CmpSeq { value }) => cmp_u64_spec(
            c.expected,
            match sv {
                Option::Some(v) => v.seq,
                Option::None => 0,
            },
            value,
        ),
        Option::Some(crate::txn::CondTargetV::CmpValue { value }) => match sv {
            Option::Some(v) => cmp_bytes_spec(c.expected, v.data, value),
            Option::None => false,
        },
    }
}

/// All conditions hold (short-circuit conjunction).
pub open spec fn eval_conds_spec(
    levels: Seq<crate::level_data::LevelDataV>,
    cs: Seq<crate::txn::TxnConditionV>,
) -> bool
    decreases cs.len(),
{
    if cs.len() == 0 {
        true
    } else {
        eval_cond_spec(levels, cs[0]) && eval_conds_spec(levels, cs.skip(1))
    }
}

/// The per-operation reject/accept error of applying an already-applied log
/// entry.
#[derive(Clone, PartialEq, Eq, Debug)]
pub enum ApplyError {
    RejectedLogId { log_id: crate::types::LogId, last_applied: Option<crate::types::LogId> },
}

impl ApplierV003 {
    /// Evaluate one transaction condition against the live store.
    pub fn eval_one_condition(&self, sm: &SMV003, cond: &crate::txn::TxnCondition) -> (r: bool)
        ensures
            r == eval_cond_spec(sm@.levels, cond@),
    {
        let sv = sm.get_kv(&cond.key);
        match &cond.target {
            Option::None => false,
            Option::Some(crate::txn::CondTarget::CmpSeq { value }) => {
                let seq: u64 = match &sv {
                    Option::Some(v) => v.seq,
                    Option::None => 0,
                };
                Self::eval_seq_condition(seq, cond.expected, *value)
            },
            Option::Some(crate::txn::CondTarget::CmpValue { value }) => {
                match &sv {
                    Option::Some(v) => Self::eval_value_condition(&v.data, cond.expected, value),
                    Option::None => false,
                }
            },
        }
    }

    pub fn eval_seq_condition(left: u64, op: crate::txn::CmpOp, right: u64) -> (r: bool)
        ensures
            r == cmp_u64_spec(op, left, right),
    {
        match op {
            crate::txn::CmpOp::Eq => left == right,
            crate::txn::CmpOp::Gt => left > right,
            crate::txn::CmpOp::Lt => left < right,
            crate::txn::CmpOp::Ne => left != right,
            crate::txn::CmpOp::Ge => left >= right,
            crate::txn::CmpOp::Le => left <= right,
        }
    }

    pub fn eval_value_condition(left: &Vec<u8>, op: crate::txn::CmpOp, right: &Vec<u8>) -> (r:
        bool)
        ensures
            r == cmp_bytes_spec(op, left@, right@),
    {
        let c = crate::bytes_order::key_compare(left, right);
        match op {
            crate::txn::CmpOp::Eq => matches!(c, crate::bytes_order::KeyOrdering::Equal),
            crate::txn::CmpOp::Gt => matches!(c, crate::bytes_order::KeyOrdering::Above),
            crate::txn::CmpOp::Lt => matches!(c, crate::bytes_order::KeyOrdering::Below),
            crate::txn::CmpOp::Ne => !matches!(c, crate::bytes_order::KeyOrdering::Equal),
            crate::txn::CmpOp::Ge => !matches!(c, crate::bytes_order::KeyOrdering::Below),
            crate::txn::CmpOp::Le => !matches!(c, crate::bytes_order::KeyOrdering::Above),
        }
    }

    /// Evaluate the condition list with short-circuit conjunction.
    pub fn eval_txn_conditions(&self, sm: &SMV003, conds: &Vec<crate::txn::TxnCondition>) -> (r:
        bool)
        ensures
            r == eval_conds_spec(sm@.levels, conds@.map_values(|c: crate::txn::TxnCondition| c@)),
    {
        let ghost cs = conds@.map_values(|c: crate::txn::TxnCondition| c@);
        let n = conds.len();
        let mut i: usize = 0;
        proof {
            assert(cs.skip(0) =~= cs);
        }
        while i < n
            invariant
                0 <= i <= n == cs.len(),
                cs == conds@.map_values(|c: crate::txn::TxnCondition| c@),
                eval_conds_spec(sm@.levels, cs) == eval_conds_spec(
                    sm@.levels,
                    cs.skip(i as int),
                ),
            decreases n - i,
        {
            proof {
                assert(cs.skip(i as int)[0] == cs[i as int]);
                assert(cs.skip(i as int).skip(1) =~= cs.skip(i as int + 1));
                assert(cs[i as int] == conds@[i as int]@);
            }
            if !self.eval_one_condition(sm, &conds[i]) {
                return false;
            }
            i = i + 1;
        }
        proof {
            assert(cs.skip(n as int).len() == 0);
        }
        true
    }

    /// Execute one transaction operation and append its response.
    pub fn txn_execute_operation(
        &mut self,
        sm: &mut SMV003,
        op: &TxnOp,
        resp: &mut crate::txn::TxnReply,
    )
        requires
            old(sm).inv(),
            old(sm).spec_seq() + op_seq_budget(op@, total_kv(old(sm)@.levels)) + 2 <= u64::MAX,
        ensures
            final(sm).inv(),
            final(sm)@.expire_cursor == old(sm)@.expire_cursor,
            final(sm).subscriber_ref() == old(sm).subscriber_ref(),
            final(sm)@.levels.last().sys.last_applied == old(sm)@.levels.last().sys.last_applied,
            final(sm)@.levels.last().sys.last_membership == old(
                sm,
            )@.levels.last().sys.last_membership,
            final(sm)@.levels.last().sys.nodes == old(sm)@.levels.last().sys.nodes,
            final(sm).spec_seq() <= old(sm).spec_seq() + op_seq_budget(
                op@,
                total_kv(old(sm)@.levels),
            ),
            total_kv(final(sm)@.levels) <= total_kv(old(sm)@.levels) + op_kv_growth(
                op@,
                total_kv(old(sm)@.levels),
            ),
            final(resp).responses@.len() == old(resp).responses@.len() + 1,
            forall|i: int|
                0 <= i < old(resp).responses@.len() ==> #[trigger] final(resp).responses@[i]
                    == old(resp).responses@[i],
            final(resp).success == old(resp).success,
            final(resp).error == old(resp).error,
            crate::sm::seq_has_witness(old(sm)@.levels) ==> crate::sm::seq_has_witness(
                final(sm)@.levels,
            ),
            exists|ch: Seq<crate::cmd::ChangeV>|
                op_rel(old(sm)@, final(sm)@, op@, final(resp).responses@.last()@, ch)
                    && changes_v(final(self).changes@) == changes_v(old(self).changes@) + ch,
    {
        proof {
            lemma_totals_nonneg(sm@.levels);
        }
        let ghost lpre = sm@.levels;
        match op {
            TxnOp::Get { key } => {
                let sv = sm.get_kv(key);
                let value: Option<SeqV> = match sv {
                    Option::Some(v) => Option::Some(
                        SeqV { seq: v.seq, meta: Option::None, data: v.data },
                    ),
                    Option::None => Option::None,
                };
                resp.responses.push(
                    crate::txn::TxnOpResponse::Get { key: key_dup(key), value },
                );
                proof {
                    assert(crate::sm::sm_obs_eq(old(sm)@, sm@));
                    assert(resp.responses@.last()@ == (crate::txn::TxnOpResponseV::Get {
                        key: key@,
                        value: strip_meta(kv_state(old(sm)@.levels, key@)),
                    }));
                    let ch0 = Seq::<crate::cmd::ChangeV>::empty();
                    assert(op_rel(old(sm)@, sm@, op@, resp.responses@.last()@, ch0));
                    assert(changes_v(self.changes@) =~= changes_v(old(self).changes@) + ch0);
                }
            },
            TxnOp::Put { key, value, expire_at_ms, prev_value } => {
                let up = UpsertKV {
                    key: key_dup(key),
                    seq: crate::cmd::MatchSeq::Any,
                    value: crate::cmd::Operation::Update(key_dup(value)),
                    value_meta: Option::Some(
                        crate::types::ValueMeta { expire_at_ms: *expire_at_ms },
                    ),
                };
                proof {
                    assert(up@ == put_upsert(key@, value@, *expire_at_ms));
                }
                let ghost pre_v = sm@;
                let (prev, res) = sm.upsert_kv(&up);
                proof {
                    assert(crate::sm::seq_has_witness(sm@.levels));
                }
                let prev2 = dup_opt_seqv(&prev);
                self.push_change(key_dup(key), prev, res);
                let reported: Option<SeqV> = if *prev_value {
                    prev2
                } else {
                    Option::None
                };
                resp.responses.push(
                    crate::txn::TxnOpResponse::Put { key: key_dup(key), prev_value: reported },
                );
                proof {
                    let chw = change_of(
                        key@,
                        crate::sm::upsert_prev_v(pre_v.levels, up@),
                        crate::sm::upsert_result_v(pre_v, up@),
                    );
                    assert(resp.responses@.last()@ == (crate::txn::TxnOpResponseV::Put {
                        key: key@,
                        prev_value: if *prev_value {
                            crate::sm::upsert_prev_v(pre_v.levels, up@)
                        } else {
                            Option::None
                        },
                    }));
                    assert(op_rel(old(sm)@, sm@, op@, resp.responses@.last()@, chw));
                    assert(changes_v(self.changes@) == changes_v(old(self).changes@) + chw);
                }
            },
            TxnOp::Delete { key, match_seq, prev_value } => {
                let up = UpsertKV {
                    key: key_dup(key),
                    seq: match match_seq {
                        Option::Some(s) => crate::cmd::MatchSeq::Exact(*s),
                        Option::None => crate::cmd::MatchSeq::Any,
                    },
                    value: crate::cmd::Operation::Delete,
                    value_meta: Option::None,
                };
                proof {
                    assert(up@ == delete_upsert(key@, *match_seq));
                }
                let ghost pre_v = sm@;
                let (prev, res) = sm.upsert_kv(&up);
                proof {
                    if crate::sm::upsert_applies(up@, merged_kv_at(lpre, up@.key)) {
                        assert(crate::sm::seq_has_witness(sm@.levels));
                    } else {
                        assert(sm@.levels == lpre);
                    }
                }
                let is_deleted = prev.is_some() && res.is_none();
                let prev2 = dup_opt_seqv(&prev);
                self.push_change(key_dup(key), prev, res);
                let reported: Option<SeqV> = if *prev_value {
                    prev2
                } else {
                    Option::None
                };
                resp.responses.push(
                    crate::txn::TxnOpResponse::Delete {
                        key: key_dup(key),
                        success: is_deleted,
                        prev_value: reported,
                    },
                );
                proof {
                    let chw = change_of(
                        key@,
                        crate::sm::upsert_prev_v(pre_v.levels, up@),
                        crate::sm::upsert_result_v(pre_v, up@),
                    );
                    assert(resp.responses@.last()@ == (crate::txn::TxnOpResponseV::Delete {
                        key: key@,
                        success: crate::sm::upsert_prev_v(pre_v.levels, up@) is Some
                            && crate::sm::upsert_result_v(pre_v, up@) is None,
                        prev_value: if *prev_value {
                            crate::sm::upsert_prev_v(pre_v.levels, up@)
                        } else {
                            Option::None
                        },
                    }));
                    assert(op_rel(old(sm)@, sm@, op@, resp.responses@.last()@, chw));
                    assert(changes_v(self.changes@) == changes_v(old(self).changes@) + chw);
                }
            },
            TxnOp::DeleteByPrefix { prefix } => {
                let ghost l0 = sm@.levels;
                let ghost seq0 = sm.spec_seq();
                let ghost kv0 = total_kv(l0);
                let ghost base = changes_v(self.changes@);
                let kvs = sm.prefix_list_kv(prefix);
                proof {
                    assert(changes_v(self.changes@).take(base.len() as int) =~= base);
                }
                let n = kvs.len();
                let mut i: usize = 0;
                while i < n
                    invariant
                        0 <= i <= n == kvs@.len(),
                        n <= kv0,
                        sm.inv(),
                        seq0 + kv0 + 2 <= u64::MAX,
                        kv0 == total_kv(l0),
                        sm.spec_seq() == seq0 + i,
                        total_kv(sm@.levels) <= kv0 + 2 * i,
                        sm@.expire_cursor == old(sm)@.expire_cursor,
                        sm@.levels.last().sys.last_applied == l0.last().sys.last_applied,
                        sm@.levels.last().sys.last_membership == l0.last().sys.last_membership,
                        sm@.levels.last().sys.nodes == l0.last().sys.nodes,
                        sm.subscriber_ref() == old(sm).subscriber_ref(),
                        l0 == old(sm)@.levels,
                        base == changes_v(old(self).changes@),
                        changes_v(self.changes@).len() == base.len() + i,
                        changes_v(self.changes@).take(base.len() as int) == base,
                        forall|i2: int|
                            0 <= i2 < kvs@.len() ==> crate::bytes_order::is_prefix_of(
                                prefix@,
                                (#[trigger] kvs@[i2]).0@,
                            ) && kv_state(l0, kvs@[i2].0@) == Option::Some(kvs@[i2].1@),
                        forall|i2: int, j2: int|
                            0 <= i2 < j2 < kvs@.len() ==> crate::bytes_order::lex_lt(
                                (#[trigger] kvs@[i2]).0@,
                                (#[trigger] kvs@[j2]).0@,
                            ),
                        forall|k: Seq<u8>|
                            crate::bytes_order::is_prefix_of(prefix@, k) && (#[trigger] kv_state(
                                l0,
                                k,
                            )) is Some ==> exists|i2: int|
                                0 <= i2 < kvs@.len() && (#[trigger] kvs@[i2]).0@ == k,
                        forall|i2: int|
                            0 <= i2 < i ==> changes_v(self.changes@)[base.len() + i2]
                                == (crate::cmd::ChangeV {
                                ident: Option::Some((#[trigger] kvs@[i2]).0@),
                                prev: Option::Some(kvs@[i2].1@),
                                result: Option::None,
                            }),
                        forall|i2: int|
                            0 <= i2 < i ==> (#[trigger] merged_kv_at(sm@.levels, kvs@[i2].0@))
                                == Option::Some(
                                (MarkedV::TombStone { internal_seq: (seq0 + i2 + 1) as u64 }),
                            ),
                        forall|k: Seq<u8>|
                            #[trigger] merged_kv_at(sm@.levels, k) == merged_kv_at(l0, k)
                                || exists|i2: int|
                                0 <= i2 < i && (#[trigger] kvs@[i2]).0@ == k,
                        forall|e: ExpireKey|
                            #[trigger] merged_exp_at(sm@.levels, e) == merged_exp_at(l0, e) || (
                            merged_exp_at(sm@.levels, e) matches Some(m2) && m2 is TombStone),
                        crate::sm::seq_has_witness(l0) ==> crate::sm::seq_has_witness(
                            sm@.levels,
                        ),
                    decreases n - i,
                {
                    let ghost lcur = sm@.levels;
                    let ghost k_i = kvs@[i as int].0@;
                    let key = key_dup(&kvs[i].0);
                    let up = UpsertKV::delete(key_dup(&kvs[i].0));
                    proof {
                        // Earlier deleted keys are strictly below this one,
                        // so this key is still untouched and live.
                        assert forall|i2: int| 0 <= i2 < i implies (#[trigger] kvs@[i2]).0@
                            != k_i by {
                            crate::bytes_order::lemma_lex_irrefl(k_i);
                        }
                        assert(merged_kv_at(lcur, k_i) == merged_kv_at(l0, k_i));
                        assert(kv_state(l0, k_i) == Option::Some(kvs@[i as int].1@));
                        assert(merged_kv_at(l0, k_i) matches Some(m) && m is Normal);
                    }
                    let (prev, res) = sm.upsert_kv(&up);
                    proof {
                        assert(crate::sm::upsert_applies(up@, merged_kv_at(lcur, k_i)));
                        assert(crate::sm::seq_has_witness(sm@.levels));
                        assert(merged_kv_at(sm@.levels, k_i) == Option::Some(
                            (MarkedV::TombStone { internal_seq: (seq0 + i + 1) as u64 }),
                        ));
                        assert forall|i2: int| 0 <= i2 < i implies (#[trigger] merged_kv_at(
                            sm@.levels,
                            kvs@[i2].0@,
                        )) == Option::Some(
                            (MarkedV::TombStone { internal_seq: (seq0 + i2 + 1) as u64 }),
                        ) by {
                            assert(merged_kv_at(sm@.levels, kvs@[i2].0@) == merged_kv_at(
                                lcur,
                                kvs@[i2].0@,
                            ));
                        }
                        assert(crate::sm::opt_seqv_v(prev) == Option::Some(kvs@[i as int].1@));
                        assert(crate::sm::opt_seqv_v(res) is None);
                    }
                    let ghost cpre = changes_v(self.changes@);
                    self.push_change(key, prev, res);
                    proof {
                        assert(changes_v(self.changes@).len() == base.len() + i + 1);
                        assert(changes_v(self.changes@).take(base.len() as int) =~= base);
                        assert(changes_v(self.changes@)[base.len() + i]
                            == (crate::cmd::ChangeV {
                            ident: Option::Some(k_i),
                            prev: Option::Some(kvs@[i as int].1@),
                            result: Option::None,
                        }));
                        assert forall|i2: int| 0 <= i2 < i + 1 implies changes_v(
                            self.changes@,
                        )[base.len() + i2] == (crate::cmd::ChangeV {
                            ident: Option::Some((#[trigger] kvs@[i2]).0@),
                            prev: Option::Some(kvs@[i2].1@),
                            result: Option::None,
                        }) by {
                            if i2 < i {
                                assert(changes_v(self.changes@)[base.len() + i2] == cpre[base.len()
                                    + i2]);
                            }
                        }
                    }
                    i = i + 1;
                }
                let count: u32 = if n > 0xffff_ffff {
                    0xffff_ffff
                } else {
                    #[verifier::truncate]
                    (n as u32)
                };
                resp.responses.push(
                    crate::txn::TxnOpResponse::DeleteByPrefix { prefix: key_dup(prefix), count },
                );
                proof {
                    let chw = changes_v(self.changes@).skip(base.len() as int);
                    assert(chw.len() == n);
                    assert forall|i2: int| 0 <= i2 < n implies #[trigger] chw[i2]
                        == (crate::cmd::ChangeV {
                        ident: Option::Some(kvs@[i2].0@),
                        prev: Option::Some(kvs@[i2].1@),
                        result: Option::None,
                    }) by {
                        assert(chw[i2] == changes_v(self.changes@)[base.len() + i2]);
                    }
                    assert forall|k: Seq<u8>|
                        (forall|i2: int| 0 <= i2 < chw.len() ==> (#[trigger] chw[i2]).ident
                            != Option::Some(k)) implies #[trigger] merged_kv_at(sm@.levels, k)
                        == merged_kv_at(l0, k) by {
                        if merged_kv_at(sm@.levels, k) != merged_kv_at(l0, k) {
                            let i2 = choose|i2: int|
                                0 <= i2 < n && (#[trigger] kvs@[i2]).0@ == k;
                            assert(chw[i2].ident == Option::Some(k));
                        }
                    }
                    assert forall|k: Seq<u8>|
                        crate::bytes_order::is_prefix_of(prefix@, k) && (#[trigger] kv_state(
                            l0,
                            k,
                        )) is Some implies exists|i2: int|
                        0 <= i2 < chw.len() && (#[trigger] chw[i2]).ident == Option::Some(
                            k,
                        ) by {
                        let i2 = choose|i2: int| 0 <= i2 < n && (#[trigger] kvs@[i2]).0@ == k;
                        assert(chw[i2].ident == Option::Some(k));
                    }
                    assert(resp.responses@.last()@
                        == (crate::txn::TxnOpResponseV::DeleteByPrefix {
                        prefix: prefix@,
                        count: if chw.len() > 0xffff_ffff {
                            0xffff_ffffu32
                        } else {
                            chw.len() as u32
                        },
                    }));
                    assert(dbp_rel(old(sm)@, sm@, prefix@, resp.responses@.last()@, chw));
                    assert(op_rel(old(sm)@, sm@, op@, resp.responses@.last()@, chw));
                    assert(changes_v(self.changes@) =~= changes_v(old(self).changes@) + chw);
                }
            },
        }
    }

    /// Run a whole transaction: evaluate the conditions, then execute the
    /// chosen branch atomically.
    pub fn apply_txn(&mut self, sm: &mut SMV003, req: &crate::txn::TxnRequest) -> (r:
        AppliedState)
        requires
            old(sm).inv(),
            old(sm).spec_seq() + txn_seq_budget(
                req@.if_then,
                total_kv(old(sm)@.levels),
            ) + txn_seq_budget(req@.else_then, total_kv(old(sm)@.levels)) + 2 <= u64::MAX,
        ensures
            final(sm).inv(),
            final(sm)@.expire_cursor == old(sm)@.expire_cursor,
            final(sm).subscriber_ref() == old(sm).subscriber_ref(),
            final(sm)@.levels.last().sys.last_applied == old(sm)@.levels.last().sys.last_applied,
            final(sm)@.levels.last().sys.last_membership == old(
                sm,
            )@.levels.last().sys.last_membership,
            final(sm)@.levels.last().sys.nodes == old(sm)@.levels.last().sys.nodes,
            r matches AppliedState::TxnReply(reply) && reply@.success == eval_conds_spec(
                old(sm)@.levels,
                req@.condition,
            ) && reply@.error.len() == 0 && exists|ch: Seq<crate::cmd::ChangeV>|
                ops_rel(
                    old(sm)@,
                    final(sm)@,
                    if eval_conds_spec(old(sm)@.levels, req@.condition) {
                        req@.if_then
                    } else {
                        req@.else_then
                    },
                    reply@.responses,
                    ch,
                ) && changes_v(final(self).changes@) == changes_v(old(self).changes@) + ch,
            crate::sm::seq_has_witness(old(sm)@.levels) ==> crate::sm::seq_has_witness(
                final(sm)@.levels,
            ),
    {
        proof {
            lemma_totals_nonneg(sm@.levels);
            lemma_txn_seq_budget_mono(req@.if_then, 0, total_kv(sm@.levels));
            lemma_txn_seq_budget_mono(req@.else_then, 0, total_kv(sm@.levels));
        }
        let success = self.eval_txn_conditions(sm, &req.condition);
        let ops: &Vec<TxnOp> = if success {
            &req.if_then
        } else {
            &req.else_then
        };
        let ghost ops_v = ops@.map_values(|o: TxnOp| o@);
        let ghost base = changes_v(self.changes@);
        let ghost mut ch_acc = Seq::<crate::cmd::ChangeV>::empty();
        let mut resp = crate::txn::TxnReply {
            success,
            error: Vec::new(),
            responses: Vec::new(),
        };
        let n = ops.len();
        let mut i: usize = 0;
        proof {
            assert(ops_v.skip(0) =~= ops_v);
            assert(txn_seq_budget(ops_v, total_kv(sm@.levels)) <= txn_seq_budget(
                req@.if_then,
                total_kv(sm@.levels),
            ) + txn_seq_budget(req@.else_then, total_kv(sm@.levels)));
            assert(ops_v.take(0) =~= Seq::<TxnOpV>::empty());
            assert(resp.responses@.map_values(|x: crate::txn::TxnOpResponse| x@) =~= Seq::<
                crate::txn::TxnOpResponseV,
            >::empty());
            assert(crate::sm::sm_obs_eq(old(sm)@, sm@));
            assert(ops_rel(
                old(sm)@,
                sm@,
                ops_v.take(0),
                resp.responses@.map_values(|x: crate::txn::TxnOpResponse| x@),
                ch_acc,
            ));
            assert(changes_v(self.changes@) =~= base + ch_acc);
        }
        while i < n
            invariant
                0 <= i <= n == ops_v.len(),
                ops_v == ops@.map_values(|o: TxnOp| o@),
                sm.inv(),
                sm.spec_seq() + txn_seq_budget(ops_v.skip(i as int), total_kv(sm@.levels)) + 2
                    <= u64::MAX,
                0 <= total_kv(sm@.levels),
                sm@.expire_cursor == old(sm)@.expire_cursor,
                sm@.levels.last().sys.last_applied == old(sm)@.levels.last().sys.last_applied,
                sm@.levels.last().sys.last_membership == old(
                    sm,
                )@.levels.last().sys.last_membership,
                sm@.levels.last().sys.nodes == old(sm)@.levels.last().sys.nodes,
                sm.subscriber_ref() == old(sm).subscriber_ref(),
                resp.success == success,
                resp.error@.len() == 0,
                base == changes_v(old(self).changes@),
                ops_rel(
                    old(sm)@,
                    sm@,
                    ops_v.take(i as int),
                    resp.responses@.map_values(|x: crate::txn::TxnOpResponse| x@),
                    ch_acc,
                ),
                changes_v(self.changes@) == base + ch_acc,
                crate::sm::seq_has_witness(old(sm)@.levels) ==> crate::sm::seq_has_witness(
                    sm@.levels,
                ),
            decreases n - i,
        {
            let ghost kv_cur = total_kv(sm@.levels);
            let ghost pre_v = sm@;
            let ghost resps_pre = resp.responses@.map_values(
                |x: crate::txn::TxnOpResponse| x@,
            );
            let ghost ch_pre = changes_v(self.changes@);
            proof {
                assert(ops_v.skip(i as int)[0] == ops_v[i as int]);
                assert(ops_v.skip(i as int).skip(1) =~= ops_v.skip(i as int + 1));
                assert(ops_v[i as int] == ops@[i as int]@);
                lemma_txn_seq_budget_mono(ops_v.skip(i as int + 1), 0, kv_cur + op_kv_growth(
                    ops_v[i as int],
                    kv_cur,
                ));
            }
            self.txn_execute_operation(sm, &ops[i], &mut resp);
            proof {
                lemma_totals_nonneg(sm@.levels);
                lemma_txn_seq_budget_mono(
                    ops_v.skip(i as int + 1),
                    total_kv(sm@.levels),
                    kv_cur + op_kv_growth(ops_v[i as int], kv_cur),
                );
                let ch1 = choose|ch1: Seq<crate::cmd::ChangeV>|
                    op_rel(pre_v, sm@, ops_v[i as int], resp.responses@.last()@, ch1)
                        && changes_v(self.changes@) == ch_pre + ch1;
                let resps_now = resp.responses@.map_values(|x: crate::txn::TxnOpResponse| x@);
                assert(resps_now.drop_last() =~= resps_pre);
                assert(resps_now.last() == resp.responses@.last()@);
                assert(ops_v.take(i as int + 1).drop_last() =~= ops_v.take(i as int));
                assert(ops_v.take(i as int + 1).last() == ops_v[i as int]);
                assert(ops_rel(old(sm)@, sm@, ops_v.take(i as int + 1), resps_now, ch_acc + ch1));
                assert(changes_v(self.changes@) =~= base + (ch_acc + ch1));
                ch_acc = ch_acc + ch1;
            }
            i = i + 1;
        }
        proof {
            assert(ops_v.take(n as int) =~= ops_v);
        }
        let r = AppliedState::TxnReply(resp);
        proof {
            assert(r@ matches crate::cmd::AppliedStateV::TxnReply(reply) && reply.responses
                == resp.responses@.map_values(|x: crate::txn::TxnOpResponse| x@));
        }
        r
    }
}

/// Duplicate an optional versioned value.
pub fn dup_opt_seqv(v: &Option<SeqV>) -> (r: Option<SeqV>)
    ensures
        match *v {
            Option::None => r is None,
            Option::Some(x) => r matches Some(y) && y@ == x@,
        },
{
    match v {
        Option::None => Option::None,
        Option::Some(x) => Option::Some(x.dup()),
    }
}


impl ApplierV003 {
    /// Insert a node: keep the existing one unless `overriding` is set.
    pub fn apply_add_node(
        &mut self,
        sm: &mut SMV003,
        node_id: u64,
        node: &crate::types::Node,
        overriding: bool,
    ) -> (r: AppliedState)
        requires
            old(sm).inv(),
        ensures
            final(sm).inv(),
            final(sm)@.expire_cursor == old(sm)@.expire_cursor,
            final(sm).subscriber_ref() == old(sm).subscriber_ref(),
            final(sm).spec_seq() == old(sm).spec_seq(),
            final(sm)@.levels.last().sys.last_applied == old(sm)@.levels.last().sys.last_applied,
            final(sm)@.levels.last().sys.last_membership == old(
                sm,
            )@.levels.last().sys.last_membership,
            forall|k2: Seq<u8>| #[trigger] merged_kv_at(final(sm)@.levels, k2) == merged_kv_at(
                old(sm)@.levels,
                k2,
            ),
            forall|e: ExpireKey| #[trigger] merged_exp_at(final(sm)@.levels, e) == merged_exp_at(
                old(sm)@.levels,
                e,
            ),
            total_kv(final(sm)@.levels) == total_kv(old(sm)@.levels),
            total_exp(final(sm)@.levels) == total_exp(old(sm)@.levels),
            final(self).changes@ == old(self).changes@,
            ({
                let prev = crate::node_map::node_lookup(old(sm)@.levels.last().sys.nodes, node_id);
                &&& final(sm)@.levels.last().sys.nodes == (if prev is Some && !overriding {
                    old(sm)@.levels.last().sys.nodes
                } else {
                    crate::node_map::node_insert(
                        old(sm)@.levels.last().sys.nodes,
                        node_id,
                        node@,
                    )
                })
                &&& (match prev {
                    Option::Some(p) => r matches AppliedState::Node { prev: Some(rp), result: rr }
                        && rp@ == p && (if overriding {
                        rr matches Some(rn) && rn@ == node@
                    } else {
                        rr matches Some(rn) && rn@ == p
                    }),
                    Option::None => r matches AppliedState::Node { prev: None, result: Some(rn) }
                        && rn@ == node@,
                })
            }),
    {
        let prev: Option<crate::types::Node> = match sm.get_node(node_id) {
            Option::Some(n) => Option::Some(n.dup()),
            Option::None => Option::None,
        };
        match prev {
            Option::None => {
                sm.insert_node(node_id, node.dup());
                AppliedState::Node { prev: Option::None, result: Option::Some(node.dup()) }
            },
            Option::Some(p) => {
                if overriding {
                    sm.insert_node(node_id, node.dup());
                    AppliedState::Node {
                        prev: Option::Some(p),
                        result: Option::Some(node.dup()),
                    }
                } else {
                    let p2 = p.dup();
                    AppliedState::Node { prev: Option::Some(p), result: Option::Some(p2) }
                }
            },
        }
    }

    /// Remove a node, returning the previous value.
    pub fn apply_remove_node(&mut self, sm: &mut SMV003, node_id: u64) -> (r: AppliedState)
        requires
            old(sm).inv(),
        ensures
            final(sm).inv(),
            final(sm)@.expire_cursor == old(sm)@.expire_cursor,
            final(sm).subscriber_ref() == old(sm).subscriber_ref(),
            final(sm).spec_seq() == old(sm).spec_seq(),
            final(sm)@.levels.last().sys.last_applied == old(sm)@.levels.last().sys.last_applied,
            final(sm)@.levels.last().sys.last_membership == old(
                sm,
            )@.levels.last().sys.last_membership,
            final(sm)@.levels.last().sys.nodes == crate::node_map::node_remove(
                old(sm)@.levels.last().sys.nodes,
                node_id,
            ),
            forall|k2: Seq<u8>| #[trigger] merged_kv_at(final(sm)@.levels, k2) == merged_kv_at(
                old(sm)@.levels,
                k2,
            ),
            forall|e: ExpireKey| #[trigger] merged_exp_at(final(sm)@.levels, e) == merged_exp_at(
                old(sm)@.levels,
                e,
            ),
            total_kv(final(sm)@.levels) == total_kv(old(sm)@.levels),
            total_exp(final(sm)@.levels) == total_exp(old(sm)@.levels),
            final(self).changes@ == old(self).changes@,
            match crate::node_map::node_lookup(old(sm)@.levels.last().sys.nodes, node_id) {
                Option::Some(p) => r matches AppliedState::Node { prev: Some(rp), result: None }
                    && rp@ == p,
                Option::None => r matches AppliedState::Node { prev: None, result: None },
            },
    {
        let prev = sm.remove_node(node_id);
        AppliedState::Node { prev, result: Option::None }
    }

    /// Execute an upsert command and queue its change event.
    pub fn apply_upsert_kv(&mut self, sm: &mut SMV003, upsert: &UpsertKV) -> (r: AppliedState)
        requires
            old(sm).inv(),
            old(sm).spec_seq() + 2 <= u64::MAX,
        ensures
            final(sm).inv(),
            final(sm)@.expire_cursor == old(sm)@.expire_cursor,
            final(sm).subscriber_ref() == old(sm).subscriber_ref(),
            final(sm)@.levels.last().sys.last_applied == old(sm)@.levels.last().sys.last_applied,
            final(sm)@.levels.last().sys.last_membership == old(
                sm,
            )@.levels.last().sys.last_membership,
            final(sm)@.levels.last().sys.nodes == old(sm)@.levels.last().sys.nodes,
            final(sm).spec_seq() <= old(sm).spec_seq() + 2,
            total_kv(final(sm)@.levels) <= total_kv(old(sm)@.levels) + 2,
            total_exp(final(sm)@.levels) <= total_exp(old(sm)@.levels) + 2,
            r matches AppliedState::KV(c) && c.ident is None && (match opt_marked_seqv(
                merged_kv_at(old(sm)@.levels, upsert@.key),
            ) {
                Option::None => c.prev is None,
                Option::Some(v) => c.prev matches Some(x) && x@ == v,
            }),
            crate::sm::seq_has_witness(old(sm)@.levels) ==> crate::sm::seq_has_witness(
                final(sm)@.levels,
            ),
            crate::sm::upsert_rel(old(sm)@, final(sm)@, upsert@),
            r@ == crate::cmd::AppliedStateV::KV(
                (crate::cmd::ChangeV {
                    ident: Option::None,
                    prev: crate::sm::upsert_prev_v(old(sm)@.levels, upsert@),
                    result: crate::sm::upsert_result_v(old(sm)@, upsert@),
                }),
            ),
            changes_v(final(self).changes@) == changes_v(old(self).changes@) + change_of(
                upsert@.key,
                crate::sm::upsert_prev_v(old(sm)@.levels, upsert@),
                crate::sm::upsert_result_v(old(sm)@, upsert@),
            ),
    {
        let (prev, result) = sm.upsert_kv(upsert);
        proof {
            if crate::sm::upsert_applies(upsert@, merged_kv_at(old(sm)@.levels, upsert@.key)) {
                assert(crate::sm::seq_has_witness(sm@.levels));
            } else {
                assert(sm@.levels == old(sm)@.levels);
            }
        }
        let prev2 = dup_opt_seqv(&prev);
        let result2 = dup_opt_seqv(&result);
        self.push_change(key_dup(&upsert.key), prev, result);
        AppliedState::KV(Change { ident: Option::None, prev: prev2, result: result2 })
    }

    /// Dispatch one command.
    pub fn apply_cmd(&mut self, sm: &mut SMV003, cmd: &Cmd) -> (r: AppliedState)
        requires
            old(sm).inv(),
            old(sm).spec_seq() + cmd_seq_budget(cmd@, total_kv(old(sm)@.levels)) + 2 <= u64::MAX,
        ensures
            final(sm).inv(),
            final(sm)@.expire_cursor == old(sm)@.expire_cursor,
            final(sm).subscriber_ref() == old(sm).subscriber_ref(),
            final(sm)@.levels.last().sys.last_applied == old(sm)@.levels.last().sys.last_applied,
            final(sm)@.levels.last().sys.last_membership == old(
                sm,
            )@.levels.last().sys.last_membership,
            ((cmd@ matches CmdV::UpsertKV(_)) || (cmd@ matches CmdV::Transaction(_)))
                ==> final(sm)@.levels.last().sys.nodes == old(sm)@.levels.last().sys.nodes,
            crate::sm::seq_has_witness(old(sm)@.levels) ==> crate::sm::seq_has_witness(
                final(sm)@.levels,
            ),
            exists|ch: Seq<crate::cmd::ChangeV>|
                cmd_rel(old(sm)@, final(sm)@, cmd@, r@, ch) && changes_v(final(self).changes@)
                    == changes_v(old(self).changes@) + ch,
    {
        proof {
            lemma_totals_nonneg(sm@.levels);
        }
        match cmd {
            Cmd::AddNode { node_id, node, overriding } => {
                let r = self.apply_add_node(sm, *node_id, node, *overriding);
                proof {
                    if crate::sm::seq_has_witness(old(sm)@.levels) {
                        crate::sm::lemma_witness_transfer(old(sm)@.levels, sm@.levels);
                    }
                    let ch0 = Seq::<crate::cmd::ChangeV>::empty();
                    assert(node_cmd_frame(old(sm)@, sm@));
                    assert(cmd_rel(old(sm)@, sm@, cmd@, r@, ch0));
                    assert(changes_v(self.changes@) =~= changes_v(old(self).changes@) + ch0);
                }
                r
            },
            Cmd::RemoveNode { node_id } => {
                let r = self.apply_remove_node(sm, *node_id);
                proof {
                    if crate::sm::seq_has_witness(old(sm)@.levels) {
                        crate::sm::lemma_witness_transfer(old(sm)@.levels, sm@.levels);
                    }
                    let ch0 = Seq::<crate::cmd::ChangeV>::empty();
                    assert(node_cmd_frame(old(sm)@, sm@));
                    assert(cmd_rel(old(sm)@, sm@, cmd@, r@, ch0));
                    assert(changes_v(self.changes@) =~= changes_v(old(self).changes@) + ch0);
                }
                r
            },
            Cmd::UpsertKV(upsert) => {
                let r = self.apply_upsert_kv(sm, upsert);
                proof {
                    assert(cmd_rel(
                        old(sm)@,
                        sm@,
                        cmd@,
                        r@,
                        change_of(
                            upsert@.key,
                            crate::sm::upsert_prev_v(old(sm)@.levels, upsert@),
                            crate::sm::upsert_result_v(old(sm)@, upsert@),
                        ),
                    ));
                }
                r
            },
            Cmd::Transaction(txn) => {
                let r = self.apply_txn(sm, txn);
                proof {
                    let ch1 = choose|ch1: Seq<crate::cmd::ChangeV>|
                        ops_rel(
                            old(sm)@,
                            sm@,
                            if eval_conds_spec(old(sm)@.levels, txn@.condition) {
                                txn@.if_then
                            } else {
                                txn@.else_then
                            },
                            (match r@ {
                                crate::cmd::AppliedStateV::TxnReply(reply) => reply.responses,
                                _ => Seq::empty(),
                            }),
                            ch1,
                        ) && changes_v(self.changes@) == changes_v(old(self).changes@) + ch1;
                    assert(cmd_rel(old(sm)@, sm@, cmd@, r@, ch1));
                }
                r
            },
        }
    }

    /// The proposing time of an entry; only `Normal` entries carry one.
    pub fn get_log_time(entry: &Entry) -> (r: u64)
        ensures
            r == crate::cmd::entry_time_ms(entry@),
    {
        match &entry.payload {
            EntryPayload::Normal(d) => match d.time_ms {
                Option::Some(ms) => ms,
                Option::None => 0,
            },
            _ => 0,
        }
    }

    /// Apply one committed log entry: sweep expired entries, enforce
    /// `last_applied` monotonicity, dispatch the payload, and deliver queued
    /// change events to the subscriber.
    ///
    /// Re-applying an entry whose log id is at or below `last_applied` is
    /// rejected and leaves the state machine unchanged.
    pub fn apply(&mut self, sm: &mut SMV003, entry: &Entry) -> (r: Result<
        AppliedState,
        ApplyError,
    >)
        requires
            old(sm).inv(),
            old(sm).spec_seq() + apply_seq_budget(old(sm)@.levels, entry@) <= u64::MAX,
        ensures
            final(sm).inv(),
            r is Err <==> (old(sm)@.levels.last().sys.last_applied matches Some(l)
                && crate::types::log_id_le(entry@.log_id, l)),
            r is Err ==> final(sm)@ == old(sm)@,
            r is Ok ==> final(sm)@.levels.last().sys.last_applied == Option::Some(entry@.log_id),
            r is Ok && entry@.payload is Blank ==> {
                &&& final(sm)@.levels.last().sys.last_membership == old(
                    sm,
                )@.levels.last().sys.last_membership
                &&& final(sm)@.levels.last().sys.nodes == old(sm)@.levels.last().sys.nodes
                &&& final(sm).spec_seq() == old(sm).spec_seq()
                &&& forall|k2: Seq<u8>| #[trigger]
                    merged_kv_at(final(sm)@.levels, k2) == merged_kv_at(old(sm)@.levels, k2)
                &&& forall|e: ExpireKey| #[trigger]
                    merged_exp_at(final(sm)@.levels, e) == merged_exp_at(old(sm)@.levels, e)
                &&& final(sm)@.expire_cursor == old(sm)@.expire_cursor
                &&& (r matches Ok(a) && a@ == crate::cmd::AppliedStateV::Nothing)
            },
            r is Ok && membership_applied_le(old(sm)@.levels) ==> membership_applied_le(
                final(sm)@.levels,
            ),
            crate::sm::seq_has_witness(old(sm)@.levels) ==> crate::sm::seq_has_witness(
                final(sm)@.levels,
            ),
            r is Ok ==> (match entry@.payload {
                crate::cmd::EntryPayloadV::Membership(m) => {
                    &&& final(sm)@.levels.last().sys.last_membership
                        == (crate::types::StoredMembershipV {
                        log_id: Option::Some(entry@.log_id),
                        membership: m,
                    })
                    &&& final(sm)@.levels.last().sys.nodes == old(sm)@.levels.last().sys.nodes
                    &&& final(sm).spec_seq() == old(sm).spec_seq()
                    &&& forall|k2: Seq<u8>| #[trigger]
                        merged_kv_at(final(sm)@.levels, k2) == merged_kv_at(old(sm)@.levels, k2)
                },
                _ => true,
            }),
            r is Ok ==> final(self).changes@.len() == 0,
            r matches Ok(a) ==> exists|
                mid: crate::sm::SMV003V,
                chs: Seq<crate::cmd::ChangeV>,
                chc: Seq<crate::cmd::ChangeV>,
            |
                apply_rel(
                    old(sm)@,
                    final(sm)@,
                    entry@,
                    a@,
                    changes_v(old(self).changes@),
                    old(sm).subscriber_ref(),
                    final(sm).subscriber_ref(),
                    mid,
                    chs,
                    chc,
                ),
    {
        let last = sm.last_applied_ref();
        let rejected: bool = match last {
            Option::Some(l) => {
                crate::types::opt_log_id_is_le(
                    &Option::Some(entry.log_id),
                    &Option::Some(*l),
                )
            },
            Option::None => false,
        };
        if rejected {
            let last2 = *sm.last_applied_ref();
            return Result::Err(
                ApplyError::RejectedLogId { log_id: entry.log_id, last_applied: last2 },
            );
        }
        let ghost l0 = sm@.levels;
        let time = Self::get_log_time(entry);
        proof {
            lemma_totals_nonneg(l0);
            assert(apply_seq_budget(l0, entry@) >= total_exp(l0) + 2) by {
                match entry@.payload {
                    crate::cmd::EntryPayloadV::Normal(d) => {
                        match d.cmd {
                            CmdV::Transaction(t) => {
                                lemma_txn_seq_budget_mono(
                                    t.if_then,
                                    0,
                                    total_kv(l0) + 2 * total_exp(l0),
                                );
                                lemma_txn_seq_budget_mono(
                                    t.else_then,
                                    0,
                                    total_kv(l0) + 2 * total_exp(l0),
                                );
                            },
                            _ => {},
                        }
                    },
                    _ => {},
                }
            }
        }
        let ghost swept_pre = sm@;
        self.clean_expired_kvs(sm, time);
        let ghost swept_v = sm@;
        let ghost chs = choose|ch: Seq<crate::cmd::ChangeV>|
            sweep_rel(swept_pre, swept_v, time, ch) && changes_v(self.changes@) == changes_v(
                old(self).changes@,
            ) + ch;
        let ghost l_swept = sm@.levels;
        sm.set_last_applied(Option::Some(entry.log_id));
        proof {
            if crate::sm::seq_has_witness(l_swept) {
                crate::sm::lemma_witness_transfer(l_swept, sm@.levels);
            }
        }
        let ghost l_marked = sm@.levels;
        let ghost mut mid_v = sm@;
        let ghost mut chc = Seq::<crate::cmd::ChangeV>::empty();
        let applied: AppliedState = match &entry.payload {
            EntryPayload::Blank => AppliedState::Nothing,
            EntryPayload::Membership(m) => {
                sm.set_last_membership(
                    crate::types::StoredMembership::new(
                        Option::Some(entry.log_id),
                        m.dup(),
                    ),
                );
                proof {
                    if crate::sm::seq_has_witness(l_marked) {
                        crate::sm::lemma_witness_transfer(l_marked, sm@.levels);
                    }
                    mid_v = sm@;
                }
                AppliedState::Nothing
            },
            EntryPayload::Normal(d) => {
                proof {
                    lemma_totals_nonneg(sm@.levels);
                    match d.cmd@ {
                        CmdV::Transaction(t) => {
                            lemma_txn_seq_budget_mono(
                                t.if_then,
                                total_kv(sm@.levels),
                                total_kv(l0) + 2 * total_exp(l0),
                            );
                            lemma_txn_seq_budget_mono(
                                t.else_then,
                                total_kv(sm@.levels),
                                total_kv(l0) + 2 * total_exp(l0),
                            );
                        },
                        _ => {},
                    }
                }
                let ghost chpre = changes_v(self.changes@);
                let r2 = self.apply_cmd(sm, &d.cmd);
                proof {
                    chc = choose|ch: Seq<crate::cmd::ChangeV>|
                        cmd_rel(mid_v, sm@, d.cmd@, r2@, ch) && changes_v(self.changes@) == chpre
                            + ch;
                }
                r2
            },
        };
        proof {
            assert(changes_v(self.changes@) =~= changes_v(old(self).changes@) + chs + chc);
        }
        let mut queued: Vec<Change> = Vec::new();
        core::mem::swap(&mut queued, &mut self.changes);
        let ghost qv = queued@;
        sm.deliver_changes(queued);
        proof {
            // The sweep's effect transfers to the state after the sys-block
            // writes: the data it speaks of is untouched by them.
            assert(sweep_rel(swept_pre, mid_v, time, chs)) by {
                assert(forall|k: Seq<u8>| #[trigger] merged_kv_at(mid_v.levels, k)
                    == merged_kv_at(swept_v.levels, k));
                assert(forall|e: ExpireKey| #[trigger] merged_exp_at(mid_v.levels, e)
                    == merged_exp_at(swept_v.levels, e));
                assert(mid_v.levels.last().sys.seq == swept_v.levels.last().sys.seq);
                assert(mid_v.expire_cursor == swept_v.expire_cursor);
            }
            assert(mid_v.levels.last().sys.last_applied == Option::Some(entry@.log_id));
            assert(mid_v.levels.last().sys.nodes == old(sm)@.levels.last().sys.nodes);
            assert((match entry@.payload {
                crate::cmd::EntryPayloadV::Normal(d) => cmd_rel(mid_v, sm@, d.cmd, applied@, chc),
                _ => crate::sm::sm_obs_eq(mid_v, sm@) && applied@
                    == crate::cmd::AppliedStateV::Nothing && chc.len() == 0,
            }));
            if old(sm).subscriber_ref() is Some {
                let c = old(sm).subscriber_ref().unwrap();
                let c2 = sm.subscriber_ref().unwrap();
                assert(c2.received@ == c.received@ + qv);
                assert(changes_v(c2.received@) =~= changes_v(c.received@) + changes_v(qv));
                assert(changes_v(qv) == changes_v(old(self).changes@) + chs + chc);
                assert(changes_v(c2.received@) =~= changes_v(c.received@) + changes_v(
                    old(self).changes@,
                ) + chs + chc);
            }
            assert(mid_v.levels.last().sys.last_membership == (match entry@.payload {
                crate::cmd::EntryPayloadV::Membership(m) => (crate::types::StoredMembershipV {
                    log_id: Option::Some(entry@.log_id),
                    membership: m,
                }),
                _ => old(sm)@.levels.last().sys.last_membership,
            }));
            assert(apply_rel(
                old(sm)@,
                sm@,
                entry@,
                applied@,
                changes_v(old(self).changes@),
                old(sm).subscriber_ref(),
                sm.subscriber_ref(),
                mid_v,
                chs,
                chc,
            ));
            if membership_applied_le(old(sm)@.levels) {
                assert(membership_applied_le(sm@.levels)) by {
                    assert(sm@.levels.last().sys.last_applied == Option::Some(entry@.log_id));
                    match entry@.payload {
                        crate::cmd::EntryPayloadV::Membership(_) => {},
                        _ => {
                            assert(sm@.levels.last().sys.last_membership == old(
                                sm,
                            )@.levels.last().sys.last_membership);
                            match old(sm)@.levels.last().sys.last_membership.log_id {
                                Option::Some(l) => {
                                    let la = old(
                                        sm,
                                    )@.levels.last().sys.last_applied.unwrap();
                                    assert(crate::types::log_id_le(l, la));
                                    assert(!crate::types::log_id_le(entry@.log_id, la));
                                    assert(crate::types::log_id_le(l, entry@.log_id));
                                },
                                Option::None => {},
                            }
                        },
                    }
                }
            }
        }
        Result::Ok(applied)
    }
}

} // verus!
