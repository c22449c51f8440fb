//! The state machine: the leveled store, the expiration cursor, and the
//! subscriber capability, together with the state-machine invariant that
//! every apply preserves.
//!
//! The invariant couples the two indexes: every live kv entry with an
//! expiration time owns exactly one expiration-index entry `(time, seq) ->
//! key`, and every live expiration-index entry points back at such a kv
//! entry.  All record sequence numbers stay below the system counter.

use vstd::prelude::*;

use crate::cmd::match_seq_matches;
use crate::cmd::Change;
use crate::cmd::Operation;
use crate::cmd::OperationV;
use crate::cmd::UpsertKV;
use crate::cmd::UpsertKVV;
use crate::bytes_order::key_dup;
use crate::kv_map::kv_lookup;
use crate::kv_map::kv_insert;
use crate::expire_map::exp_lookup;
use crate::expire_map::exp_insert;
use crate::level_data::LevelData;
use crate::level_data::LevelDataV;
use crate::leveled_map::levels_wf;
use crate::leveled_map::merged_exp_at;
use crate::leveled_map::merged_kv_at;
use crate::leveled_map::total_exp;
use crate::leveled_map::total_kv;
use crate::leveled_map::LeveledMap;
use crate::types::marked_expire_at_ms;
use crate::types::marked_opt_order_seq;
use crate::types::marked_seq;
use crate::types::marked_to_seqv;
use crate::types::meta_expire_at_ms;
use crate::types::ExpireKey;
use crate::types::LogId;
use crate::types::Marked;
use crate::types::MarkedV;
use crate::types::Node;
use crate::types::SeqV;
use crate::types::SeqVV;
use crate::types::StoredMembership;
use crate::types::opt_log_id_le;
use crate::snapshot::live_of;
use crate::snapshot::RaftStoreEntry;
use crate::snapshot::SnapshotViewV003;
use crate::importer::import_fold;
use crate::importer::importer_init;
use crate::importer::Importer;
use crate::importer::ImportError;

verus! {

/// Every sequence number recorded anywhere in the stack is bounded by `b`,
/// and live kv records never carry the reserved sequence number 0.
pub open spec fn seqs_bounded(levels: Seq<LevelDataV>, b: u64) -> bool {
    &&& forall|i: int, j: int|
        0 <= i < levels.len() && 0 <= j < levels[i].kv.len() ==> marked_seq(
            (#[trigger] levels[i].kv[j]).1,
        ) <= b
    &&& forall|i: int, j: int|
        0 <= i < levels.len() && 0 <= j < levels[i].kv.len() && (#[trigger] levels[i].kv[j]).1
            is Normal ==> marked_seq(levels[i].kv[j].1) >= 1
    &&& forall|i: int, j: int|
        0 <= i < levels.len() && 0 <= j < levels[i].expire.len() ==> marked_seq(
            (#[trigger] levels[i].expire[j]).1,
        ) <= b && levels[i].expire[j].0.seq <= b
}

/// Every live kv entry with an expiration time owns its expiration-index
/// entry.
pub open spec fn expire_paired(levels: Seq<LevelDataV>) -> bool {
    forall|k: Seq<u8>|
        match #[trigger] merged_kv_at(levels, k) {
            Option::Some(MarkedV::Normal { internal_seq, value, meta }) => match meta_expire_at_ms(
                meta,
            ) {
                Option::Some(t) => merged_exp_at(
                    levels,
                    (ExpireKey { time_ms: t, seq: internal_seq }),
                ) == Option::Some(
                    (MarkedV::Normal { internal_seq, value: k, meta: Option::None }),
                ),
                Option::None => true,
            },
            _ => true,
        }
}

/// Every live expiration-index entry points back at the live kv entry it
/// indexes: no orphans.
pub open spec fn expire_backed(levels: Seq<LevelDataV>) -> bool {
    forall|e: ExpireKey|
        match #[trigger] merged_exp_at(levels, e) {
            Option::Some(MarkedV::Normal { internal_seq: s, value: k, meta: me }) => {
                &&& s == e.seq
                &&& me is None
                &&& match merged_kv_at(levels, k) {
                    Option::Some(MarkedV::Normal { internal_seq: s2, value: _, meta }) => s2
                        == e.seq && meta_expire_at_ms(meta) == Option::Some(e.time_ms),
                    _ => false,
                }
            },
            _ => true,
        }
}

/// The full state-machine invariant over a stack of levels.
pub open spec fn sm_levels_inv(levels: Seq<LevelDataV>) -> bool {
    &&& levels.len() >= 1
    &&& levels_wf(levels)
    &&& seqs_bounded(levels, levels.last().sys.seq)
    &&& expire_paired(levels)
    &&& expire_backed(levels)
}

/// The versioned value the merged store presents for a key: tombstones and
/// absence both read as "not found".
pub open spec fn kv_state(levels: Seq<LevelDataV>, k: Seq<u8>) -> Option<SeqVV> {
    match merged_kv_at(levels, k) {
        Option::None => Option::None,
        Option::Some(m) => marked_to_seqv(m),
    }
}

/// A merged kv record's sequence number is bounded by the bound of the
/// stack it came from.
pub proof fn lemma_merged_kv_bound(levels: Seq<LevelDataV>, b: u64, k: Seq<u8>)
    requires
        seqs_bounded(levels, b),
        merged_kv_at(levels, k) is Some,
    ensures
        marked_seq(merged_kv_at(levels, k).unwrap()) <= b,
        merged_kv_at(levels, k).unwrap() is Normal ==> marked_seq(
            merged_kv_at(levels, k).unwrap(),
        ) >= 1,
    decreases levels.len(),
{
    let n = levels.len() as int;
    if kv_lookup(levels.last().kv, k) is Some {
        crate::kv_map::lemma_kv_lookup_some_index(levels.last().kv, k);
        let j = choose|j: int|
            0 <= j < levels.last().kv.len() && (#[trigger] levels.last().kv[j]).0 == k
                && levels.last().kv[j].1 == kv_lookup(levels.last().kv, k).unwrap();
        assert(levels[n - 1] == levels.last());
        assert(marked_seq(levels[n - 1].kv[j].1) <= b);
    } else {
        assert(seqs_bounded(levels.drop_last(), b)) by {
            assert(forall|i: int|
                0 <= i < levels.drop_last().len() ==> (#[trigger] levels.drop_last()[i])
                    == levels[i]);
        }
        lemma_merged_kv_bound(levels.drop_last(), b, k);
    }
}

/// A merged expiration record's sequence numbers are bounded by the bound of
/// the stack it came from.
pub proof fn lemma_merged_exp_bound(levels: Seq<LevelDataV>, b: u64, e: ExpireKey)
    requires
        seqs_bounded(levels, b),
        merged_exp_at(levels, e) is Some,
    ensures
        marked_seq(merged_exp_at(levels, e).unwrap()) <= b,
        e.seq <= b,
    decreases levels.len(),
{
    let n = levels.len() as int;
    if exp_lookup(levels.last().expire, e) is Some {
        crate::expire_map::lemma_exp_lookup_some_index(levels.last().expire, e);
        let j = choose|j: int|
            0 <= j < levels.last().expire.len() && (#[trigger] levels.last().expire[j]).0 == e
                && levels.last().expire[j].1 == exp_lookup(levels.last().expire, e).unwrap();
        assert(levels[n - 1] == levels.last());
        assert(marked_seq(levels[n - 1].expire[j].1) <= b && levels[n - 1].expire[j].0.seq <= b);
    } else {
        assert(seqs_bounded(levels.drop_last(), b)) by {
            assert(forall|i: int|
                0 <= i < levels.drop_last().len() ==> (#[trigger] levels.drop_last()[i])
                    == levels[i]);
        }
        lemma_merged_exp_bound(levels.drop_last(), b, e);
    }
}

/// A larger bound keeps sequences bounded.
pub proof fn lemma_seqs_bounded_mono(levels: Seq<LevelDataV>, b1: u64, b2: u64)
    requires
        seqs_bounded(levels, b1),
        b1 <= b2,
    ensures
        seqs_bounded(levels, b2),
{
}

/// Inserting a bounded record into the last level's primary index keeps the
/// stack's sequences bounded.
pub proof fn lemma_seqs_bounded_insert_kv(
    a: Seq<LevelDataV>,
    b: Seq<LevelDataV>,
    k: Seq<u8>,
    v: MarkedV,
    bound: u64,
)
    requires
        seqs_bounded(a, bound),
        a.len() > 0,
        b.len() == a.len(),
        b.drop_last() == a.drop_last(),
        b.last().kv == kv_insert(a.last().kv, k, v),
        b.last().expire == a.last().expire,
        marked_seq(v) <= bound,
        v is Normal ==> marked_seq(v) >= 1,
    ensures
        seqs_bounded(b, bound),
{
    let n = a.len() as int;
    crate::kv_map::lemma_kv_insert_pairs(a.last().kv, k, v);
    assert(forall|i: int| 0 <= i < n - 1 ==> (#[trigger] b[i]) == b.drop_last()[i]);
    assert(forall|i: int| 0 <= i < n - 1 ==> (#[trigger] a[i]) == a.drop_last()[i]);
    assert(b[n - 1] == b.last() && a[n - 1] == a.last());
    assert forall|i: int, j: int|
        0 <= i < b.len() && 0 <= j < b[i].kv.len() implies marked_seq((#[trigger] b[i].kv[j]).1)
        <= bound && (b[i].kv[j].1 is Normal ==> marked_seq(b[i].kv[j].1) >= 1) by {
        if i < n - 1 {
            assert(b[i] == a[i]);
            assert(marked_seq(a[i].kv[j].1) <= bound);
        } else {
            assert(b[i].kv == kv_insert(a.last().kv, k, v));
            if b[i].kv[j] == (k, v) {
            } else {
                let l = choose|l: int|
                    0 <= l < a.last().kv.len() && a.last().kv[l] == kv_insert(a.last().kv, k, v)[j];
                assert(marked_seq(a[n - 1].kv[l].1) <= bound);
            }
        }
    }
    assert forall|i: int, j: int|
        0 <= i < b.len() && 0 <= j < b[i].expire.len() implies marked_seq(
        (#[trigger] b[i].expire[j]).1,
    ) <= bound && b[i].expire[j].0.seq <= bound by {
        if i < n - 1 {
            assert(b[i] == a[i]);
            assert(marked_seq(a[i].expire[j].1) <= bound);
        } else {
            assert(b[i].expire == a[n - 1].expire);
            assert(marked_seq(a[n - 1].expire[j].1) <= bound);
        }
    }
}

/// Inserting a bounded record into the last level's expiration index keeps
/// the stack's sequences bounded.
pub proof fn lemma_seqs_bounded_insert_exp(
    a: Seq<LevelDataV>,
    b: Seq<LevelDataV>,
    e: ExpireKey,
    v: MarkedV,
    bound: u64,
)
    requires
        seqs_bounded(a, bound),
        a.len() > 0,
        b.len() == a.len(),
        b.drop_last() == a.drop_last(),
        b.last().expire == exp_insert(a.last().expire, e, v),
        b.last().kv == a.last().kv,
        marked_seq(v) <= bound,
        e.seq <= bound,
    ensures
        seqs_bounded(b, bound),
{
    let n = a.len() as int;
    crate::expire_map::lemma_exp_insert_pairs(a.last().expire, e, v);
    assert(forall|i: int| 0 <= i < n - 1 ==> (#[trigger] b[i]) == b.drop_last()[i]);
    assert(forall|i: int| 0 <= i < n - 1 ==> (#[trigger] a[i]) == a.drop_last()[i]);
    assert(b[n - 1] == b.last() && a[n - 1] == a.last());
    assert forall|i: int, j: int|
        0 <= i < b.len() && 0 <= j < b[i].kv.len() implies marked_seq((#[trigger] b[i].kv[j]).1)
        <= bound && (b[i].kv[j].1 is Normal ==> marked_seq(b[i].kv[j].1) >= 1) by {
        if i < n - 1 {
            assert(b[i] == a[i]);
            assert(marked_seq(a[i].kv[j].1) <= bound);
            assert(a[i].kv[j].1 is Normal ==> marked_seq(a[i].kv[j].1) >= 1);
        } else {
            assert(b[i].kv == a[n - 1].kv);
            assert(marked_seq(a[n - 1].kv[j].1) <= bound);
            assert(a[n - 1].kv[j].1 is Normal ==> marked_seq(a[n - 1].kv[j].1) >= 1);
        }
    }
    assert forall|i: int, j: int|
        0 <= i < b.len() && 0 <= j < b[i].expire.len() implies marked_seq(
        (#[trigger] b[i].expire[j]).1,
    ) <= bound && b[i].expire[j].0.seq <= bound by {
        if i < n - 1 {
            assert(b[i] == a[i]);
            assert(marked_seq(a[i].expire[j].1) <= bound);
        } else {
            assert(b[i].expire == exp_insert(a.last().expire, e, v));
            if b[i].expire[j] == (e, v) {
            } else {
                let l = choose|l: int|
                    0 <= l < a.last().expire.len() && a.last().expire[l] == exp_insert(
                        a.last().expire,
                        e,
                        v,
                    )[j];
                assert(marked_seq(a[n - 1].expire[l].1) <= bound);
                assert(a[n - 1].expire[l].0.seq <= bound);
            }
        }
    }
}


/// Whether an upsert performs a write: the `MatchSeq` must accept the
/// current sequence number (absent and deleted read as 0), and `AsIs`
/// writes only when a live value exists.
pub open spec fn upsert_applies(up: UpsertKVV, prev: Option<MarkedV>) -> bool {
    &&& match_seq_matches(up.seq, marked_opt_order_seq(prev))
    &&& match up.value {
        OperationV::AsIs => prev matches Some(m) && m is Normal,
        _ => true,
    }
}

/// The bytes of the previous live value, if any.
pub open spec fn prev_normal_value(prev: Option<MarkedV>) -> Seq<u8> {
    match prev {
        Option::Some(MarkedV::Normal { value, .. }) => value,
        _ => Seq::empty(),
    }
}

/// The record the primary write produces, before the expired-on-arrival
/// check.
pub open spec fn upsert_first_written(up: UpsertKVV, prev: Option<MarkedV>, seq1: u64) -> MarkedV {
    match up.value {
        OperationV::Update(v) => (MarkedV::Normal {
            internal_seq: seq1,
            value: v,
            meta: up.value_meta,
        }),
        OperationV::Delete => (MarkedV::TombStone { internal_seq: seq1 }),
        OperationV::AsIs => (MarkedV::Normal {
            internal_seq: seq1,
            value: prev_normal_value(prev),
            meta: up.value_meta,
        }),
    }
}

/// A record whose expiration time lies strictly before the cursor time has
/// already expired relative to the applied log.
pub open spec fn marked_expired_before(m: MarkedV, cursor_time_ms: u64) -> bool {
    match marked_expire_at_ms(m) {
        Option::Some(t) => t < cursor_time_ms,
        Option::None => false,
    }
}

/// The merged record under the key after an applying upsert: the written
/// record, or a fresh tombstone on top of it when it arrived expired.
pub open spec fn upsert_result_marked(
    up: UpsertKVV,
    prev: Option<MarkedV>,
    seq0: u64,
    cursor_time_ms: u64,
) -> MarkedV {
    let first = upsert_first_written(up, prev, (seq0 + 1) as u64);
    if marked_expired_before(first, cursor_time_ms) {
        (MarkedV::TombStone { internal_seq: (seq0 + 2) as u64 })
    } else {
        first
    }
}

/// How many sequence numbers an upsert consumes.
pub open spec fn upsert_seq_delta(
    up: UpsertKVV,
    prev: Option<MarkedV>,
    seq0: u64,
    cursor_time_ms: u64,
) -> int {
    if !upsert_applies(up, prev) {
        0
    } else if marked_expired_before(upsert_first_written(up, prev, (seq0 + 1) as u64), cursor_time_ms) {
        2
    } else {
        1
    }
}

/// The expiration-index key a record owns, if it is live and expires.
pub open spec fn ekey_of(m: MarkedV) -> Option<ExpireKey> {
    match m {
        MarkedV::Normal { internal_seq, value: _, meta } => match meta_expire_at_ms(meta) {
            Option::Some(t) => Option::Some((ExpireKey { time_ms: t, seq: internal_seq })),
            Option::None => Option::None,
        },
        _ => Option::None,
    }
}

pub open spec fn opt_ekey_of(m: Option<MarkedV>) -> Option<ExpireKey> {
    match m {
        Option::None => Option::None,
        Option::Some(x) => ekey_of(x),
    }
}

/// The versioned value an optional record denotes.
pub open spec fn opt_marked_seqv(m: Option<MarkedV>) -> Option<SeqVV> {
    match m {
        Option::None => Option::None,
        Option::Some(x) => marked_to_seqv(x),
    }
}

/// Convert an optional record to the versioned value it denotes.
pub fn opt_marked_to_seqv(m: &Option<Marked>) -> (r: Option<SeqV>)
    ensures
        ({
            let mv = match *m {
                Option::None => Option::<MarkedV>::None,
                Option::Some(x) => Option::Some(x@),
            };
            match opt_marked_seqv(mv) {
                Option::None => r is None,
                Option::Some(v) => r matches Some(x) && x@ == v,
            }
        }),
{
    match m {
        Option::None => Option::None,
        Option::Some(x) => x.to_seqv(),
    }
}

/// The index coupling depends only on the merged views.
pub proof fn lemma_pairing_preserved(a: Seq<LevelDataV>, b: Seq<LevelDataV>)
    requires
        expire_paired(a),
        expire_backed(a),
        forall|k: Seq<u8>| #[trigger] merged_kv_at(b, k) == merged_kv_at(a, k),
        forall|e: ExpireKey| #[trigger] merged_exp_at(b, e) == merged_exp_at(a, e),
    ensures
        expire_paired(b),
        expire_backed(b),
{
    assert forall|k: Seq<u8>|
        match #[trigger] merged_kv_at(b, k) {
            Option::Some(MarkedV::Normal { internal_seq, value, meta }) => match meta_expire_at_ms(
                meta,
            ) {
                Option::Some(t) => merged_exp_at(b, (ExpireKey { time_ms: t, seq: internal_seq }))
                    == Option::Some(
                    (MarkedV::Normal { internal_seq, value: k, meta: Option::None }),
                ),
                Option::None => true,
            },
            _ => true,
        } by {
        assert(merged_kv_at(b, k) == merged_kv_at(a, k));
    }
    assert forall|e: ExpireKey|
        match #[trigger] merged_exp_at(b, e) {
            Option::Some(MarkedV::Normal { internal_seq: s, value: k, meta: me }) => {
                &&& s == e.seq
                &&& me is None
                &&& match merged_kv_at(b, k) {
                    Option::Some(MarkedV::Normal { internal_seq: s2, value: _, meta }) => s2
                        == e.seq && meta_expire_at_ms(meta) == Option::Some(e.time_ms),
                    _ => false,
                }
            },
            _ => true,
        } by {
        assert(merged_exp_at(b, e) == merged_exp_at(a, e));
        match merged_exp_at(a, e) {
            Option::Some(MarkedV::Normal { internal_seq: s, value: k, meta: me }) => {
                assert(merged_kv_at(b, k) == merged_kv_at(a, k));
            },
            _ => {},
        }
    }
}

/// Sequence bounds depend only on the per-level indexes.
pub proof fn lemma_seqs_bounded_congruence(a: Seq<LevelDataV>, b: Seq<LevelDataV>, bound: u64)
    requires
        seqs_bounded(a, bound),
        b.len() == a.len(),
        forall|i: int|
            0 <= i < a.len() ==> (#[trigger] b[i]).kv == a[i].kv && b[i].expire == a[i].expire,
    ensures
        seqs_bounded(b, bound),
{
    assert forall|i: int, j: int|
        0 <= i < b.len() && 0 <= j < b[i].kv.len() implies marked_seq((#[trigger] b[i].kv[j]).1)
        <= bound && (b[i].kv[j].1 is Normal ==> marked_seq(b[i].kv[j].1) >= 1) by {
        assert(b[i].kv == a[i].kv);
        assert(marked_seq(a[i].kv[j].1) <= bound);
        assert(a[i].kv[j].1 is Normal ==> marked_seq(a[i].kv[j].1) >= 1);
    }
    assert forall|i: int, j: int|
        0 <= i < b.len() && 0 <= j < b[i].expire.len() implies marked_seq(
        (#[trigger] b[i].expire[j]).1,
    ) <= bound && b[i].expire[j].0.seq <= bound by {
        assert(b[i].expire == a[i].expire);
        assert(marked_seq(a[i].expire[j].1) <= bound);
    }
}


/// Per-record condition of the executable invariant check: the primary
/// record is bounded and, when live and expiring, owns its expiration entry.
pub open spec fn kv_entry_ok(d: LevelDataV, p: crate::kv_map::KvPair) -> bool {
    &&& marked_seq(p.1) <= d.sys.seq
    &&& (p.1 is Normal ==> marked_seq(p.1) >= 1)
    &&& match p.1 {
        MarkedV::Normal { internal_seq, value: _, meta } => match meta_expire_at_ms(meta) {
            Option::Some(t) => exp_lookup(
                d.expire,
                (ExpireKey { time_ms: t, seq: internal_seq }),
            ) == Option::Some(
                (MarkedV::Normal { internal_seq, value: p.0, meta: Option::None }),
            ),
            Option::None => true,
        },
        _ => true,
    }
}

/// Per-record condition of the executable invariant check: the expiration
/// record is bounded and points back at its live primary record.
pub open spec fn exp_entry_ok(d: LevelDataV, p: crate::expire_map::ExpPair) -> bool {
    &&& p.0.seq <= d.sys.seq
    &&& marked_seq(p.1) <= d.sys.seq
    &&& match p.1 {
        MarkedV::Normal { internal_seq, value, meta } => {
            &&& internal_seq == p.0.seq
            &&& meta is None
            &&& match kv_lookup(d.kv, value) {
                Option::Some(MarkedV::Normal { internal_seq: s2, value: _, meta: m2 }) => s2
                    == p.0.seq && meta_expire_at_ms(m2) == Option::Some(p.0.time_ms),
                _ => false,
            }
        },
        _ => true,
    }
}

/// For a single level, the per-record conditions are exactly the
/// state-machine invariant.
pub proof fn lemma_single_level_inv(d: LevelDataV)
    requires
        crate::kv_map::kv_sorted(d.kv),
        crate::expire_map::exp_sorted(d.expire),
        crate::node_map::node_sorted(d.sys.nodes),
    ensures
        sm_levels_inv(seq![d]) <==> ((forall|j: int|
            0 <= j < d.kv.len() ==> kv_entry_ok(d, #[trigger] d.kv[j])) && (forall|j: int|
            0 <= j < d.expire.len() ==> exp_entry_ok(d, #[trigger] d.expire[j]))),
{
    let levels = seq![d];
    assert(levels.last() == d);
    assert(levels.drop_last().len() == 0);
    assert forall|k: Seq<u8>| #[trigger]
        merged_kv_at(levels, k) == kv_lookup(d.kv, k) by {
        if kv_lookup(d.kv, k) is None {
            assert(merged_kv_at(levels.drop_last(), k) is None);
        }
    }
    assert forall|e: ExpireKey| #[trigger]
        merged_exp_at(levels, e) == exp_lookup(d.expire, e) by {
        if exp_lookup(d.expire, e) is None {
            assert(merged_exp_at(levels.drop_last(), e) is None);
        }
    }
    if sm_levels_inv(levels) {
        assert forall|j: int| 0 <= j < d.kv.len() implies kv_entry_ok(d, #[trigger] d.kv[j]) by {
            crate::kv_map::lemma_kv_lookup_at_index(d.kv, j);
            assert(merged_kv_at(levels, d.kv[j].0) == Option::Some(d.kv[j].1));
            assert(levels[0] == d);
            assert(marked_seq(levels[0].kv[j].1) <= d.sys.seq);
        }
        assert forall|j: int| 0 <= j < d.expire.len() implies exp_entry_ok(
            d,
            #[trigger] d.expire[j],
        ) by {
            crate::expire_map::lemma_exp_lookup_at_index(d.expire, j);
            assert(merged_exp_at(levels, d.expire[j].0) == Option::Some(d.expire[j].1));
            assert(levels[0] == d);
            assert(marked_seq(levels[0].expire[j].1) <= d.sys.seq);
            assert(levels[0].expire[j].0.seq <= d.sys.seq);
        }
    }
    if (forall|j: int| 0 <= j < d.kv.len() ==> kv_entry_ok(d, #[trigger] d.kv[j])) && (forall|
        j: int,
    | 0 <= j < d.expire.len() ==> exp_entry_ok(d, #[trigger] d.expire[j])) {
        assert forall|i: int, j: int|
            0 <= i < levels.len() && 0 <= j < levels[i].kv.len() implies marked_seq(
            (#[trigger] levels[i].kv[j]).1,
        ) <= d.sys.seq && (levels[i].kv[j].1 is Normal ==> marked_seq(levels[i].kv[j].1)
            >= 1) by {
            assert(levels[i] == d);
            assert(kv_entry_ok(d, d.kv[j]));
        }
        assert forall|i: int, j: int|
            0 <= i < levels.len() && 0 <= j < levels[i].expire.len() implies marked_seq(
            (#[trigger] levels[i].expire[j]).1,
        ) <= d.sys.seq && levels[i].expire[j].0.seq <= d.sys.seq by {
            assert(levels[i] == d);
            assert(exp_entry_ok(d, d.expire[j]));
        }
        assert forall|k: Seq<u8>|
            match #[trigger] merged_kv_at(levels, k) {
                Option::Some(MarkedV::Normal { internal_seq, value, meta }) => match meta_expire_at_ms(
                    meta,
                ) {
                    Option::Some(t) => merged_exp_at(
                        levels,
                        (ExpireKey { time_ms: t, seq: internal_seq }),
                    ) == Option::Some(
                        (MarkedV::Normal { internal_seq, value: k, meta: Option::None }),
                    ),
                    Option::None => true,
                },
                _ => true,
            } by {
            if merged_kv_at(levels, k) is Some {
                crate::kv_map::lemma_kv_lookup_some_index(d.kv, k);
                let j = choose|j: int|
                    0 <= j < d.kv.len() && (#[trigger] d.kv[j]).0 == k && d.kv[j].1 == kv_lookup(
                        d.kv,
                        k,
                    ).unwrap();
                assert(kv_entry_ok(d, d.kv[j]));
            }
        }
        assert forall|e: ExpireKey|
            match #[trigger] merged_exp_at(levels, e) {
                Option::Some(MarkedV::Normal { internal_seq: s, value: k, meta: me }) => {
                    &&& s == e.seq
                    &&& me is None
                    &&& match merged_kv_at(levels, k) {
                        Option::Some(
                            MarkedV::Normal { internal_seq: s2, value: _, meta },
                        ) => s2 == e.seq && meta_expire_at_ms(meta) == Option::Some(e.time_ms),
                        _ => false,
                    }
                },
                _ => true,
            } by {
            if merged_exp_at(levels, e) is Some {
                crate::expire_map::lemma_exp_lookup_some_index(d.expire, e);
                let j = choose|j: int|
                    0 <= j < d.expire.len() && (#[trigger] d.expire[j]).0 == e && d.expire[j].1
                        == exp_lookup(d.expire, e).unwrap();
                assert(exp_entry_ok(d, d.expire[j]));
            }
        }
        assert forall|i: int| 0 <= i < levels.len() implies {
            &&& crate::kv_map::kv_sorted((#[trigger] levels[i]).kv)
            &&& crate::expire_map::exp_sorted(levels[i].expire)
            &&& crate::node_map::node_sorted(levels[i].sys.nodes)
        } by {
            assert(levels[i] == d);
        }
    }
}

/// Check the state-machine invariant of a single level, record by record.
pub fn check_level_inv(d: &LevelData) -> (r: bool)
    requires
        d.wf(),
    ensures
        r == sm_levels_inv(seq![d@]),
{
    proof {
        lemma_single_level_inv(d@);
    }
    let seq_bound = d.sys.curr_seq();
    let n = d.kv.len();
    let mut j: usize = 0;
    while j < n
        invariant
            0 <= j <= n == d@.kv.len(),
            d.wf(),
            seq_bound == d@.sys.seq,
            forall|l: int| 0 <= l < j ==> kv_entry_ok(d@, #[trigger] d@.kv[l]),
        decreases n - j,
    {
        let entry = d.kv.entry_at(j);
        let sq = entry.1.internal_seq();
        if sq > seq_bound {
            proof {
                lemma_single_level_inv(d@);
                assert(!kv_entry_ok(d@, d@.kv[j as int]));
            }
            return false;
        }
        match &entry.1 {
            Marked::Normal { internal_seq, value: _, meta } => {
                if *internal_seq < 1 {
                    proof {
                        lemma_single_level_inv(d@);
                        assert(!kv_entry_ok(d@, d@.kv[j as int]));
                    }
                    return false;
                }
                let expire_at: Option<u64> = match meta {
                    Option::Some(m) => m.expire_at_ms,
                    Option::None => Option::None,
                };
                match expire_at {
                    Option::Some(t) => {
                        let e = ExpireKey::new(t, *internal_seq);
                        let ok: bool = match d.expire.get(&e) {
                            Option::Some(m2) => match m2 {
                                Marked::Normal {
                                    internal_seq: s2,
                                    value: k2,
                                    meta: me2,
                                } => *s2 == *internal_seq && me2.is_none() && matches!(
                                    crate::bytes_order::key_compare(k2, &entry.0),
                                    crate::bytes_order::KeyOrdering::Equal
                                ),
                                Marked::TombStone { .. } => false,
                            },
                            Option::None => false,
                        };
                        if !ok {
                            proof {
                                lemma_single_level_inv(d@);
                                assert(!kv_entry_ok(d@, d@.kv[j as int]));
                                assert(!sm_levels_inv(seq![d@]));
                            }
                            return false;
                        }
                    },
                    Option::None => {},
                }
            },
            Marked::TombStone { .. } => {},
        }
        proof {
            assert(kv_entry_ok(d@, d@.kv[j as int]));
        }
        j = j + 1;
    }
    let en = d.expire.len();
    let mut j: usize = 0;
    while j < en
        invariant
            0 <= j <= en == d@.expire.len(),
            d.wf(),
            seq_bound == d@.sys.seq,
            forall|l: int| 0 <= l < d@.kv.len() ==> kv_entry_ok(d@, #[trigger] d@.kv[l]),
            forall|l: int| 0 <= l < j ==> exp_entry_ok(d@, #[trigger] d@.expire[l]),
        decreases en - j,
    {
        let entry = d.expire.entry_at(j);
        if entry.0.seq > seq_bound || entry.1.internal_seq() > seq_bound {
            proof {
                lemma_single_level_inv(d@);
                assert(!exp_entry_ok(d@, d@.expire[j as int]));
            }
            return false;
        }
        match &entry.1 {
            Marked::Normal { internal_seq, value, meta } => {
                let fields_ok = *internal_seq == entry.0.seq && meta.is_none();
                let back_ok: bool = match d.kv.get(value) {
                    Option::Some(m2) => match m2 {
                        Marked::Normal { internal_seq: s2, value: _, meta: m3 } => {
                            let exp2: Option<u64> = match m3 {
                                Option::Some(mm) => mm.expire_at_ms,
                                Option::None => Option::None,
                            };
                            *s2 == entry.0.seq && (match exp2 {
                                Option::Some(t2) => t2 == entry.0.time_ms,
                                Option::None => false,
                            })
                        },
                        Marked::TombStone { .. } => false,
                    },
                    Option::None => false,
                };
                if !(fields_ok && back_ok) {
                    proof {
                        lemma_single_level_inv(d@);
                        assert(!exp_entry_ok(d@, d@.expire[j as int]));
                        assert(!sm_levels_inv(seq![d@]));
                    }
                    return false;
                }
            },
            Marked::TombStone { .. } => {},
        }
        proof {
            assert(exp_entry_ok(d@, d@.expire[j as int]));
        }
        j = j + 1;
    }
    proof {
        lemma_single_level_inv(d@);
    }
    true
}


/// Some record of the merged view carries the current counter value, unless
/// the counter has never moved.  Together with the bound of
/// [`lemma_merged_kv_bound`] this makes the counter the maximum sequence
/// number observed in any live or tombstone record; the applier preserves
/// it across every entry.
pub open spec fn seq_has_witness(levels: Seq<LevelDataV>) -> bool {
    levels.last().sys.seq == 0 || exists|k: Seq<u8>|
        (#[trigger] merged_kv_at(levels, k)) matches Some(m) && marked_seq(m)
            == levels.last().sys.seq
}

/// The sequence counter equals the greatest sequence number recorded in the
/// merged view: every record stays at or below it, and some record attains
/// it whenever the counter has moved.
pub proof fn lemma_seq_counter_is_max(levels: Seq<LevelDataV>)
    requires
        sm_levels_inv(levels),
        seq_has_witness(levels),
    ensures
        forall|k: Seq<u8>|
            match #[trigger] merged_kv_at(levels, k) {
                Option::Some(m) => marked_seq(m) <= levels.last().sys.seq,
                Option::None => true,
            },
        levels.last().sys.seq > 0 ==> exists|k: Seq<u8>|
            (#[trigger] merged_kv_at(levels, k)) matches Some(m) && marked_seq(m)
                == levels.last().sys.seq,
{
    assert forall|k: Seq<u8>|
        match #[trigger] merged_kv_at(levels, k) {
            Option::Some(m) => marked_seq(m) <= levels.last().sys.seq,
            Option::None => true,
        } by {
        if merged_kv_at(levels, k) is Some {
            lemma_merged_kv_bound(levels, levels.last().sys.seq, k);
        }
    }
}


/// The witness survives any change that keeps the merged view and the
/// counter.
pub proof fn lemma_witness_transfer(a: Seq<LevelDataV>, b: Seq<LevelDataV>)
    requires
        seq_has_witness(a),
        b.last().sys.seq == a.last().sys.seq,
        forall|k: Seq<u8>| #[trigger] merged_kv_at(b, k) == merged_kv_at(a, k),
    ensures
        seq_has_witness(b),
{
    if a.last().sys.seq != 0 {
        let k = choose|k: Seq<u8>|
            (#[trigger] merged_kv_at(a, k)) matches Some(m) && marked_seq(m)
                == a.last().sys.seq;
        assert(merged_kv_at(b, k) == merged_kv_at(a, k));
        assert((#[trigger] merged_kv_at(b, k)) matches Some(m) && marked_seq(m)
            == b.last().sys.seq);
    }
}

/// Record totals change only through the last level.
pub proof fn lemma_totals_last(a: Seq<LevelDataV>, b: Seq<LevelDataV>)
    requires
        a.len() > 0,
        b.len() == a.len(),
        b.drop_last() == a.drop_last(),
    ensures
        total_kv(b) == total_kv(a) - a.last().kv.len() + b.last().kv.len(),
        total_exp(b) == total_exp(a) - a.last().expire.len() + b.last().expire.len(),
{
    assert(total_kv(b) == total_kv(b.drop_last()) + b.last().kv.len());
    assert(total_kv(a) == total_kv(a.drop_last()) + a.last().kv.len());
    assert(total_exp(b) == total_exp(b.drop_last()) + b.last().expire.len());
    assert(total_exp(a) == total_exp(a.drop_last()) + a.last().expire.len());
}


/// A change that touches only the sys block of the writable level keeps
/// every per-level index, hence the bounds, the pairing and the totals.
pub proof fn lemma_sys_block_frame(a: Seq<LevelDataV>, b: Seq<LevelDataV>, bound: u64)
    requires
        a.len() == b.len(),
        a.len() >= 1,
        b.drop_last() == a.drop_last(),
        b.last().kv == a.last().kv,
        b.last().expire == a.last().expire,
        seqs_bounded(a, bound),
        expire_paired(a),
        expire_backed(a),
        forall|k: Seq<u8>| #[trigger] merged_kv_at(b, k) == merged_kv_at(a, k),
        forall|e: ExpireKey| #[trigger] merged_exp_at(b, e) == merged_exp_at(a, e),
    ensures
        seqs_bounded(b, bound),
        expire_paired(b),
        expire_backed(b),
        total_kv(b) == total_kv(a),
        total_exp(b) == total_exp(a),
{
    assert(forall|i: int|
        0 <= i < a.len() ==> (#[trigger] b[i]).kv == a[i].kv && b[i].expire == a[i].expire) by {
        assert(forall|i: int|
            0 <= i < a.len() - 1 ==> (#[trigger] b[i]) == b.drop_last()[i] && a[i]
                == a.drop_last()[i]);
        assert(b[a.len() - 1] == b.last() && a[a.len() - 1] == a.last());
    }
    lemma_seqs_bounded_congruence(a, b, bound);
    lemma_pairing_preserved(a, b);
    lemma_totals_last(a, b);
}

/// The view of an optional versioned value.
pub open spec fn opt_seqv_v(v: Option<SeqV>) -> Option<SeqVV> {
    match v {
        Option::None => Option::None,
        Option::Some(x) => Option::Some(x@),
    }
}

/// The previous value an upsert reports: the versioned value currently
/// denoted under the key.
pub open spec fn upsert_prev_v(levels: Seq<LevelDataV>, up: UpsertKVV) -> Option<SeqVV> {
    opt_marked_seqv(merged_kv_at(levels, up.key))
}

/// The resulting value an upsert reports: unchanged on a `MatchSeq`
/// mismatch, else the written record (`None` for a tombstone).
pub open spec fn upsert_result_v(pre: SMV003V, up: UpsertKVV) -> Option<SeqVV> {
    let prev = merged_kv_at(pre.levels, up.key);
    let seq0 = pre.levels.last().sys.seq;
    if upsert_applies(up, prev) {
        marked_to_seqv(upsert_result_marked(up, prev, seq0, pre.expire_cursor.time_ms))
    } else {
        opt_marked_seqv(prev)
    }
}

/// The exact effect of one upsert on the observable state: the cursor and
/// the rest of the sys block are untouched, the counter advances by the
/// consumed amount, and both merged indexes change exactly at the written
/// key and its expiration entries.
pub open spec fn upsert_rel(pre: SMV003V, post: SMV003V, up: UpsertKVV) -> bool {
    let prev = merged_kv_at(pre.levels, up.key);
    let seq0 = pre.levels.last().sys.seq;
    let cms = pre.expire_cursor.time_ms;
    &&& post.expire_cursor == pre.expire_cursor
    &&& post.levels.last().sys.last_applied == pre.levels.last().sys.last_applied
    &&& post.levels.last().sys.last_membership == pre.levels.last().sys.last_membership
    &&& post.levels.last().sys.nodes == pre.levels.last().sys.nodes
    &&& post.levels.last().sys.seq == seq0 + upsert_seq_delta(up, prev, seq0, cms)
    &&& if !upsert_applies(up, prev) {
        &&& forall|k2: Seq<u8>| #[trigger] merged_kv_at(post.levels, k2) == merged_kv_at(
            pre.levels,
            k2,
        )
        &&& forall|e: ExpireKey| #[trigger] merged_exp_at(post.levels, e) == merged_exp_at(
            pre.levels,
            e,
        )
    } else {
        let res = upsert_result_marked(up, prev, seq0, cms);
        &&& merged_kv_at(post.levels, up.key) == Option::Some(res)
        &&& forall|k2: Seq<u8>|
            k2 != up.key ==> #[trigger] merged_kv_at(post.levels, k2) == merged_kv_at(
                pre.levels,
                k2,
            )
        &&& forall|e: ExpireKey|
            opt_ekey_of(prev) != Option::Some(e) && ekey_of(res) != Option::Some(e)
                ==> #[trigger] merged_exp_at(post.levels, e) == merged_exp_at(pre.levels, e)
        &&& match ekey_of(res) {
            Option::Some(e) => merged_exp_at(post.levels, e) == Option::Some(
                (MarkedV::Normal { internal_seq: e.seq, value: up.key, meta: Option::None }),
            ),
            Option::None => true,
        }
        &&& match opt_ekey_of(prev) {
            Option::Some(e) => ekey_of(res) != Option::Some(e) ==> (merged_exp_at(
                post.levels,
                e,
            ) matches Some(m) && m is TombStone),
            Option::None => true,
        }
    }
}

/// Two state-machine views with the same observable content: the merged
/// indexes, the sys block and the expiration cursor.
pub open spec fn sm_obs_eq(a: SMV003V, b: SMV003V) -> bool {
    &&& forall|k: Seq<u8>| #[trigger] merged_kv_at(b.levels, k) == merged_kv_at(a.levels, k)
    &&& forall|e: ExpireKey| #[trigger] merged_exp_at(b.levels, e) == merged_exp_at(a.levels, e)
    &&& b.levels.last().sys == a.levels.last().sys
    &&& b.expire_cursor == a.expire_cursor
}

/// The level a finished import denotes.
pub open spec fn level_of_import(st: crate::importer::ImporterV) -> LevelDataV {
    LevelDataV {
        kv: st.kv,
        expire: st.expire,
        sys: crate::level_data::SysDataV {
            seq: st.sys_seq,
            last_applied: st.last_applied,
            last_membership: st.last_membership,
            nodes: st.nodes,
        },
    }
}

/// A versioned value filtered by the clock: expired entries read as absent.
pub open spec fn non_expired(v: Option<SeqVV>, now_ms: u64) -> Option<SeqVV> {
    match v {
        Option::Some(x) => if crate::types::seqv_is_expired(x, now_ms) {
            Option::None
        } else {
            Option::Some(x)
        },
        Option::None => Option::None,
    }
}

/// A read-only view of the state machine for KV queries; reads are filtered
/// by the caller-supplied wall clock.
pub struct SMV003KVApi<'a> {
    sm: &'a SMV003,
}

impl<'a> SMV003KVApi<'a> {
    /// The state the API reads.
    pub closed spec fn sm_view(self) -> SMV003V {
        self.sm@
    }

    /// Read one key, filtering expired entries at `now_ms`.
    pub fn get_kv(&self, key: &Vec<u8>, now_ms: u64) -> (r: Option<SeqV>)
        ensures
            match non_expired(kv_state(self.sm_view().levels, key@), now_ms) {
                Option::None => r is None,
                Option::Some(v) => r matches Some(x) && x@ == v,
            },
    {
        let got = self.sm.get_kv(key);
        match got {
            Option::Some(v) => {
                if v.is_expired(now_ms) {
                    Option::None
                } else {
                    Option::Some(v)
                }
            },
            Option::None => Option::None,
        }
    }

    /// Read several keys, filtering expired entries at `now_ms`.
    pub fn mget_kv(&self, keys: &Vec<Vec<u8>>, now_ms: u64) -> (r: Vec<Option<SeqV>>)
        ensures
            r@.len() == keys@.len(),
            forall|i: int|
                0 <= i < keys@.len() ==> match non_expired(
                    kv_state(self.sm_view().levels, keys@[i]@),
                    now_ms,
                ) {
                    Option::None => (#[trigger] r@[i]) is None,
                    Option::Some(v) => r@[i] matches Some(x) && x@ == v,
                },
    {
        let mut r: Vec<Option<SeqV>> = Vec::new();
        let mut i: usize = 0;
        while i < keys.len()
            invariant
                0 <= i <= keys@.len(),
                r@.len() == i,
                forall|l: int|
                    0 <= l < i ==> match non_expired(
                        kv_state(self.sm_view().levels, keys@[l]@),
                        now_ms,
                    ) {
                        Option::None => (#[trigger] r@[l]) is None,
                        Option::Some(v) => r@[l] matches Some(x) && x@ == v,
                    },
            decreases keys@.len() - i,
        {
            let got = self.get_kv(&keys[i], now_ms);
            r.push(got);
            i = i + 1;
        }
        r
    }

    /// List a prefix, filtering expired entries at `now_ms`.
    pub fn prefix_list_kv(&self, prefix: &Vec<u8>, now_ms: u64) -> (r: Vec<(Vec<u8>, SeqV)>)
        requires
            self.sm_view_inv(),
        ensures
            forall|i: int|
                0 <= i < r@.len() ==> crate::bytes_order::is_prefix_of(
                    prefix@,
                    (#[trigger] r@[i]).0@,
                ) && non_expired(kv_state(self.sm_view().levels, r@[i].0@), now_ms)
                    == Option::Some(r@[i].1@),
            forall|i: int, j: int|
                0 <= i < j < r@.len() ==> crate::bytes_order::lex_lt(
                    (#[trigger] r@[i]).0@,
                    (#[trigger] r@[j]).0@,
                ),
            forall|k: Seq<u8>|
                crate::bytes_order::is_prefix_of(prefix@, k) && (#[trigger] non_expired(
                    kv_state(self.sm_view().levels, k),
                    now_ms,
                )) is Some ==> exists|i: int| 0 <= i < r@.len() && (#[trigger] r@[i]).0@ == k,
    {
        let all = self.sm.prefix_list_kv(prefix);
        let mut r: Vec<(Vec<u8>, SeqV)> = Vec::new();
        let mut i: usize = 0;
        while i < all.len()
            invariant
                0 <= i <= all@.len(),
                forall|l: int|
                    0 <= l < all@.len() ==> crate::bytes_order::is_prefix_of(
                        prefix@,
                        (#[trigger] all@[l]).0@,
                    ) && kv_state(self.sm_view().levels, all@[l].0@) == Option::Some(
                        all@[l].1@,
                    ),
                forall|l1: int, l2: int|
                    0 <= l1 < l2 < all@.len() ==> crate::bytes_order::lex_lt(
                        (#[trigger] all@[l1]).0@,
                        (#[trigger] all@[l2]).0@,
                    ),
                forall|k: Seq<u8>|
                    crate::bytes_order::is_prefix_of(prefix@, k) && (#[trigger] kv_state(
                        self.sm_view().levels,
                        k,
                    )) is Some ==> exists|l: int|
                        0 <= l < all@.len() && (#[trigger] all@[l]).0@ == k,
                forall|l: int|
                    0 <= l < r@.len() ==> crate::bytes_order::is_prefix_of(
                        prefix@,
                        (#[trigger] r@[l]).0@,
                    ) && non_expired(kv_state(self.sm_view().levels, r@[l].0@), now_ms)
                        == Option::Some(r@[l].1@),
                forall|l: int|
                    0 <= l < r@.len() ==> exists|l2: int|
                        0 <= l2 < i && (#[trigger] r@[l]).0@ == all@[l2].0@,
                forall|l: int|
                    0 <= l < i && non_expired(
                        kv_state(self.sm_view().levels, (#[trigger] all@[l]).0@),
                        now_ms,
                    ) is Some ==> exists|l2: int|
                        0 <= l2 < r@.len() && (#[trigger] r@[l2]).0@ == all@[l].0@,
                forall|l1: int, l2: int|
                    0 <= l1 < l2 < r@.len() ==> crate::bytes_order::lex_lt(
                        (#[trigger] r@[l1]).0@,
                        (#[trigger] r@[l2]).0@,
                    ),
            decreases all@.len() - i,
        {
            let ghost r_pre = r@;
            let expired = all[i].1.is_expired(now_ms);
            if !expired {
                let kd = crate::bytes_order::key_dup(&all[i].0);
                let vd = all[i].1.dup();
                proof {
                    assert forall|l: int| 0 <= l < r_pre.len() implies crate::bytes_order::lex_lt(
                        (#[trigger] r_pre[l]).0@,
                        kd@,
                    ) by {
                        let l2 = choose|l2: int|
                            0 <= l2 < i && ((#[trigger] r_pre[l]).0@ == all@[l2].0@);
                        assert(crate::bytes_order::lex_lt(all@[l2].0@, all@[i as int].0@));
                    }
                }
                r.push((kd, vd));
            }
            proof {
                assert forall|l: int|
                    0 <= l < i + 1 && non_expired(
                        kv_state(self.sm_view().levels, (#[trigger] all@[l]).0@),
                        now_ms,
                    ) is Some implies exists|l2: int|
                    0 <= l2 < r@.len() && (#[trigger] r@[l2]).0@ == all@[l].0@ by {
                    if l < i {
                        let l2 = choose|l2: int|
                            0 <= l2 < r_pre.len() && (#[trigger] r_pre[l2]).0@ == all@[l].0@;
                        assert(r@[l2].0@ == all@[l].0@);
                    } else {
                        assert(r@[r@.len() - 1].0@ == all@[i as int].0@);
                    }
                }
            }
            i = i + 1;
        }
        proof {
            assert forall|k: Seq<u8>|
                crate::bytes_order::is_prefix_of(prefix@, k) && (#[trigger] non_expired(
                    kv_state(self.sm_view().levels, k),
                    now_ms,
                )) is Some implies exists|l: int| 0 <= l < r@.len() && (#[trigger] r@[l]).0@
                == k by {
                assert(kv_state(self.sm_view().levels, k) is Some);
                let l0 = choose|l0: int|
                    0 <= l0 < all@.len() && (#[trigger] all@[l0]).0@ == k;
                assert(non_expired(
                    kv_state(self.sm_view().levels, all@[l0].0@),
                    now_ms,
                ) is Some);
            }
        }
        r
    }

    /// The invariant of the state the API reads.
    pub open spec fn sm_view_inv(self) -> bool {
        sm_levels_inv(self.sm_view().levels)
    }
}

/// Test hooks that delay snapshot building; only used by tests.
#[derive(Clone, Copy, PartialEq, Eq, Structural, Debug)]
pub struct BlockingConfig {
    pub write_snapshot_delay_ms: u64,
    pub compact_snapshot_delay_ms: u64,
}

impl BlockingConfig {
    pub fn new() -> (r: BlockingConfig)
        ensures
            r.write_snapshot_delay_ms == 0,
            r.compact_snapshot_delay_ms == 0,
    {
        BlockingConfig { write_snapshot_delay_ms: 0, compact_snapshot_delay_ms: 0 }
    }
}

/// A subscriber of state-machine change events: a capability with the single
/// operation `kv_changed`.
pub trait StateMachineSubscriber {
    fn kv_changed(&mut self, change: Change);
}

/// The subscriber the library ships: it collects the delivered events.
#[derive(Clone, PartialEq, Eq, Debug)]
pub struct ChangeCollector {
    pub received: Vec<Change>,
}

impl ChangeCollector {
    pub fn new() -> (r: ChangeCollector)
        ensures
            r.received@.len() == 0,
    {
        ChangeCollector { received: Vec::new() }
    }
}

impl StateMachineSubscriber for ChangeCollector {
    fn kv_changed(&mut self, change: Change) {
        self.received.push(change);
    }
}

/// The replicated state machine.
pub struct SMV003 {
    levels: LeveledMap,
    blocking_config: BlockingConfig,
    expire_cursor: ExpireKey,
    subscriber: Option<ChangeCollector>,
}

/// Mathematical image of the state machine: the stack of levels and the
/// expiration cursor.
pub struct SMV003V {
    pub levels: Seq<LevelDataV>,
    pub expire_cursor: ExpireKey,
}

impl View for SMV003 {
    type V = SMV003V;

    closed spec fn view(&self) -> SMV003V {
        SMV003V { levels: self.levels@, expire_cursor: self.expire_cursor }
    }
}

impl SMV003 {
    /// The state-machine invariant.
    pub open spec fn inv(self) -> bool {
        sm_levels_inv(self@.levels)
    }

    /// The current sequence counter.
    pub open spec fn spec_seq(self) -> u64 {
        self@.levels.last().sys.seq
    }

    pub fn new() -> (r: SMV003)
        ensures
            r.inv(),
            r@.levels.len() == 1,
            r@.levels[0].kv == Seq::<crate::kv_map::KvPair>::empty(),
            r@.levels[0].expire == Seq::<crate::expire_map::ExpPair>::empty(),
            r@.levels[0].sys.seq == 0,
            r@.levels[0].sys.last_applied is None,
            r@.levels[0].sys.last_membership.log_id is None,
            r@.expire_cursor == (ExpireKey { time_ms: 0, seq: 0 }),
            r.subscriber_ref() is None,
    {
        let r = SMV003 {
            levels: LeveledMap::new_empty(),
            blocking_config: BlockingConfig::new(),
            expire_cursor: ExpireKey::new(0, 0),
            subscriber: Option::None,
        };
        proof {
            assert(r@.levels[0] == r@.levels.last());
            assert forall|k: Seq<u8>|
                match #[trigger] merged_kv_at(r@.levels, k) {
                    Option::Some(MarkedV::Normal { internal_seq, value, meta }) => match meta_expire_at_ms(
                        meta,
                    ) {
                        Option::Some(t) => merged_exp_at(
                            r@.levels,
                            (ExpireKey { time_ms: t, seq: internal_seq }),
                        ) == Option::Some(
                            (MarkedV::Normal { internal_seq, value: k, meta: Option::None }),
                        ),
                        Option::None => true,
                    },
                    _ => true,
                } by {
                assert(kv_lookup(r@.levels[0].kv, k) is None);
                assert(r@.levels.drop_last().len() == 0);
                assert(merged_kv_at(r@.levels.drop_last(), k) is None);
            }
            assert forall|e: ExpireKey|
                match #[trigger] merged_exp_at(r@.levels, e) {
                    Option::Some(MarkedV::Normal { internal_seq: s, value: k, meta: me }) => false,
                    _ => true,
                } by {
                assert(exp_lookup(r@.levels[0].expire, e) is None);
                assert(r@.levels.drop_last().len() == 0);
                assert(merged_exp_at(r@.levels.drop_last(), e) is None);
            }
        }
        r
    }

    /// The subscriber currently installed.
    pub closed spec fn subscriber_ref(self) -> Option<ChangeCollector> {
        self.subscriber
    }

    pub fn set_subscriber(&mut self, subscriber: ChangeCollector)
        ensures
            final(self)@ == old(self)@,
            final(self).subscriber_ref() == Option::Some(subscriber),
    {
        self.subscriber = Option::Some(subscriber);
    }

    /// Remove and return the subscriber, with every event delivered so far.
    pub fn take_subscriber(&mut self) -> (r: Option<ChangeCollector>)
        ensures
            final(self)@ == old(self)@,
            r == old(self).subscriber_ref(),
            final(self).subscriber_ref() is None,
    {
        let mut s: Option<ChangeCollector> = Option::None;
        core::mem::swap(&mut s, &mut self.subscriber);
        s
    }

    pub fn blocking_config(&self) -> (r: &BlockingConfig)
        ensures
            r == self.spec_blocking_config(),
    {
        &self.blocking_config
    }

    pub closed spec fn spec_blocking_config(self) -> BlockingConfig {
        self.blocking_config
    }

    pub fn blocking_config_mut(&mut self) -> (r: &mut BlockingConfig)
        ensures
            *r == old(self).spec_blocking_config(),
            final(self).spec_blocking_config() == *final(r),
            final(self)@ == old(self)@,
            final(self).subscriber_ref() == old(self).subscriber_ref(),
    {
        &mut self.blocking_config
    }

    pub fn curr_seq(&self) -> (r: u64)
        ensures
            r == self.spec_seq(),
    {
        proof {
            assert(self@.levels.last() == self.levels@.last());
        }
        self.levels.writable_ref().curr_seq()
    }

    /// The number of expiration-index records over all levels, saturating
    /// at the integer limit.  Callers use it to bound the sweep's sequence
    /// budget before an apply.
    pub fn expire_entry_count(&self) -> (r: u64)
        ensures
            r == u64::MAX || r == total_exp(self@.levels),
    {
        self.levels.expire_entry_count()
    }

    pub fn last_applied_ref(&self) -> (r: &Option<LogId>)
        ensures
            *r == self@.levels.last().sys.last_applied,
    {
        self.levels.writable_ref().last_applied_ref()
    }

    pub fn last_membership_ref(&self) -> (r: &StoredMembership)
        ensures
            r@ == self@.levels.last().sys.last_membership,
    {
        self.levels.writable_ref().last_membership_ref()
    }

    pub fn nodes_ref(&self) -> (r: &crate::node_map::NodeMap)
        ensures
            r@ == self@.levels.last().sys.nodes,
    {
        self.levels.writable_ref().nodes_ref()
    }

    pub fn expire_cursor(&self) -> (r: ExpireKey)
        ensures
            r == self@.expire_cursor,
    {
        self.expire_cursor
    }

    /// Get a cloned value by key.  It does not check expiration of the
    /// returned entry.
    pub fn get_kv(&self, key: &Vec<u8>) -> (r: Option<SeqV>)
        ensures
            match kv_state(self@.levels, key@) {
                Option::None => r is None,
                Option::Some(v) => r matches Some(x) && x@ == v,
            },
    {
        match self.levels.get_kv_marked(key) {
            Option::Some(m) => m.to_seqv(),
            Option::None => Option::None,
        }
    }


    /// Update or insert a kv entry, maintaining the expiration index.
    ///
    /// A `MatchSeq` mismatch makes the write a no-op.  A written entry whose
    /// expiration time lies before the expiration cursor is tombstoned at
    /// once; the expired insert still consumes a sequence number.
    #[verifier::rlimit(100)]
    pub fn upsert_kv(&mut self, upsert: &UpsertKV) -> (r: (Option<SeqV>, Option<SeqV>))
        requires
            old(self).inv(),
            old(self).spec_seq() + 2 <= u64::MAX,
        ensures
            final(self).inv(),
            final(self)@.expire_cursor == old(self)@.expire_cursor,
            final(self).subscriber_ref() == old(self).subscriber_ref(),
            final(self)@.levels.len() == old(self)@.levels.len(),
            final(self)@.levels.last().sys.last_applied == old(
                self,
            )@.levels.last().sys.last_applied,
            final(self)@.levels.last().sys.last_membership == old(
                self,
            )@.levels.last().sys.last_membership,
            final(self)@.levels.last().sys.nodes == old(self)@.levels.last().sys.nodes,
            total_kv(final(self)@.levels) <= total_kv(old(self)@.levels) + 2,
            total_exp(final(self)@.levels) <= total_exp(old(self)@.levels) + 2,
            final(self).spec_seq() == old(self).spec_seq() + upsert_seq_delta(
                upsert@,
                merged_kv_at(old(self)@.levels, upsert@.key),
                old(self).spec_seq(),
                old(self)@.expire_cursor.time_ms,
            ),
            match opt_marked_seqv(merged_kv_at(old(self)@.levels, upsert@.key)) {
                Option::None => r.0 is None,
                Option::Some(v) => r.0 matches Some(x) && x@ == v,
            },
            !upsert_applies(upsert@, merged_kv_at(old(self)@.levels, upsert@.key)) ==> {
                &&& final(self)@.levels == old(self)@.levels
                &&& match opt_marked_seqv(merged_kv_at(old(self)@.levels, upsert@.key)) {
                    Option::None => r.1 is None,
                    Option::Some(v) => r.1 matches Some(x) && x@ == v,
                }
            },
            upsert_applies(upsert@, merged_kv_at(old(self)@.levels, upsert@.key)) ==> ({
                let prev = merged_kv_at(old(self)@.levels, upsert@.key);
                let seq0 = old(self).spec_seq();
                let cms = old(self)@.expire_cursor.time_ms;
                let res = upsert_result_marked(upsert@, prev, seq0, cms);
                &&& merged_kv_at(final(self)@.levels, upsert@.key) == Option::Some(res)
                &&& match marked_to_seqv(res) {
                    Option::None => r.1 is None,
                    Option::Some(v) => r.1 matches Some(x) && x@ == v,
                }
                &&& forall|k2: Seq<u8>|
                    k2 != upsert@.key ==> merged_kv_at(final(self)@.levels, k2) == merged_kv_at(
                        old(self)@.levels,
                        k2,
                    )
                &&& forall|e: ExpireKey|
                    opt_ekey_of(prev) != Option::Some(e) && ekey_of(res) != Option::Some(e)
                        ==> merged_exp_at(final(self)@.levels, e) == merged_exp_at(
                        old(self)@.levels,
                        e,
                    )
                &&& match ekey_of(res) {
                    Option::Some(e) => merged_exp_at(final(self)@.levels, e) == Option::Some(
                        (MarkedV::Normal {
                            internal_seq: e.seq,
                            value: upsert@.key,
                            meta: Option::None,
                        }),
                    ),
                    Option::None => true,
                }
                &&& match opt_ekey_of(prev) {
                    Option::Some(e) => ekey_of(res) != Option::Some(e) ==> (merged_exp_at(
                        final(self)@.levels,
                        e,
                    ) matches Some(m) && m is TombStone),
                    Option::None => true,
                }
            }),
            upsert_rel(old(self)@, final(self)@, upsert@),
            opt_seqv_v(r.0) == upsert_prev_v(old(self)@.levels, upsert@),
            opt_seqv_v(r.1) == upsert_result_v(old(self)@, upsert@),
            upsert_applies(upsert@, merged_kv_at(old(self)@.levels, upsert@.key)) ==> seq_has_witness(
                final(self)@.levels,
            ),
    {
        let ghost l0 = old(self)@.levels;
        let ghost prev_g = merged_kv_at(l0, upsert@.key);
        let ghost seq0 = old(self).spec_seq();
        let ghost cms = old(self)@.expire_cursor.time_ms;

        let prev: Option<Marked> = match self.levels.get_kv_marked(&upsert.key) {
            Option::Some(m) => Option::Some(m.dup()),
            Option::None => Option::None,
        };
        let prev_seq: u64 = match &prev {
            Option::Some(m) => match m {
                Marked::Normal { internal_seq, .. } => *internal_seq,
                Marked::TombStone { .. } => 0,
            },
            Option::None => 0,
        };
        proof {
            assert(prev_seq == marked_opt_order_seq(prev_g));
        }
        if !upsert.seq.matches(prev_seq) {
            let a = opt_marked_to_seqv(&prev);
            let b = opt_marked_to_seqv(&prev);
            return (a, b);
        }
        let first: Marked = match &upsert.value {
            Operation::Update(v) => {
                let (_p, m) = self.levels.set_kv(
                    key_dup(&upsert.key),
                    Option::Some((key_dup(v), upsert.value_meta)),
                );
                m
            },
            Operation::Delete => {
                let (_p, m) = self.levels.set_kv(key_dup(&upsert.key), Option::None);
                m
            },
            Operation::AsIs => {
                match &prev {
                    Option::Some(pm) => match pm {
                        Marked::Normal { value, .. } => {
                            let (_p, m) = self.levels.set_kv(
                                key_dup(&upsert.key),
                                Option::Some((key_dup(value), upsert.value_meta)),
                            );
                            m
                        },
                        Marked::TombStone { .. } => {
                            let a = opt_marked_to_seqv(&prev);
                            let b = opt_marked_to_seqv(&prev);
                            return (a, b);
                        },
                    },
                    Option::None => {
                        let a = opt_marked_to_seqv(&prev);
                        let b = opt_marked_to_seqv(&prev);
                        return (a, b);
                    },
                }
            },
        };
        let ghost l1 = self@.levels;
        proof {
            assert(upsert_applies(upsert@, prev_g));
            assert(first@ == upsert_first_written(upsert@, prev_g, (seq0 + 1) as u64));
        }
        let expired: bool = match first.expire_at_ms() {
            Option::Some(t) => t < self.expire_cursor.time_ms,
            Option::None => false,
        };
        let result: Marked;
        if expired {
            let (_p, m2) = self.levels.set_kv(key_dup(&upsert.key), Option::None);
            result = m2;
        } else {
            result = first.dup();
        }
        let ghost l2 = self@.levels;
        let ghost res_g = result@;
        let ghost new_seq = self.spec_seq();
        proof {
            assert(expired == marked_expired_before(first@, cms));
            assert(res_g == upsert_result_marked(upsert@, prev_g, seq0, cms));
            assert(new_seq == seq0 + upsert_seq_delta(upsert@, prev_g, seq0, cms));
            assert(marked_seq(res_g) == new_seq);
            assert(merged_kv_at(l2, upsert@.key) == Option::Some(res_g));
            assert forall|k2: Seq<u8>| k2 != upsert@.key implies merged_kv_at(l2, k2)
                == merged_kv_at(l0, k2) by {}
            assert(forall|e: ExpireKey| merged_exp_at(l2, e) == merged_exp_at(l0, e));
            lemma_seqs_bounded_mono(l0, seq0, new_seq);
            lemma_seqs_bounded_insert_kv(l0, l1, upsert@.key, first@, new_seq);
            if expired {
                lemma_seqs_bounded_insert_kv(l1, l2, upsert@.key, res_g, new_seq);
            }
            assert(seqs_bounded(l2, new_seq));
            if prev_g is Some {
                lemma_merged_kv_bound(l0, seq0, upsert@.key);
            }
        }
        let ghost pe = opt_ekey_of(prev_g);
        let ghost re = ekey_of(res_g);
        match &prev {
            Option::Some(pm) => {
                match pm.expire_at_ms() {
                    Option::Some(tp) => {
                        let sp = pm.internal_seq();
                        self.levels.remove_expire(ExpireKey::new(tp, sp));
                    },
                    Option::None => {},
                }
            },
            Option::None => {},
        }
        let ghost l3 = self@.levels;
        proof {
            assert(pe is Some ==> (merged_exp_at(l3, pe.unwrap()) matches Some(m) && m
                is TombStone));
            assert forall|e: ExpireKey| pe != Option::Some(e) implies merged_exp_at(l3, e)
                == merged_exp_at(l2, e) by {}
            assert(forall|k2: Seq<u8>| merged_kv_at(l3, k2) == merged_kv_at(l2, k2));
            if pe is Some {
                lemma_seqs_bounded_insert_exp(
                    l2,
                    l3,
                    pe.unwrap(),
                    (MarkedV::TombStone { internal_seq: new_seq }),
                    new_seq,
                );
            }
            assert(seqs_bounded(l3, new_seq));
        }
        match result.expire_at_ms() {
            Option::Some(t) => {
                let s_res = result.internal_seq();
                self.levels.insert_expire(ExpireKey::new(t, s_res), key_dup(&upsert.key));
            },
            Option::None => {},
        }
        let ghost l4 = self@.levels;
        proof {
            assert(re is Some ==> merged_exp_at(l4, re.unwrap()) == Option::Some(
                (MarkedV::Normal {
                    internal_seq: re.unwrap().seq,
                    value: upsert@.key,
                    meta: Option::None,
                }),
            ));
            assert forall|e: ExpireKey| re != Option::Some(e) implies merged_exp_at(l4, e)
                == merged_exp_at(l3, e) by {}
            assert(forall|k2: Seq<u8>| merged_kv_at(l4, k2) == merged_kv_at(l3, k2));
            if re is Some {
                lemma_seqs_bounded_insert_exp(
                    l3,
                    l4,
                    re.unwrap(),
                    (MarkedV::Normal {
                        internal_seq: re.unwrap().seq,
                        value: upsert@.key,
                        meta: Option::None,
                    }),
                    new_seq,
                );
            }
            assert(seqs_bounded(l4, new_seq));

            // The removed and inserted expiration keys differ: the previous
            // record's sequence number is below every fresh one.
            if pe is Some && re is Some {
                assert(marked_seq(prev_g.unwrap()) <= seq0);
                assert(pe.unwrap().seq <= seq0);
                assert(re.unwrap().seq == marked_seq(res_g));
                assert(pe != re);
            }
            assert(merged_kv_at(l4, upsert@.key) == Option::Some(res_g));
            assert forall|k2: Seq<u8>| k2 != upsert@.key implies merged_kv_at(l4, k2)
                == merged_kv_at(l0, k2) by {}
            assert forall|e: ExpireKey| pe != Option::Some(e) && re != Option::Some(e) implies
                merged_exp_at(l4, e) == merged_exp_at(l0, e) by {}
            assert(pe is Some && re != pe ==> (merged_exp_at(l4, pe.unwrap()) matches Some(
                m,
            ) && m is TombStone));

            // Re-establish the coupling of the two indexes.
            assert forall|k: Seq<u8>|
                match #[trigger] merged_kv_at(l4, k) {
                    Option::Some(MarkedV::Normal { internal_seq, value, meta }) => match meta_expire_at_ms(
                        meta,
                    ) {
                        Option::Some(t) => merged_exp_at(
                            l4,
                            (ExpireKey { time_ms: t, seq: internal_seq }),
                        ) == Option::Some(
                            (MarkedV::Normal { internal_seq, value: k, meta: Option::None }),
                        ),
                        Option::None => true,
                    },
                    _ => true,
                } by {
                if k == upsert@.key {
                    assert(merged_kv_at(l4, k) == Option::Some(res_g));
                } else {
                    assert(merged_kv_at(l4, k) == merged_kv_at(l0, k));
                    match merged_kv_at(l0, k) {
                        Option::Some(MarkedV::Normal { internal_seq: s2, value: v2, meta: m2 }) => {
                            match meta_expire_at_ms(m2) {
                                Option::Some(t2) => {
                                    let e2 = ExpireKey { time_ms: t2, seq: s2 };
                                    assert(merged_exp_at(l0, e2) == Option::Some(
                                        (MarkedV::Normal {
                                            internal_seq: s2,
                                            value: k,
                                            meta: Option::None,
                                        }),
                                    ));
                                    lemma_merged_kv_bound(l0, seq0, k);
                                    assert(s2 <= seq0);
                                    assert(re != Option::Some(e2));
                                    if pe == Option::Some(e2) {
                                        assert(merged_kv_at(l0, upsert@.key) == prev_g);
                                        assert(merged_exp_at(l0, e2) == Option::Some(
                                            (MarkedV::Normal {
                                                internal_seq: e2.seq,
                                                value: upsert@.key,
                                                meta: Option::None,
                                            }),
                                        ));
                                        assert(k == upsert@.key);
                                    }
                                    assert(merged_exp_at(l4, e2) == merged_exp_at(l0, e2));
                                },
                                Option::None => {},
                            }
                        },
                        _ => {},
                    }
                }
            }
            assert forall|e: ExpireKey|
                match #[trigger] merged_exp_at(l4, e) {
                    Option::Some(MarkedV::Normal { internal_seq: s, value: k, meta: me }) => {
                        &&& s == e.seq
                        &&& me is None
                        &&& match merged_kv_at(l4, k) {
                            Option::Some(MarkedV::Normal { internal_seq: s2, value: _, meta }) => s2
                                == e.seq && meta_expire_at_ms(meta) == Option::Some(e.time_ms),
                            _ => false,
                        }
                    },
                    _ => true,
                } by {
                if re == Option::Some(e) {
                    assert(merged_kv_at(l4, upsert@.key) == Option::Some(res_g));
                } else if pe == Option::Some(e) {
                    assert(merged_exp_at(l4, e) matches Some(m) && m is TombStone);
                } else {
                    assert(merged_exp_at(l4, e) == merged_exp_at(l0, e));
                    match merged_exp_at(l0, e) {
                        Option::Some(MarkedV::Normal { internal_seq: s, value: k, meta: me }) => {
                            assert(match merged_kv_at(l0, k) {
                                Option::Some(MarkedV::Normal {
                                    internal_seq: s2,
                                    value: _,
                                    meta,
                                }) => s2 == e.seq && meta_expire_at_ms(meta) == Option::Some(
                                    e.time_ms,
                                ),
                                _ => false,
                            });
                            if k == upsert@.key {
                                assert(prev_g == merged_kv_at(l0, k));
                                assert(pe == Option::Some(e));
                            }
                            assert(merged_kv_at(l4, k) == merged_kv_at(l0, k));
                        },
                        _ => {},
                    }
                }
            }
            assert(sm_levels_inv(l4));
            crate::kv_map::lemma_kv_insert_len(l0.last().kv, upsert@.key, first@);
            lemma_totals_last(l0, l1);
            lemma_totals_last(l1, l2);
            if expired {
                crate::kv_map::lemma_kv_insert_len(l1.last().kv, upsert@.key, res_g);
            }
            lemma_totals_last(l2, l3);
            if pe is Some {
                crate::expire_map::lemma_exp_insert_len(
                    l2.last().expire,
                    pe.unwrap(),
                    (MarkedV::TombStone { internal_seq: new_seq }),
                );
            }
            lemma_totals_last(l3, l4);
            if re is Some {
                crate::expire_map::lemma_exp_insert_len(
                    l3.last().expire,
                    re.unwrap(),
                    (MarkedV::Normal {
                        internal_seq: re.unwrap().seq,
                        value: upsert@.key,
                        meta: Option::None,
                    }),
                );
            }
            assert(total_kv(l4) <= total_kv(l0) + 2);
            assert(total_exp(l4) <= total_exp(l0) + 2);
        }
        let a = opt_marked_to_seqv(&prev);
        let b = result.to_seqv();
        (a, b)
    }


    /// Set the last applied log id.
    pub fn set_last_applied(&mut self, v: Option<LogId>)
        requires
            old(self).inv(),
        ensures
            final(self).inv(),
            final(self)@.expire_cursor == old(self)@.expire_cursor,
            final(self).subscriber_ref() == old(self).subscriber_ref(),
            final(self)@.levels.len() == old(self)@.levels.len(),
            final(self)@.levels.last().sys.last_applied == v,
            final(self)@.levels.last().sys.last_membership == old(
                self,
            )@.levels.last().sys.last_membership,
            final(self)@.levels.last().sys.nodes == old(self)@.levels.last().sys.nodes,
            final(self).spec_seq() == old(self).spec_seq(),
            forall|k2: Seq<u8>| #[trigger] merged_kv_at(final(self)@.levels, k2) == merged_kv_at(
                old(self)@.levels,
                k2,
            ),
            forall|e: ExpireKey| #[trigger] merged_exp_at(final(self)@.levels, e) == merged_exp_at(
                old(self)@.levels,
                e,
            ),
            total_kv(final(self)@.levels) == total_kv(old(self)@.levels),
            total_exp(final(self)@.levels) == total_exp(old(self)@.levels),
    {
        self.levels.set_last_applied(v);
        proof {
            lemma_sys_block_frame(old(self)@.levels, self@.levels, self@.levels.last().sys.seq);
        }
    }

    /// Set the last membership.
    pub fn set_last_membership(&mut self, m: StoredMembership)
        requires
            old(self).inv(),
        ensures
            final(self).inv(),
            final(self)@.expire_cursor == old(self)@.expire_cursor,
            final(self).subscriber_ref() == old(self).subscriber_ref(),
            final(self)@.levels.len() == old(self)@.levels.len(),
            final(self)@.levels.last().sys.last_applied == old(
                self,
            )@.levels.last().sys.last_applied,
            final(self)@.levels.last().sys.last_membership == m@,
            final(self)@.levels.last().sys.nodes == old(self)@.levels.last().sys.nodes,
            final(self).spec_seq() == old(self).spec_seq(),
            forall|k2: Seq<u8>| #[trigger] merged_kv_at(final(self)@.levels, k2) == merged_kv_at(
                old(self)@.levels,
                k2,
            ),
            forall|e: ExpireKey| #[trigger] merged_exp_at(final(self)@.levels, e) == merged_exp_at(
                old(self)@.levels,
                e,
            ),
            total_kv(final(self)@.levels) == total_kv(old(self)@.levels),
            total_exp(final(self)@.levels) == total_exp(old(self)@.levels),
    {
        self.levels.set_last_membership(m);
        proof {
            lemma_sys_block_frame(old(self)@.levels, self@.levels, self@.levels.last().sys.seq);
        }
    }

    /// Read a node from the node table.
    pub fn get_node(&self, node_id: u64) -> (r: Option<&Node>)
        ensures
            match crate::node_map::node_lookup(self@.levels.last().sys.nodes, node_id) {
                Option::None => r is None,
                Option::Some(v) => r matches Some(n) && n@ == v,
            },
    {
        self.levels.get_node(node_id)
    }

    /// Insert or replace a node in the node table.
    pub fn insert_node(&mut self, node_id: u64, node: Node)
        requires
            old(self).inv(),
        ensures
            final(self).inv(),
            final(self)@.expire_cursor == old(self)@.expire_cursor,
            final(self).subscriber_ref() == old(self).subscriber_ref(),
            final(self)@.levels.len() == old(self)@.levels.len(),
            final(self)@.levels.last().sys.last_applied == old(
                self,
            )@.levels.last().sys.last_applied,
            final(self)@.levels.last().sys.last_membership == old(
                self,
            )@.levels.last().sys.last_membership,
            final(self)@.levels.last().sys.nodes == crate::node_map::node_insert(
                old(self)@.levels.last().sys.nodes,
                node_id,
                node@,
            ),
            final(self).spec_seq() == old(self).spec_seq(),
            forall|k2: Seq<u8>| #[trigger] merged_kv_at(final(self)@.levels, k2) == merged_kv_at(
                old(self)@.levels,
                k2,
            ),
            forall|e: ExpireKey| #[trigger] merged_exp_at(final(self)@.levels, e) == merged_exp_at(
                old(self)@.levels,
                e,
            ),
            total_kv(final(self)@.levels) == total_kv(old(self)@.levels),
            total_exp(final(self)@.levels) == total_exp(old(self)@.levels),
    {
        self.levels.insert_node(node_id, node);
        proof {
            lemma_sys_block_frame(old(self)@.levels, self@.levels, self@.levels.last().sys.seq);
        }
    }

    /// Remove a node from the node table, returning it.
    pub fn remove_node(&mut self, node_id: u64) -> (r: Option<Node>)
        requires
            old(self).inv(),
        ensures
            final(self).inv(),
            final(self)@.expire_cursor == old(self)@.expire_cursor,
            final(self).subscriber_ref() == old(self).subscriber_ref(),
            final(self)@.levels.len() == old(self)@.levels.len(),
            final(self)@.levels.last().sys.last_applied == old(
                self,
            )@.levels.last().sys.last_applied,
            final(self)@.levels.last().sys.last_membership == old(
                self,
            )@.levels.last().sys.last_membership,
            final(self)@.levels.last().sys.nodes == crate::node_map::node_remove(
                old(self)@.levels.last().sys.nodes,
                node_id,
            ),
            match crate::node_map::node_lookup(old(self)@.levels.last().sys.nodes, node_id) {
                Option::None => r is None,
                Option::Some(v) => r matches Some(n) && n@ == v,
            },
            final(self).spec_seq() == old(self).spec_seq(),
            forall|k2: Seq<u8>| #[trigger] merged_kv_at(final(self)@.levels, k2) == merged_kv_at(
                old(self)@.levels,
                k2,
            ),
            forall|e: ExpireKey| #[trigger] merged_exp_at(final(self)@.levels, e) == merged_exp_at(
                old(self)@.levels,
                e,
            ),
            total_kv(final(self)@.levels) == total_kv(old(self)@.levels),
            total_exp(final(self)@.levels) == total_exp(old(self)@.levels),
    {
        let r = self.levels.remove_node(node_id);
        proof {
            lemma_sys_block_frame(old(self)@.levels, self@.levels, self@.levels.last().sys.seq);
        }
        r
    }

    /// The merged expiration index of the whole store, sorted by
    /// `(time, seq)`.
    pub fn merged_expire_map(&self) -> (r: crate::expire_map::ExpireMap)
        requires
            self.inv(),
        ensures
            r.wf(),
            forall|k: ExpireKey| #[trigger] exp_lookup(r@, k) == merged_exp_at(self@.levels, k),
            r@.len() <= total_exp(self@.levels),
    {
        self.levels.merged_expire_map()
    }

    /// List kv entries by prefix, in ascending key order.  Tombstones are
    /// filtered; expiration is not checked here.
    pub fn prefix_list_kv(&self, prefix: &Vec<u8>) -> (r: Vec<(Vec<u8>, SeqV)>)
        requires
            self.inv(),
        ensures
            r@.len() <= total_kv(self@.levels),
            forall|i: int|
                0 <= i < r@.len() ==> crate::bytes_order::is_prefix_of(
                    prefix@,
                    (#[trigger] r@[i]).0@,
                ) && kv_state(self@.levels, r@[i].0@) == Option::Some(r@[i].1@),
            forall|i: int, j: int|
                0 <= i < j < r@.len() ==> crate::bytes_order::lex_lt(
                    (#[trigger] r@[i]).0@,
                    (#[trigger] r@[j]).0@,
                ),
            forall|k: Seq<u8>|
                crate::bytes_order::is_prefix_of(prefix@, k) && (#[trigger] kv_state(
                    self@.levels,
                    k,
                )) is Some ==> exists|i: int| 0 <= i < r@.len() && (#[trigger] r@[i]).0@ == k,
    {
        let m = self.levels.merged_kv_map();
        let n = m.len();
        let mut r: Vec<(Vec<u8>, SeqV)> = Vec::new();
        let mut j: usize = 0;
        while j < n
            invariant
                0 <= j <= n == m@.len(),
                m.wf(),
                forall|k2: Seq<u8>| #[trigger] kv_lookup(m@, k2) == merged_kv_at(self@.levels, k2),
                r@.len() <= j,
                forall|i: int|
                    0 <= i < r@.len() ==> crate::bytes_order::is_prefix_of(
                        prefix@,
                        (#[trigger] r@[i]).0@,
                    ) && kv_state(self@.levels, r@[i].0@) == Option::Some(r@[i].1@),
                forall|i: int|
                    0 <= i < r@.len() ==> exists|l: int|
                        0 <= l < j && (#[trigger] r@[i]).0@ == m@[l].0,
                forall|l: int|
                    0 <= l < j && crate::bytes_order::is_prefix_of(
                        prefix@,
                        (#[trigger] m@[l]).0,
                    ) && m@[l].1 is Normal ==> exists|i: int|
                        0 <= i < r@.len() && (#[trigger] r@[i]).0@ == m@[l].0,
                forall|i: int, l: int|
                    0 <= i < r@.len() && 0 <= l < j && (#[trigger] r@[i]).0@ == (
                    #[trigger] m@[l].0) ==> forall|i2: int|
                        i < i2 < r@.len() ==> crate::bytes_order::lex_lt(
                            r@[i].0@,
                            (#[trigger] r@[i2]).0@,
                        ),
                forall|i: int, i2: int|
                    0 <= i < i2 < r@.len() ==> crate::bytes_order::lex_lt(
                        (#[trigger] r@[i]).0@,
                        (#[trigger] r@[i2]).0@,
                    ),
            decreases n - j,
        {
            let ghost r_pre = r@;
            let entry = m.entry_at(j);
            let keep = crate::bytes_order::key_has_prefix(&entry.0, prefix);
            if keep {
                match &entry.1 {
                    Marked::Normal { internal_seq, value, meta } => {
                        let kd = key_dup(&entry.0);
                        let sv = SeqV {
                            seq: *internal_seq,
                            meta: *meta,
                            data: key_dup(value),
                        };
                        proof {
                            crate::kv_map::lemma_kv_lookup_at_index(m@, j as int);
                            assert(kv_lookup(m@, m@[j as int].0) == Option::Some(m@[j as int].1));
                            assert(kv_state(self@.levels, kd@) == Option::Some(sv@));
                            assert forall|i: int| 0 <= i < r@.len() implies crate::bytes_order::lex_lt(
                                (#[trigger] r@[i]).0@,
                                kd@,
                            ) by {
                                let l = choose|l: int| 0 <= l < j && (#[trigger] r@[i]).0@ == m@[l].0;
                                assert(crate::bytes_order::lex_lt(m@[l].0, m@[j as int].0));
                            }
                        }
                        r.push((kd, sv));
                    },
                    Marked::TombStone { .. } => {},
                }
            }
            proof {
                assert forall|l: int|
                    0 <= l < j + 1 && crate::bytes_order::is_prefix_of(
                        prefix@,
                        (#[trigger] m@[l]).0,
                    ) && m@[l].1 is Normal implies exists|i: int|
                    0 <= i < r@.len() && (#[trigger] r@[i]).0@ == m@[l].0 by {
                    if l < j {
                        let i = choose|i: int|
                            0 <= i < r_pre.len() && (#[trigger] r_pre[i]).0@ == m@[l].0;
                        assert(r@[i].0@ == m@[l].0);
                    } else {
                        assert(r@[r@.len() - 1].0@ == m@[l].0);
                    }
                }
            }
            j = j + 1;
        }
        proof {
            assert forall|k: Seq<u8>|
                crate::bytes_order::is_prefix_of(prefix@, k) && (#[trigger] kv_state(
                    self@.levels,
                    k,
                )) is Some implies exists|i: int| 0 <= i < r@.len() && (#[trigger] r@[i]).0@
                == k by {
                assert(kv_lookup(m@, k) == merged_kv_at(self@.levels, k));
                assert(kv_lookup(m@, k) is Some);
                crate::kv_map::lemma_kv_lookup_some_index(m@, k);
                let l = choose|l: int|
                    0 <= l < m@.len() && (#[trigger] m@[l]).0 == k && m@[l].1 == kv_lookup(
                        m@,
                        k,
                    ).unwrap();
                assert(m@[l].1 is Normal);
                assert(crate::bytes_order::is_prefix_of(prefix@, m@[l].0));
            }
        }
        r
    }

    /// Replace all of the state machine data with the given store.  The new
    /// store must not be older than the current one; the expiration cursor
    /// is reset so the next apply re-sweeps.
    pub fn replace(&mut self, level: LeveledMap)
        requires
            old(self).inv(),
            sm_levels_inv(level@),
            opt_log_id_le(
                old(self)@.levels.last().sys.last_applied,
                level@.last().sys.last_applied,
            ),
        ensures
            final(self).inv(),
            final(self)@.levels == level@,
            final(self)@.expire_cursor == (ExpireKey { time_ms: 0, seq: 0 }),
            final(self).subscriber_ref() == old(self).subscriber_ref(),
    {
        self.levels = level;
        self.expire_cursor = ExpireKey::new(0, 0);
    }


    /// Deliver queued change events to the subscriber, if one is installed,
    /// in program order: the subscriber's received list grows by exactly the
    /// given changes.
    pub fn deliver_changes(&mut self, changes: Vec<Change>)
        ensures
            final(self)@ == old(self)@,
            match old(self).subscriber_ref() {
                Option::Some(c) => final(self).subscriber_ref() matches Some(c2) && c2.received@
                    == c.received@ + changes@,
                Option::None => final(self).subscriber_ref() is None,
            },
    {
        let ghost all = changes@;
        let mut msgs = changes;
        match &mut self.subscriber {
            Option::Some(c) => {
                let ghost r0 = c.received@;
                let ghost mut k: int = 0;
                proof {
                    assert(msgs@ =~= all.skip(0));
                    assert(c.received@ =~= r0 + all.take(0));
                }
                while msgs.len() > 0
                    invariant
                        0 <= k <= all.len(),
                        msgs@ == all.skip(k),
                        c.received@ == r0 + all.take(k),
                    decreases msgs@.len(),
                {
                    let ch = msgs.remove(0);
                    proof {
                        assert(ch == all[k]);
                    }
                    c.received.push(ch);
                    proof {
                        k = k + 1;
                        assert(msgs@ =~= all.skip(k));
                        assert(c.received@ =~= r0 + all.take(k));
                    }
                }
                proof {
                    assert(all.take(k) =~= all);
                }
            },
            Option::None => {},
        }
    }


    /// A read-only KV query handle onto this state machine.
    pub fn kv_api(&self) -> (r: SMV003KVApi)
        ensures
            r.sm_view() == self@,
            self.inv() ==> r.sm_view_inv(),
    {
        SMV003KVApi { sm: self }
    }

    /// A fresh importer.
    pub fn new_importer() -> (r: Importer)
        ensures
            r@ == importer_init(),
            r.wf(),
    {
        Importer::new()
    }

    /// Import a whole entry stream into a fresh level.
    pub fn import(data: Vec<RaftStoreEntry>) -> (r: Result<LevelData, ImportError>)
        ensures
            match import_fold(importer_init(), data@.map_values(|e: RaftStoreEntry| e@)) {
                Option::None => r is Err,
                Option::Some(st) => if st.greatest_seq <= st.sys_seq {
                    r matches Ok(d) && d@ == level_of_import(st) && d.wf()
                } else {
                    r is Err
                },
            },
    {
        let ghost all = data@.map_values(|e: RaftStoreEntry| e@);
        let mut rest = data;
        let mut imp = Importer::new();
        #[verifier::loop_isolation(false)]
        while rest.len() > 0
            invariant
                imp.wf(),
                import_fold(importer_init(), all) == import_fold(
                    imp@,
                    rest@.map_values(|e: RaftStoreEntry| e@),
                ),
            decreases rest@.len(),
        {
            let ghost rest_v = rest@.map_values(|e: RaftStoreEntry| e@);
            let e = rest.remove(0);
            proof {
                assert(rest_v[0] == e@);
                assert(rest_v.skip(1) =~= rest@.map_values(|e2: RaftStoreEntry| e2@));
            }
            match imp.import(e) {
                Result::Ok(()) => {},
                Result::Err(err) => {
                    proof {
                        assert(import_fold(importer_init(), all) is None);
                    }
                    return Result::Err(err);
                },
            }
        }
        proof {
            assert(rest@.map_values(|e: RaftStoreEntry| e@).len() == 0);
            assert(import_fold(imp@, rest@.map_values(|e: RaftStoreEntry| e@)) == Option::Some(
                imp@,
            ));
        }
        let ghost impv = imp@;
        let r = imp.commit();
        proof {
            assert(import_fold(importer_init(), all) == Option::Some(impv));
            assert(import_fold(importer_init(), all).unwrap() == impv);
            assert(impv.greatest_seq <= impv.sys_seq ==> r is Ok);
            if r is Ok {
                assert(r matches Ok(d) ==> d@ =~= level_of_import(
                    import_fold(importer_init(), all).unwrap(),
                ));
            }
        }
        r
    }

    /// Install a snapshot stream, replacing the whole store with the
    /// imported level.  A snapshot that is not newer than the current state
    /// is skipped (`Ok(false)`); corrupt streams are rejected and leave the
    /// state unchanged.
    pub fn install_snapshot(&mut self, data: Vec<RaftStoreEntry>) -> (r: Result<
        bool,
        ImportError,
    >)
        requires
            old(self).inv(),
        ensures
            final(self).inv(),
            r is Err ==> final(self)@ == old(self)@,
            r matches Ok(false) ==> final(self)@ == old(self)@,
            match import_fold(importer_init(), data@.map_values(|e: RaftStoreEntry| e@)) {
                Option::None => r is Err,
                Option::Some(st) => {
                    if st.greatest_seq > st.sys_seq {
                        r is Err
                    } else if !sm_levels_inv(seq![level_of_import(st)]) {
                        r is Err
                    } else if old(self)@.levels.last().sys.last_applied is Some && opt_log_id_le(
                        st.last_applied,
                        old(self)@.levels.last().sys.last_applied,
                    ) {
                        r == Result::<bool, ImportError>::Ok(false)
                    } else {
                        &&& r == Result::<bool, ImportError>::Ok(true)
                        &&& final(self)@.levels =~= seq![level_of_import(st)]
                        &&& final(self)@.expire_cursor == (ExpireKey { time_ms: 0, seq: 0 })
                    }
                },
            },
    {
        let d = match Self::import(data) {
            Result::Ok(d) => d,
            Result::Err(e) => {
                return Result::Err(e);
            },
        };
        if !check_level_inv(&d) {
            return Result::Err(ImportError::InvariantViolated);
        }
        let new_last = *d.last_applied_ref();
        let cur = *self.last_applied_ref();
        let skip_install = match cur {
            Option::Some(_) => crate::types::opt_log_id_is_le(&new_last, &cur),
            Option::None => false,
        };
        if skip_install {
            return Result::Ok(false);
        }
        let ghost dv = d@;
        let lm = LeveledMap::new(d);
        proof {
            assert(lm@ =~= seq![dv]);
            assert(sm_levels_inv(lm@)) by {
                assert(lm@ == seq![dv]);
            }
            assert(opt_log_id_le(self@.levels.last().sys.last_applied, lm@.last().sys.last_applied));
        }
        self.replace(lm);
        Result::Ok(true)
    }

    /// Freeze the writable level and hand out a snapshot view of the whole
    /// state.  The merged view is unchanged; writes continue on a fresh
    /// empty writable level.
    pub fn full_snapshot_view(&mut self) -> (r: SnapshotViewV003)
        requires
            old(self).inv(),
        ensures
            final(self).inv(),
            r.spec_compacted() == old(self)@.levels,
            r.spec_original() == old(self)@.levels,
            r.wf(),
            final(self)@.expire_cursor == old(self)@.expire_cursor,
            final(self).subscriber_ref() == old(self).subscriber_ref(),
            final(self)@.levels.len() == old(self)@.levels.len() + 1,
            final(self)@.levels.last().sys == old(self)@.levels.last().sys,
            forall|k2: Seq<u8>| #[trigger] merged_kv_at(final(self)@.levels, k2) == merged_kv_at(
                old(self)@.levels,
                k2,
            ),
            forall|e: ExpireKey| #[trigger] merged_exp_at(final(self)@.levels, e) == merged_exp_at(
                old(self)@.levels,
                e,
            ),
    {
        let frozen = self.levels.freeze_writable();
        proof {
            let a = old(self)@.levels;
            let b = self@.levels;
            assert(seqs_bounded(b, b.last().sys.seq)) by {
                assert forall|i: int, j: int|
                    0 <= i < b.len() && 0 <= j < b[i].kv.len() implies marked_seq(
                    (#[trigger] b[i].kv[j]).1,
                ) <= b.last().sys.seq && (b[i].kv[j].1 is Normal ==> marked_seq(b[i].kv[j].1)
                    >= 1) by {
                    assert(i < a.len());
                    assert(b[i] == b.drop_last()[i]);
                    assert(marked_seq(a[i].kv[j].1) <= a.last().sys.seq);
                }
                assert forall|i: int, j: int|
                    0 <= i < b.len() && 0 <= j < b[i].expire.len() implies marked_seq(
                    (#[trigger] b[i].expire[j]).1,
                ) <= b.last().sys.seq && b[i].expire[j].0.seq <= b.last().sys.seq by {
                    assert(i < a.len());
                    assert(b[i] == b.drop_last()[i]);
                    assert(marked_seq(a[i].expire[j].1) <= a.last().sys.seq);
                }
            }
            lemma_pairing_preserved(a, b);
        }
        SnapshotViewV003::new(frozen)
    }

    /// Keep the writable level and replace every frozen level below it with
    /// the compacted stack of the snapshot view.  The caller shows that the
    /// compacted stack presents the same live view as the frozen levels it
    /// replaces, that its record sequence numbers are within the current
    /// counter, and that the base frozen level is unchanged.
    pub fn replace_base(&mut self, snapshot: &SnapshotViewV003)
        requires
            old(self).inv(),
            snapshot.wf(),
            old(self)@.levels.len() >= 2,
            snapshot.spec_original().len() >= 1,
            old(self)@.levels.drop_last().last() == snapshot.spec_original().last(),
            seqs_bounded(snapshot.spec_compacted(), old(self).spec_seq()),
            forall|k: Seq<u8>| #[trigger]
                live_of(merged_kv_at(snapshot.spec_compacted(), k)) == live_of(
                    merged_kv_at(old(self)@.levels.drop_last(), k),
                ),
            forall|e: ExpireKey| #[trigger]
                live_of(merged_exp_at(snapshot.spec_compacted(), e)) == live_of(
                    merged_exp_at(old(self)@.levels.drop_last(), e),
                ),
        ensures
            final(self).inv(),
            final(self)@.levels == snapshot.spec_compacted().push(old(self)@.levels.last()),
            final(self)@.expire_cursor == old(self)@.expire_cursor,
            final(self).subscriber_ref() == old(self).subscriber_ref(),
            final(self)@.levels.last().sys == old(self)@.levels.last().sys,
            forall|k: Seq<u8>| #[trigger]
                kv_state(final(self)@.levels, k) == kv_state(old(self)@.levels, k),
    {
        let compacted = snapshot.compacted();
        self.levels.replace_frozen_levels(compacted);
        proof {
            let a = old(self)@.levels;
            let w = a.last();
            let f = a.drop_last();
            let c = snapshot.spec_compacted();
            let b = self@.levels;
            assert(b == c.push(w));
            assert(b.last() == w);
            assert(b.drop_last() =~= c);
            // per-key relation between the old and new merged views
            assert forall|k: Seq<u8>| #[trigger]
                merged_kv_at(b, k) == merged_kv_at(a, k) || (live_of(merged_kv_at(b, k))
                    == live_of(merged_kv_at(a, k)) && !(merged_kv_at(b, k) matches Some(m) && m
                    is Normal) && !(merged_kv_at(a, k) matches Some(m) && m is Normal)) by {
                if kv_lookup(w.kv, k) is Some {
                    assert(merged_kv_at(b, k) == merged_kv_at(a, k));
                } else {
                    assert(merged_kv_at(b, k) == merged_kv_at(c, k));
                    assert(merged_kv_at(a, k) == merged_kv_at(f, k));
                    assert(live_of(merged_kv_at(c, k)) == live_of(merged_kv_at(f, k)));
                    match merged_kv_at(c, k) {
                        Option::Some(MarkedV::Normal { internal_seq, value, meta }) => {
                            assert(live_of(merged_kv_at(f, k)) == Option::Some(
                                (MarkedV::Normal { internal_seq, value, meta }),
                            ));
                            assert(merged_kv_at(f, k) == Option::Some(
                                (MarkedV::Normal { internal_seq, value, meta }),
                            ));
                        },
                        _ => {
                            match merged_kv_at(f, k) {
                                Option::Some(
                                    MarkedV::Normal { internal_seq, value, meta },
                                ) => {
                                    assert(live_of(merged_kv_at(c, k)) == Option::Some(
                                        (MarkedV::Normal { internal_seq, value, meta }),
                                    ));
                                },
                                _ => {},
                            }
                        },
                    }
                }
            }
            assert forall|e: ExpireKey| #[trigger]
                merged_exp_at(b, e) == merged_exp_at(a, e) || (live_of(merged_exp_at(b, e))
                    == live_of(merged_exp_at(a, e)) && !(merged_exp_at(b, e) matches Some(m) && m
                    is Normal) && !(merged_exp_at(a, e) matches Some(m) && m is Normal)) by {
                if exp_lookup(w.expire, e) is Some {
                    assert(merged_exp_at(b, e) == merged_exp_at(a, e));
                } else {
                    assert(merged_exp_at(b, e) == merged_exp_at(c, e));
                    assert(merged_exp_at(a, e) == merged_exp_at(f, e));
                    assert(live_of(merged_exp_at(c, e)) == live_of(merged_exp_at(f, e)));
                    match merged_exp_at(c, e) {
                        Option::Some(MarkedV::Normal { internal_seq, value, meta }) => {
                            assert(merged_exp_at(f, e) == Option::Some(
                                (MarkedV::Normal { internal_seq, value, meta }),
                            ));
                        },
                        _ => {
                            match merged_exp_at(f, e) {
                                Option::Some(
                                    MarkedV::Normal { internal_seq, value, meta },
                                ) => {
                                    assert(live_of(merged_exp_at(c, e)) == Option::Some(
                                        (MarkedV::Normal { internal_seq, value, meta }),
                                    ));
                                },
                                _ => {},
                            }
                        },
                    }
                }
            }
            // structural well-formedness
            assert forall|i: int| 0 <= i < b.len() implies {
                &&& crate::kv_map::kv_sorted((#[trigger] b[i]).kv)
                &&& crate::expire_map::exp_sorted(b[i].expire)
                &&& crate::node_map::node_sorted(b[i].sys.nodes)
            } by {
                if i < b.len() - 1 {
                    assert(b[i] == c[i]);
                    assert(crate::kv_map::kv_sorted((#[trigger] c[i]).kv)
                        && crate::expire_map::exp_sorted(c[i].expire)
                        && crate::node_map::node_sorted(c[i].sys.nodes));
                } else {
                    assert(b[i] == w);
                    assert(a[a.len() - 1] == w);
                    assert(crate::kv_map::kv_sorted(a[a.len() - 1].kv));
                }
            }
            // bounds
            assert(seqs_bounded(b, b.last().sys.seq)) by {
                assert forall|i: int, j: int|
                    0 <= i < b.len() && 0 <= j < b[i].kv.len() implies marked_seq(
                    (#[trigger] b[i].kv[j]).1,
                ) <= b.last().sys.seq && (b[i].kv[j].1 is Normal ==> marked_seq(b[i].kv[j].1)
                    >= 1) by {
                    if i < b.len() - 1 {
                        assert(b[i] == c[i]);
                        assert(marked_seq(c[i].kv[j].1) <= old(self).spec_seq());
                        assert(c[i].kv[j].1 is Normal ==> marked_seq(c[i].kv[j].1) >= 1);
                    } else {
                        assert(b[i] == w);
                        assert(a[a.len() - 1] == w);
                        assert(marked_seq(a[a.len() - 1].kv[j].1) <= a.last().sys.seq);
                    }
                }
                assert forall|i: int, j: int|
                    0 <= i < b.len() && 0 <= j < b[i].expire.len() implies marked_seq(
                    (#[trigger] b[i].expire[j]).1,
                ) <= b.last().sys.seq && b[i].expire[j].0.seq <= b.last().sys.seq by {
                    if i < b.len() - 1 {
                        assert(b[i] == c[i]);
                        assert(marked_seq(c[i].expire[j].1) <= old(self).spec_seq());
                        assert(c[i].expire[j].0.seq <= old(self).spec_seq());
                    } else {
                        assert(b[i] == w);
                        assert(a[a.len() - 1] == w);
                        assert(marked_seq(a[a.len() - 1].expire[j].1) <= a.last().sys.seq);
                    }
                }
            }
            // the index coupling carries over: every live record is unchanged
            assert forall|k: Seq<u8>|
                match #[trigger] merged_kv_at(b, k) {
                    Option::Some(MarkedV::Normal { internal_seq, value, meta }) => match meta_expire_at_ms(
                        meta,
                    ) {
                        Option::Some(t) => merged_exp_at(
                            b,
                            (ExpireKey { time_ms: t, seq: internal_seq }),
                        ) == Option::Some(
                            (MarkedV::Normal { internal_seq, value: k, meta: Option::None }),
                        ),
                        Option::None => true,
                    },
                    _ => true,
                } by {
                match merged_kv_at(b, k) {
                    Option::Some(MarkedV::Normal { internal_seq, value, meta }) => {
                        assert(merged_kv_at(a, k) == merged_kv_at(b, k));
                        match meta_expire_at_ms(meta) {
                            Option::Some(t) => {
                                let e = ExpireKey { time_ms: t, seq: internal_seq };
                                assert(merged_exp_at(a, e) == Option::Some(
                                    (MarkedV::Normal {
                                        internal_seq,
                                        value: k,
                                        meta: Option::None,
                                    }),
                                ));
                                assert(merged_exp_at(b, e) == merged_exp_at(a, e) || live_of(
                                    merged_exp_at(b, e),
                                ) == live_of(merged_exp_at(a, e)));
                            },
                            Option::None => {},
                        }
                    },
                    _ => {},
                }
            }
            assert forall|e: ExpireKey|
                match #[trigger] merged_exp_at(b, e) {
                    Option::Some(MarkedV::Normal { internal_seq: s, value: k, meta: me }) => {
                        &&& s == e.seq
                        &&& me is None
                        &&& match merged_kv_at(b, k) {
                            Option::Some(
                                MarkedV::Normal { internal_seq: s2, value: _, meta },
                            ) => s2 == e.seq && meta_expire_at_ms(meta) == Option::Some(
                                e.time_ms,
                            ),
                            _ => false,
                        }
                    },
                    _ => true,
                } by {
                match merged_exp_at(b, e) {
                    Option::Some(MarkedV::Normal { internal_seq: s, value: k, meta: me }) => {
                        assert(merged_exp_at(a, e) == merged_exp_at(b, e));
                        assert(match merged_kv_at(a, k) {
                            Option::Some(
                                MarkedV::Normal { internal_seq: s2, value: _, meta },
                            ) => s2 == e.seq && meta_expire_at_ms(meta) == Option::Some(
                                e.time_ms,
                            ),
                            _ => false,
                        });
                        assert(merged_kv_at(b, k) == merged_kv_at(a, k) || live_of(
                            merged_kv_at(b, k),
                        ) == live_of(merged_kv_at(a, k)));
                    },
                    _ => {},
                }
            }
            // reads are unchanged
            assert forall|k: Seq<u8>| #[trigger]
                kv_state(b, k) == kv_state(a, k) by {
                assert(merged_kv_at(b, k) == merged_kv_at(a, k) || (live_of(merged_kv_at(b, k))
                    == live_of(merged_kv_at(a, k)) && !(merged_kv_at(b, k) matches Some(m) && m
                    is Normal) && !(merged_kv_at(a, k) matches Some(m) && m is Normal)));
            }
        }
    }

    /// Advance the expiration cursor to `(log_time_ms, 0)`; the cursor never
    /// moves backwards.
    pub fn update_expire_cursor(&mut self, log_time_ms: u64)
        ensures
            final(self)@.levels == old(self)@.levels,
            final(self).subscriber_ref() == old(self).subscriber_ref(),
            final(self)@.expire_cursor == if log_time_ms < old(self)@.expire_cursor.time_ms {
                old(self)@.expire_cursor
            } else {
                ExpireKey { time_ms: log_time_ms, seq: 0 }
            },
    {
        if log_time_ms < self.expire_cursor.time_ms {
            return ;
        }
        self.expire_cursor = ExpireKey::new(log_time_ms, 0);
    }
}

} // verus!
