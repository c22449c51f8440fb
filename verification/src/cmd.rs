//! Raft log entries and the commands they carry, together with the applied
//! results and change events the state machine produces.

use vstd::prelude::*;

use crate::txn::TxnReply;
use crate::txn::TxnReplyV;
use crate::txn::TxnRequest;
use crate::txn::TxnRequestV;
use crate::types::LogId;
use crate::types::Membership;
use crate::types::MembershipV;
use crate::types::Node;
use crate::types::NodeV;
use crate::types::SeqV;
use crate::types::SeqVV;
use crate::types::ValueMeta;

verus! {

/// The sequence-number precondition of an upsert.
#[derive(Clone, Copy, PartialEq, Eq, Structural, Debug)]
pub enum MatchSeq {
    Any,
    GE(u64),
    Exact(u64),
}

/// Whether a `MatchSeq` accepts a present sequence number (`0` stands for an
/// absent or deleted entry).  `Exact(0)` therefore matches only absent keys.
pub open spec fn match_seq_matches(m: MatchSeq, s: u64) -> bool {
    match m {
        MatchSeq::Any => true,
        MatchSeq::GE(n) => s >= n,
        MatchSeq::Exact(n) => s == n,
    }
}

impl MatchSeq {
    /// Evaluate the precondition against a present sequence number.
    pub fn matches(&self, s: u64) -> (r: bool)
        ensures
            r == match_seq_matches(*self, s),
    {
        match self {
            MatchSeq::Any => true,
            MatchSeq::GE(n) => s >= *n,
            MatchSeq::Exact(n) => s == *n,
        }
    }
}

/// What an upsert does to the value.
#[derive(Clone, PartialEq, Eq, Debug)]
pub enum Operation {
    Update(Vec<u8>),
    Delete,
    AsIs,
}

/// Mathematical image of an [`Operation`].
pub enum OperationV {
    Update(Seq<u8>),
    Delete,
    AsIs,
}

impl View for Operation {
    type V = OperationV;

    open spec fn view(&self) -> OperationV {
        match self {
            Operation::Update(v) => OperationV::Update(v@),
            Operation::Delete => OperationV::Delete,
            Operation::AsIs => OperationV::AsIs,
        }
    }
}

/// A single-key upsert request.
#[derive(Clone, PartialEq, Eq, Debug)]
pub struct UpsertKV {
    pub key: Vec<u8>,
    pub seq: MatchSeq,
    pub value: Operation,
    pub value_meta: Option<ValueMeta>,
}

/// Mathematical image of an [`UpsertKV`].
pub struct UpsertKVV {
    pub key: Seq<u8>,
    pub seq: MatchSeq,
    pub value: OperationV,
    pub value_meta: Option<ValueMeta>,
}

impl View for UpsertKV {
    type V = UpsertKVV;

    open spec fn view(&self) -> UpsertKVV {
        UpsertKVV {
            key: self.key@,
            seq: self.seq,
            value: self.value@,
            value_meta: self.value_meta,
        }
    }
}

impl UpsertKV {
    /// An unconditional write of `value` under `key`.
    pub fn update(key: Vec<u8>, value: Vec<u8>) -> (r: UpsertKV)
        ensures
            r@.key == key@,
            r@.seq == MatchSeq::Any,
            r@.value == OperationV::Update(value@),
            r@.value_meta is None,
    {
        UpsertKV { key, seq: MatchSeq::Any, value: Operation::Update(value), value_meta: Option::None }
    }

    /// An unconditional delete of `key`.
    pub fn delete(key: Vec<u8>) -> (r: UpsertKV)
        ensures
            r@.key == key@,
            r@.seq == MatchSeq::Any,
            r@.value == OperationV::Delete,
            r@.value_meta is None,
    {
        UpsertKV { key, seq: MatchSeq::Any, value: Operation::Delete, value_meta: Option::None }
    }

    /// The same request with an expiration time attached.
    pub fn with_expire_ms(self, expire_at_ms: u64) -> (r: UpsertKV)
        ensures
            r@.key == self@.key,
            r@.seq == self@.seq,
            r@.value == self@.value,
            r@.value_meta == Option::Some(ValueMeta { expire_at_ms: Option::Some(expire_at_ms) }),
    {
        UpsertKV {
            key: self.key,
            seq: self.seq,
            value: self.value,
            value_meta: Option::Some(ValueMeta { expire_at_ms: Option::Some(expire_at_ms) }),
        }
    }

    /// The same request gated by a `MatchSeq` precondition.
    pub fn with_match_seq(self, seq: MatchSeq) -> (r: UpsertKV)
        ensures
            r@.key == self@.key,
            r@.seq == seq,
            r@.value == self@.value,
            r@.value_meta == self@.value_meta,
    {
        UpsertKV { key: self.key, seq, value: self.value, value_meta: self.value_meta }
    }
}

/// A state-machine command carried by a `Normal` log entry.
#[derive(Clone, PartialEq, Eq, Debug)]
pub enum Cmd {
    AddNode { node_id: u64, node: Node, overriding: bool },
    RemoveNode { node_id: u64 },
    UpsertKV(UpsertKV),
    Transaction(TxnRequest),
}

/// Mathematical image of a [`Cmd`].
pub enum CmdV {
    AddNode { node_id: u64, node: NodeV, overriding: bool },
    RemoveNode { node_id: u64 },
    UpsertKV(UpsertKVV),
    Transaction(TxnRequestV),
}

impl View for Cmd {
    type V = CmdV;

    open spec fn view(&self) -> CmdV {
        match self {
            Cmd::AddNode { node_id, node, overriding } => (CmdV::AddNode {
                node_id: *node_id,
                node: node@,
                overriding: *overriding,
            }),
            Cmd::RemoveNode { node_id } => (CmdV::RemoveNode { node_id: *node_id }),
            Cmd::UpsertKV(u) => CmdV::UpsertKV(u@),
            Cmd::Transaction(t) => CmdV::Transaction(t@),
        }
    }
}

/// The payload of a `Normal` log entry: an optional proposing time and the
/// command.
#[derive(Clone, PartialEq, Eq, Debug)]
pub struct LogEntry {
    pub time_ms: Option<u64>,
    pub cmd: Cmd,
}

/// Mathematical image of a [`LogEntry`].
pub struct LogEntryV {
    pub time_ms: Option<u64>,
    pub cmd: CmdV,
}

impl View for LogEntry {
    type V = LogEntryV;

    open spec fn view(&self) -> LogEntryV {
        LogEntryV { time_ms: self.time_ms, cmd: self.cmd@ }
    }
}

/// The payload of a committed Raft log entry.
#[derive(Clone, PartialEq, Eq, Debug)]
pub enum EntryPayload {
    Blank,
    Normal(LogEntry),
    Membership(Membership),
}

/// Mathematical image of an [`EntryPayload`].
pub enum EntryPayloadV {
    Blank,
    Normal(LogEntryV),
    Membership(MembershipV),
}

impl View for EntryPayload {
    type V = EntryPayloadV;

    open spec fn view(&self) -> EntryPayloadV {
        match self {
            EntryPayload::Blank => EntryPayloadV::Blank,
            EntryPayload::Normal(d) => EntryPayloadV::Normal(d@),
            EntryPayload::Membership(m) => EntryPayloadV::Membership(m@),
        }
    }
}

/// A committed Raft log entry.
#[derive(Clone, PartialEq, Eq, Debug)]
pub struct Entry {
    pub log_id: LogId,
    pub payload: EntryPayload,
}

/// Mathematical image of an [`Entry`].
pub struct EntryV {
    pub log_id: LogId,
    pub payload: EntryPayloadV,
}

impl View for Entry {
    type V = EntryV;

    open spec fn view(&self) -> EntryV {
        EntryV { log_id: self.log_id, payload: self.payload@ }
    }
}

/// The proposing time of an entry: only `Normal` entries carry one.
pub open spec fn entry_time_ms(e: EntryV) -> u64 {
    match e.payload {
        EntryPayloadV::Normal(d) => match d.time_ms {
            Option::Some(t) => t,
            Option::None => 0,
        },
        _ => 0,
    }
}

/// A change applied to one key: the value before and after.
#[derive(Clone, PartialEq, Eq, Debug)]
pub struct Change {
    pub ident: Option<Vec<u8>>,
    pub prev: Option<SeqV>,
    pub result: Option<SeqV>,
}

/// Mathematical image of a [`Change`].
pub struct ChangeV {
    pub ident: Option<Seq<u8>>,
    pub prev: Option<SeqVV>,
    pub result: Option<SeqVV>,
}

impl View for Change {
    type V = ChangeV;

    open spec fn view(&self) -> ChangeV {
        ChangeV {
            ident: match &self.ident {
                Option::None => Option::None,
                Option::Some(k) => Option::Some(k@),
            },
            prev: match &self.prev {
                Option::None => Option::None,
                Option::Some(v) => Option::Some(v@),
            },
            result: match &self.result {
                Option::None => Option::None,
                Option::Some(v) => Option::Some(v@),
            },
        }
    }
}

/// The result of applying one log entry.
#[derive(Clone, PartialEq, Eq, Debug)]
pub enum AppliedState {
    Nothing,
    Node { prev: Option<Node>, result: Option<Node> },
    KV(Change),
    TxnReply(TxnReply),
}

/// Mathematical image of an [`AppliedState`].
pub enum AppliedStateV {
    Nothing,
    Node { prev: Option<NodeV>, result: Option<NodeV> },
    KV(ChangeV),
    TxnReply(TxnReplyV),
}

impl View for AppliedState {
    type V = AppliedStateV;

    open spec fn view(&self) -> AppliedStateV {
        match self {
            AppliedState::Nothing => AppliedStateV::Nothing,
            AppliedState::Node { prev, result } => (AppliedStateV::Node {
                prev: match prev {
                    Option::None => Option::None,
                    Option::Some(n) => Option::Some(n@),
                },
                result: match result {
                    Option::None => Option::None,
                    Option::Some(n) => Option::Some(n@),
                },
            }),
            AppliedState::KV(c) => AppliedStateV::KV(c@),
            AppliedState::TxnReply(r) => AppliedStateV::TxnReply(r@),
        }
    }
}

} // verus!
