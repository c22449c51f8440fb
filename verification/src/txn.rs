//! Transaction types: conditions compared against the live store, and the
//! operation lists run atomically when the conditions pass or fail.

use vstd::prelude::*;

use crate::types::LogId;
use crate::types::SeqV;
use crate::types::SeqVV;

verus! {

/// The six comparators a condition may use.
#[derive(Clone, Copy, PartialEq, Eq, Structural, Debug)]
pub enum CmpOp {
    Eq,
    Gt,
    Lt,
    Ne,
    Ge,
    Le,
}

/// What a condition compares the live entry against.
#[derive(Clone, PartialEq, Eq, Debug)]
pub enum CondTarget {
    CmpSeq { value: u64 },
    CmpValue { value: Vec<u8> },
}

/// Mathematical image of a [`CondTarget`].
pub enum CondTargetV {
    CmpSeq { value: u64 },
    CmpValue { value: Seq<u8> },
}

impl View for CondTarget {
    type V = CondTargetV;

    open spec fn view(&self) -> CondTargetV {
        match self {
            CondTarget::CmpSeq { value } => (CondTargetV::CmpSeq { value: *value }),
            CondTarget::CmpValue { value } => (CondTargetV::CmpValue { value: value@ }),
        }
    }
}

/// One transaction condition on one key.
#[derive(Clone, PartialEq, Eq, Debug)]
pub struct TxnCondition {
    pub key: Vec<u8>,
    pub expected: CmpOp,
    pub target: Option<CondTarget>,
}

/// Mathematical image of a [`TxnCondition`].
pub struct TxnConditionV {
    pub key: Seq<u8>,
    pub expected: CmpOp,
    pub target: Option<CondTargetV>,
}

impl View for TxnCondition {
    type V = TxnConditionV;

    open spec fn view(&self) -> TxnConditionV {
        TxnConditionV {
            key: self.key@,
            expected: self.expected,
            target: match &self.target {
                Option::None => Option::None,
                Option::Some(t) => Option::Some(t@),
            },
        }
    }
}

/// One transaction operation.
#[derive(Clone, PartialEq, Eq, Debug)]
pub enum TxnOp {
    Get { key: Vec<u8> },
    Put { key: Vec<u8>, value: Vec<u8>, expire_at_ms: Option<u64>, prev_value: bool },
    Delete { key: Vec<u8>, match_seq: Option<u64>, prev_value: bool },
    DeleteByPrefix { prefix: Vec<u8> },
}

/// Mathematical image of a [`TxnOp`].
pub enum TxnOpV {
    Get { key: Seq<u8> },
    Put { key: Seq<u8>, value: Seq<u8>, expire_at_ms: Option<u64>, prev_value: bool },
    Delete { key: Seq<u8>, match_seq: Option<u64>, prev_value: bool },
    DeleteByPrefix { prefix: Seq<u8> },
}

impl View for TxnOp {
    type V = TxnOpV;

    open spec fn view(&self) -> TxnOpV {
        match self {
            TxnOp::Get { key } => (TxnOpV::Get { key: key@ }),
            TxnOp::Put { key, value, expire_at_ms, prev_value } => (TxnOpV::Put {
                key: key@,
                value: value@,
                expire_at_ms: *expire_at_ms,
                prev_value: *prev_value,
            }),
            TxnOp::Delete { key, match_seq, prev_value } => (TxnOpV::Delete {
                key: key@,
                match_seq: *match_seq,
                prev_value: *prev_value,
            }),
            TxnOp::DeleteByPrefix { prefix } => (TxnOpV::DeleteByPrefix { prefix: prefix@ }),
        }
    }
}

/// A whole transaction request.
#[derive(Clone, PartialEq, Eq, Debug)]
pub struct TxnRequest {
    pub condition: Vec<TxnCondition>,
    pub if_then: Vec<TxnOp>,
    pub else_then: Vec<TxnOp>,
}

/// Mathematical image of a [`TxnRequest`].
pub struct TxnRequestV {
    pub condition: Seq<TxnConditionV>,
    pub if_then: Seq<TxnOpV>,
    pub else_then: Seq<TxnOpV>,
}

impl View for TxnRequest {
    type V = TxnRequestV;

    open spec fn view(&self) -> TxnRequestV {
        TxnRequestV {
            condition: self.condition@.map_values(|c: TxnCondition| c@),
            if_then: self.if_then@.map_values(|o: TxnOp| o@),
            else_then: self.else_then@.map_values(|o: TxnOp| o@),
        }
    }
}

/// Per-operation response of a transaction.
#[derive(Clone, PartialEq, Eq, Debug)]
pub enum TxnOpResponse {
    Get { key: Vec<u8>, value: Option<SeqV> },
    Put { key: Vec<u8>, prev_value: Option<SeqV> },
    Delete { key: Vec<u8>, success: bool, prev_value: Option<SeqV> },
    DeleteByPrefix { prefix: Vec<u8>, count: u32 },
}

/// Mathematical image of a [`TxnOpResponse`].
pub enum TxnOpResponseV {
    Get { key: Seq<u8>, value: Option<SeqVV> },
    Put { key: Seq<u8>, prev_value: Option<SeqVV> },
    Delete { key: Seq<u8>, success: bool, prev_value: Option<SeqVV> },
    DeleteByPrefix { prefix: Seq<u8>, count: u32 },
}

impl View for TxnOpResponse {
    type V = TxnOpResponseV;

    open spec fn view(&self) -> TxnOpResponseV {
        match self {
            TxnOpResponse::Get { key, value } => (TxnOpResponseV::Get {
                key: key@,
                value: match value {
                    Option::None => Option::None,
                    Option::Some(v) => Option::Some(v@),
                },
            }),
            TxnOpResponse::Put { key, prev_value } => (TxnOpResponseV::Put {
                key: key@,
                prev_value: match prev_value {
                    Option::None => Option::None,
                    Option::Some(v) => Option::Some(v@),
                },
            }),
            TxnOpResponse::Delete { key, success, prev_value } => (TxnOpResponseV::Delete {
                key: key@,
                success: *success,
                prev_value: match prev_value {
                    Option::None => Option::None,
                    Option::Some(v) => Option::Some(v@),
                },
            }),
            TxnOpResponse::DeleteByPrefix { prefix, count } => (TxnOpResponseV::DeleteByPrefix {
                prefix: prefix@,
                count: *count,
            }),
        }
    }
}

/// The reply to a transaction: whether the conditions passed, and the
/// responses of the branch that ran.
#[derive(Clone, PartialEq, Eq, Debug)]
pub struct TxnReply {
    pub success: bool,
    pub error: Vec<u8>,
    pub responses: Vec<TxnOpResponse>,
}

/// Mathematical image of a [`TxnReply`].
pub struct TxnReplyV {
    pub success: bool,
    pub error: Seq<u8>,
    pub responses: Seq<TxnOpResponseV>,
}

impl View for TxnReply {
    type V = TxnReplyV;

    open spec fn view(&self) -> TxnReplyV {
        TxnReplyV {
            success: self.success,
            error: self.error@,
            responses: self.responses@.map_values(|r: TxnOpResponse| r@),
        }
    }
}

/// A condition or an operation, as queued by a streamed multi-step
/// transaction.
#[derive(Clone, PartialEq, Eq, Debug)]
pub enum TxnRequestPayload {
    Condition(TxnCondition),
    Op(TxnOp),
}

/// Metadata of an uncommitted streamed transaction.
#[derive(Clone, PartialEq, Eq, Debug)]
pub struct TxnMeta {
    pub log_id: LogId,
    pub log_time_ms: u64,
    pub last_update_time_ms: u64,
}

/// One buffered entry of an uncommitted streamed transaction.
#[derive(Clone, PartialEq, Eq, Debug)]
pub struct TxnBufferValue {
    pub log_id: LogId,
    pub log_time_ms: u64,
    pub payload: TxnRequestPayload,
}

} // verus!
