//! Core value model: log ids, membership, nodes, versioned values and the
//! internal `Marked` representation used by the leveled store.
//!
//! All text-like data (keys, node names, endpoints) is held as UTF-8 byte
//! strings.  Expiration times are absolute wall-clock milliseconds.

use vstd::prelude::*;

verus! {

/// Identifier of a cluster node.
pub type NodeId = u64;

/// Identifier of a Raft log entry: the committed leader (term, node id) and
/// the index of the entry.  Log ids are totally ordered by
/// `(term, node_id, index)`.
#[derive(Clone, Copy, PartialEq, Eq, Structural, Debug)]
pub struct LogId {
    pub term: u64,
    pub node_id: u64,
    pub index: u64,
}

/// Strict order on log ids: by term, then proposing node id, then index.
pub open spec fn log_id_lt(a: LogId, b: LogId) -> bool {
    if a.term != b.term {
        a.term < b.term
    } else if a.node_id != b.node_id {
        a.node_id < b.node_id
    } else {
        a.index < b.index
    }
}

pub open spec fn log_id_le(a: LogId, b: LogId) -> bool {
    log_id_lt(a, b) || a == b
}

/// Order on optional log ids: absent sorts below every present id.
pub open spec fn opt_log_id_le(a: Option<LogId>, b: Option<LogId>) -> bool {
    match a {
        Option::None => true,
        Option::Some(x) => match b {
            Option::None => false,
            Option::Some(y) => log_id_le(x, y),
        },
    }
}

/// Compare two optional log ids; `a <= b` in the order where `None` is least.
pub fn opt_log_id_is_le(a: &Option<LogId>, b: &Option<LogId>) -> (r: bool)
    ensures
        r == opt_log_id_le(*a, *b),
{
    match a {
        Option::None => true,
        Option::Some(x) => match b {
            Option::None => false,
            Option::Some(y) => {
                if x.term != y.term {
                    x.term < y.term
                } else if x.node_id != y.node_id {
                    x.node_id < y.node_id
                } else {
                    x.index <= y.index
                }
            },
        },
    }
}

/// A Raft membership configuration: the joint voter configs and the set of
/// all known member ids.
#[derive(Clone, PartialEq, Eq, Debug)]
pub struct Membership {
    pub configs: Vec<Vec<u64>>,
    pub nodes: Vec<u64>,
}

/// Mathematical image of a [`Membership`].
pub struct MembershipV {
    pub configs: Seq<Seq<u64>>,
    pub nodes: Seq<u64>,
}

impl View for Membership {
    type V = MembershipV;

    open spec fn view(&self) -> MembershipV {
        MembershipV { configs: self.configs.deep_view(), nodes: self.nodes@ }
    }
}

impl Membership {
    /// The empty membership: no configs, no members.
    pub fn empty() -> (r: Membership)
        ensures
            r@.configs.len() == 0,
            r@.nodes.len() == 0,
    {
        Membership { configs: Vec::new(), nodes: Vec::new() }
    }

    pub fn dup(&self) -> (r: Membership)
        ensures
            r@ == self@,
    {
        let mut configs: Vec<Vec<u64>> = Vec::new();
        let mut i: usize = 0;
        while i < self.configs.len()
            invariant
                0 <= i <= self.configs@.len(),
                configs@.len() == i,
                forall|k: int| 0 <= k < i ==> #[trigger] configs@[k]@ == self.configs@[k]@,
            decreases self.configs@.len() - i,
        {
            let mut c: Vec<u64> = Vec::new();
            let mut j: usize = 0;
            while j < self.configs[i].len()
                invariant
                    0 <= i < self.configs@.len(),
                    0 <= j <= self.configs@[i as int]@.len(),
                    c@ =~= self.configs@[i as int]@.subrange(0, j as int),
                decreases self.configs@[i as int]@.len() - j,
            {
                c.push(self.configs[i][j]);
                j = j + 1;
            }
            assert(c@ =~= self.configs@[i as int]@);
            configs.push(c);
            i = i + 1;
        }
        assert forall|k: int| 0 <= k < configs@.len() implies configs.deep_view()[k]
            =~= self.configs.deep_view()[k] by {
            assert(configs@[k]@ == self.configs@[k]@);
        }
        let mut nodes: Vec<u64> = Vec::new();
        let mut j: usize = 0;
        while j < self.nodes.len()
            invariant
                0 <= j <= self.nodes@.len(),
                nodes@ =~= self.nodes@.subrange(0, j as int),
            decreases self.nodes@.len() - j,
        {
            nodes.push(self.nodes[j]);
            j = j + 1;
        }
        assert(configs.deep_view() =~~= self.configs.deep_view());
        assert(nodes@ =~= self.nodes@);
        Membership { configs, nodes }
    }
}

/// A membership stamped with the log id that installed it.
#[derive(Clone, PartialEq, Eq, Debug)]
pub struct StoredMembership {
    pub log_id: Option<LogId>,
    pub membership: Membership,
}

/// Mathematical image of a [`StoredMembership`].
pub struct StoredMembershipV {
    pub log_id: Option<LogId>,
    pub membership: MembershipV,
}

impl View for StoredMembership {
    type V = StoredMembershipV;

    open spec fn view(&self) -> StoredMembershipV {
        StoredMembershipV { log_id: self.log_id, membership: self.membership@ }
    }
}

impl StoredMembership {
    pub fn new(log_id: Option<LogId>, membership: Membership) -> (r: StoredMembership)
        ensures
            r@.log_id == log_id,
            r@.membership == membership@,
    {
        StoredMembership { log_id, membership }
    }

    pub fn empty() -> (r: StoredMembership)
        ensures
            r@.log_id is None,
            r@.membership.configs.len() == 0,
            r@.membership.nodes.len() == 0,
    {
        StoredMembership { log_id: Option::None, membership: Membership::empty() }
    }

    pub fn dup(&self) -> (r: StoredMembership)
        ensures
            r@ == self@,
    {
        StoredMembership { log_id: self.log_id, membership: self.membership.dup() }
    }
}

/// A cluster member: name, raft endpoint, and optional advertised gRPC
/// address.
#[derive(Clone, PartialEq, Eq, Debug)]
pub struct Node {
    pub name: Vec<u8>,
    pub endpoint_addr: Vec<u8>,
    pub endpoint_port: u64,
    pub grpc_api_advertise_address: Option<Vec<u8>>,
}

/// Mathematical image of a [`Node`].
pub struct NodeV {
    pub name: Seq<u8>,
    pub endpoint_addr: Seq<u8>,
    pub endpoint_port: u64,
    pub grpc_api_advertise_address: Option<Seq<u8>>,
}

impl View for Node {
    type V = NodeV;

    open spec fn view(&self) -> NodeV {
        NodeV {
            name: self.name@,
            endpoint_addr: self.endpoint_addr@,
            endpoint_port: self.endpoint_port,
            grpc_api_advertise_address: match self.grpc_api_advertise_address {
                Option::None => Option::None,
                Option::Some(a) => Option::Some(a@),
            },
        }
    }
}

impl Node {
    pub fn new(name: Vec<u8>, endpoint_addr: Vec<u8>, endpoint_port: u64) -> (r: Node)
        ensures
            r@.name == name@,
            r@.endpoint_addr == endpoint_addr@,
            r@.endpoint_port == endpoint_port,
            r@.grpc_api_advertise_address is None,
    {
        Node { name, endpoint_addr, endpoint_port, grpc_api_advertise_address: Option::None }
    }

    pub fn dup(&self) -> (r: Node)
        ensures
            r@ == self@,
    {
        Node {
            name: crate::bytes_order::key_dup(&self.name),
            endpoint_addr: crate::bytes_order::key_dup(&self.endpoint_addr),
            endpoint_port: self.endpoint_port,
            grpc_api_advertise_address: match &self.grpc_api_advertise_address {
                Option::None => Option::None,
                Option::Some(a) => Option::Some(crate::bytes_order::key_dup(a)),
            },
        }
    }
}

/// Metadata attached to a stored value: an optional absolute expiration time
/// in milliseconds.
#[derive(Clone, Copy, PartialEq, Eq, Debug)]
pub struct ValueMeta {
    pub expire_at_ms: Option<u64>,
}

impl ValueMeta {
    pub fn new(expire_at_ms: Option<u64>) -> (r: ValueMeta)
        ensures
            r.expire_at_ms == expire_at_ms,
    {
        ValueMeta { expire_at_ms }
    }
}

/// The expiration time recorded in an optional meta, if any.
pub open spec fn meta_expire_at_ms(meta: Option<ValueMeta>) -> Option<u64> {
    match meta {
        Option::None => Option::None,
        Option::Some(m) => m.expire_at_ms,
    }
}

/// A versioned value: its assigned sequence number, optional metadata, and
/// the stored bytes.  `seq == 0` is reserved for "absent" and is never
/// produced by a successful write.
#[derive(Clone, PartialEq, Eq, Debug)]
pub struct SeqV {
    pub seq: u64,
    pub meta: Option<ValueMeta>,
    pub data: Vec<u8>,
}

/// Mathematical image of a [`SeqV`].
pub struct SeqVV {
    pub seq: u64,
    pub meta: Option<ValueMeta>,
    pub data: Seq<u8>,
}

impl View for SeqV {
    type V = SeqVV;

    open spec fn view(&self) -> SeqVV {
        SeqVV { seq: self.seq, meta: self.meta, data: self.data@ }
    }
}

impl SeqV {
    pub fn new(seq: u64, data: Vec<u8>) -> (r: SeqV)
        ensures
            r@.seq == seq,
            r@.meta is None,
            r@.data == data@,
    {
        SeqV { seq, meta: Option::None, data }
    }

    pub fn with_meta(seq: u64, meta: Option<ValueMeta>, data: Vec<u8>) -> (r: SeqV)
        ensures
            r@ == (SeqVV { seq, meta, data: data@ }),
    {
        SeqV { seq, meta, data }
    }

    pub fn dup(&self) -> (r: SeqV)
        ensures
            r@ == self@,
    {
        SeqV { seq: self.seq, meta: self.meta, data: crate::bytes_order::key_dup(&self.data) }
    }

    /// An entry is expired when its expiration time has been reached,
    /// inclusively.
    pub fn is_expired(&self, now_ms: u64) -> (r: bool)
        ensures
            r == seqv_is_expired(self@, now_ms),
    {
        match &self.meta {
            Option::None => false,
            Option::Some(m) => match m.expire_at_ms {
                Option::None => false,
                Option::Some(t) => t <= now_ms,
            },
        }
    }
}

/// Whether a versioned value is expired at `now_ms`; the boundary
/// `expire_at_ms == now_ms` counts as expired.
pub open spec fn seqv_is_expired(v: SeqVV, now_ms: u64) -> bool {
    match meta_expire_at_ms(v.meta) {
        Option::None => false,
        Option::Some(t) => t <= now_ms,
    }
}

/// Key of the secondary expiration index: expiration time first, then the
/// sequence number of the expiring record.
#[derive(Clone, Copy, PartialEq, Eq, Structural, Debug)]
pub struct ExpireKey {
    pub time_ms: u64,
    pub seq: u64,
}

/// Strict order on expiration keys: by time, then sequence number.
pub open spec fn expire_key_lt(a: ExpireKey, b: ExpireKey) -> bool {
    if a.time_ms != b.time_ms {
        a.time_ms < b.time_ms
    } else {
        a.seq < b.seq
    }
}

impl ExpireKey {
    pub fn new(time_ms: u64, seq: u64) -> (r: ExpireKey)
        ensures
            r == (ExpireKey { time_ms, seq }),
    {
        ExpireKey { time_ms, seq }
    }

    /// Whether this index entry is due at `now_ms`; the boundary
    /// `time_ms == now_ms` counts as due.
    pub fn is_expired(&self, now_ms: u64) -> (r: bool)
        ensures
            r == (self.time_ms <= now_ms),
    {
        self.time_ms <= now_ms
    }
}

/// The value stored in the expiration index export stream: the sequence
/// number of the expiring record and its primary key.
#[derive(Clone, PartialEq, Eq, Debug)]
pub struct ExpireValue {
    pub seq: u64,
    pub key: Vec<u8>,
}

/// Mathematical image of an [`ExpireValue`].
pub struct ExpireValueV {
    pub seq: u64,
    pub key: Seq<u8>,
}

impl View for ExpireValue {
    type V = ExpireValueV;

    open spec fn view(&self) -> ExpireValueV {
        ExpireValueV { seq: self.seq, key: self.key@ }
    }
}

impl ExpireValue {
    pub fn new(key: Vec<u8>, seq: u64) -> (r: ExpireValue)
        ensures
            r@.seq == seq,
            r@.key == key@,
    {
        ExpireValue { seq, key }
    }
}

/// Internal record of the leveled store: a live value or a tombstone.  Both
/// carry the sequence number assigned when the record was written.
#[derive(Clone, PartialEq, Eq, Debug)]
pub enum Marked {
    Normal { internal_seq: u64, value: Vec<u8>, meta: Option<ValueMeta> },
    TombStone { internal_seq: u64 },
}

/// Mathematical image of a [`Marked`].
pub enum MarkedV {
    Normal { internal_seq: u64, value: Seq<u8>, meta: Option<ValueMeta> },
    TombStone { internal_seq: u64 },
}

impl View for Marked {
    type V = MarkedV;

    open spec fn view(&self) -> MarkedV {
        match self {
            Marked::Normal { internal_seq, value, meta } => (MarkedV::Normal {
                internal_seq: *internal_seq,
                value: value@,
                meta: *meta,
            }),
            Marked::TombStone { internal_seq } => (MarkedV::TombStone {
                internal_seq: *internal_seq,
            }),
        }
    }
}

/// The sequence number carried by a record image.
pub open spec fn marked_seq(m: MarkedV) -> u64 {
    match m {
        MarkedV::Normal { internal_seq, .. } => internal_seq,
        MarkedV::TombStone { internal_seq } => internal_seq,
    }
}

/// The expiration time of a record image, if it is live and carries one.
pub open spec fn marked_expire_at_ms(m: MarkedV) -> Option<u64> {
    match m {
        MarkedV::Normal { meta, .. } => meta_expire_at_ms(meta),
        MarkedV::TombStone { .. } => Option::None,
    }
}

/// The versioned value a record image denotes: tombstones denote "absent".
pub open spec fn marked_to_seqv(m: MarkedV) -> Option<SeqVV> {
    match m {
        MarkedV::Normal { internal_seq, value, meta } => Option::Some(
            SeqVV { seq: internal_seq, meta, data: value },
        ),
        MarkedV::TombStone { .. } => Option::None,
    }
}

/// The sequence number an optional record image presents to `MatchSeq`:
/// absent and tombstones count as 0.
pub open spec fn marked_opt_order_seq(m: Option<MarkedV>) -> u64 {
    match m {
        Option::None => 0,
        Option::Some(MarkedV::Normal { internal_seq, .. }) => internal_seq,
        Option::Some(MarkedV::TombStone { .. }) => 0,
    }
}

impl Marked {
    pub fn new_normal(internal_seq: u64, value: Vec<u8>, meta: Option<ValueMeta>) -> (r: Marked)
        ensures
            r@ == (MarkedV::Normal { internal_seq, value: value@, meta }),
    {
        Marked::Normal { internal_seq, value, meta }
    }

    pub fn new_tomb_stone(internal_seq: u64) -> (r: Marked)
        ensures
            r@ == (MarkedV::TombStone { internal_seq }),
    {
        Marked::TombStone { internal_seq }
    }

    pub fn is_tomb_stone(&self) -> (r: bool)
        ensures
            r == (self@ is TombStone),
    {
        match self {
            Marked::TombStone { .. } => true,
            Marked::Normal { .. } => false,
        }
    }

    pub fn internal_seq(&self) -> (r: u64)
        ensures
            r == marked_seq(self@),
    {
        match self {
            Marked::Normal { internal_seq, .. } => *internal_seq,
            Marked::TombStone { internal_seq } => *internal_seq,
        }
    }

    pub fn expire_at_ms(&self) -> (r: Option<u64>)
        ensures
            r == marked_expire_at_ms(self@),
    {
        match self {
            Marked::Normal { meta, .. } => match meta {
                Option::None => Option::None,
                Option::Some(m) => m.expire_at_ms,
            },
            Marked::TombStone { .. } => Option::None,
        }
    }

    pub fn dup(&self) -> (r: Marked)
        ensures
            r@ == self@,
    {
        match self {
            Marked::Normal { internal_seq, value, meta } => Marked::Normal {
                internal_seq: *internal_seq,
                value: crate::bytes_order::key_dup(value),
                meta: *meta,
            },
            Marked::TombStone { internal_seq } => Marked::TombStone {
                internal_seq: *internal_seq,
            },
        }
    }

    /// Convert to the versioned value this record denotes.
    pub fn to_seqv(&self) -> (r: Option<SeqV>)
        ensures
            match marked_to_seqv(self@) {
                Option::None => r is None,
                Option::Some(v) => r matches Some(x) && x@ == v,
            },
    {
        match self {
            Marked::Normal { internal_seq, value, meta } => Option::Some(
                SeqV {
                    seq: *internal_seq,
                    meta: *meta,
                    data: crate::bytes_order::key_dup(value),
                },
            ),
            Marked::TombStone { .. } => Option::None,
        }
    }
}

/// Executable equality of record images, proved against the views.
pub fn marked_eq(a: &Marked, b: &Marked) -> (r: bool)
    ensures
        r == (a@ == b@),
{
    match (a, b) {
        (
            Marked::Normal { internal_seq: s1, value: v1, meta: m1 },
            Marked::Normal { internal_seq: s2, value: v2, meta: m2 },
        ) => {
            let vals_eq = matches!(
                crate::bytes_order::key_compare(v1, v2),
                crate::bytes_order::KeyOrdering::Equal
            );
            s1 == s2 && vals_eq && meta_opt_eq(m1, m2)
        },
        (Marked::TombStone { internal_seq: s1 }, Marked::TombStone { internal_seq: s2 }) => s1
            == s2,
        _ => false,
    }
}

/// Executable equality of optional value metadata.
pub fn meta_opt_eq(a: &Option<ValueMeta>, b: &Option<ValueMeta>) -> (r: bool)
    ensures
        r == (*a == *b),
{
    match (a, b) {
        (Option::None, Option::None) => true,
        (Option::Some(x), Option::Some(y)) => x.expire_at_ms == y.expire_at_ms,
        _ => false,
    }
}

/// Executable equality of optional versioned values, on the views.
pub fn seqv_opt_eq(a: &Option<SeqV>, b: &Option<SeqV>) -> (r: bool)
    ensures
        r == (match (*a, *b) {
            (Option::None, Option::None) => true,
            (Option::Some(x), Option::Some(y)) => x@ == y@,
            _ => false,
        }),
{
    match (a, b) {
        (Option::None, Option::None) => true,
        (Option::Some(x), Option::Some(y)) => {
            let data_eq = matches!(
                crate::bytes_order::key_compare(&x.data, &y.data),
                crate::bytes_order::KeyOrdering::Equal
            );
            x.seq == y.seq && data_eq && meta_opt_eq(&x.meta, &y.meta)
        },
        _ => false,
    }
}

} // verus!
