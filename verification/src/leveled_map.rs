//! The leveled store: a stack of immutable frozen levels under one writable
//! level.  Reads merge the stack from the newest level down; writes go to
//! the writable level and draw fresh sequence numbers from its system data.
//!
//! The spec model of a stack is the sequence of level images, oldest first,
//! with the writable level last.  [`merged_kv_at`] and [`merged_exp_at`]
//! define the merged view: the newest level containing a key wins, tombstones
//! included.

use vstd::prelude::*;

use crate::expire_map::exp_lookup;
use crate::expire_map::exp_insert;
use crate::expire_map::lemma_exp_insert_lookup;
use crate::expire_map::lemma_exp_insert_len;
use crate::expire_map::lemma_exp_lookup_push;
use crate::expire_map::ExpPair;
use crate::expire_map::ExpireMap;
use crate::kv_map::kv_insert;
use crate::kv_map::kv_lookup;
use crate::kv_map::lemma_kv_insert_lookup;
use crate::kv_map::lemma_kv_insert_len;
use crate::kv_map::lemma_kv_lookup_push;
use crate::kv_map::lemma_kv_lookup_some_index;
use crate::kv_map::KvMap;
use crate::kv_map::KvPair;
use crate::level_data::LevelData;
use crate::level_data::LevelDataV;
use crate::types::ExpireKey;
use crate::types::Marked;
use crate::types::MarkedV;
use crate::types::ValueMeta;

verus! {

/// The merged primary lookup over a stack of levels, newest (last) wins.
pub open spec fn merged_kv_at(levels: Seq<LevelDataV>, k: Seq<u8>) -> Option<MarkedV>
    decreases levels.len(),
{
    if levels.len() == 0 {
        Option::None
    } else {
        match kv_lookup(levels.last().kv, k) {
            Option::Some(v) => Option::Some(v),
            Option::None => merged_kv_at(levels.drop_last(), k),
        }
    }
}

/// The merged expiration lookup over a stack of levels, newest (last) wins.
pub open spec fn merged_exp_at(levels: Seq<LevelDataV>, k: ExpireKey) -> Option<MarkedV>
    decreases levels.len(),
{
    if levels.len() == 0 {
        Option::None
    } else {
        match exp_lookup(levels.last().expire, k) {
            Option::Some(v) => Option::Some(v),
            Option::None => merged_exp_at(levels.drop_last(), k),
        }
    }
}

/// Every level of the stack is structurally well formed.
pub open spec fn levels_wf(levels: Seq<LevelDataV>) -> bool {
    forall|i: int|
        0 <= i < levels.len() ==> {
            &&& crate::kv_map::kv_sorted((#[trigger] levels[i]).kv)
            &&& crate::expire_map::exp_sorted(levels[i].expire)
            &&& crate::node_map::node_sorted(levels[i].sys.nodes)
        }
}

/// Total number of primary records over all levels.
pub open spec fn total_kv(levels: Seq<LevelDataV>) -> int
    decreases levels.len(),
{
    if levels.len() == 0 {
        0
    } else {
        total_kv(levels.drop_last()) + levels.last().kv.len()
    }
}

/// Total number of expiration records over all levels.
pub open spec fn total_exp(levels: Seq<LevelDataV>) -> int
    decreases levels.len(),
{
    if levels.len() == 0 {
        0
    } else {
        total_exp(levels.drop_last()) + levels.last().expire.len()
    }
}

/// Replacing only the last level of a well-formed stack with another
/// well-formed level keeps the stack well formed.
pub proof fn lemma_levels_wf_update_last(a: Seq<LevelDataV>, b: Seq<LevelDataV>)
    requires
        levels_wf(a),
        a.len() > 0,
        b.len() == a.len(),
        b.drop_last() == a.drop_last(),
        crate::kv_map::kv_sorted(b.last().kv),
        crate::expire_map::exp_sorted(b.last().expire),
        crate::node_map::node_sorted(b.last().sys.nodes),
    ensures
        levels_wf(b),
{
    assert forall|i: int| 0 <= i < b.len() implies {
        &&& crate::kv_map::kv_sorted((#[trigger] b[i]).kv)
        &&& crate::expire_map::exp_sorted(b[i].expire)
        &&& crate::node_map::node_sorted(b[i].sys.nodes)
    } by {
        if i < b.len() - 1 {
            assert(b[i] == b.drop_last()[i]);
            assert(a[i] == a.drop_last()[i]);
            assert(crate::kv_map::kv_sorted(a[i].kv));
        } else {
            assert(b[i] == b.last());
        }
    }
}

/// A tombstone in some level shadows every older level: the merged view
/// returns the tombstone, however many live records sit below it.
pub proof fn lemma_tombstone_shadowing(levels: Seq<LevelDataV>, k: Seq<u8>, i: int)
    requires
        0 <= i < levels.len(),
        kv_lookup(levels[i].kv, k) matches Some(m) && m is TombStone,
        forall|j: int| i < j < levels.len() ==> kv_lookup((#[trigger] levels[j]).kv, k) is None,
    ensures
        merged_kv_at(levels, k) == kv_lookup(levels[i].kv, k),
        merged_kv_at(levels, k) matches Some(m) && m is TombStone,
    decreases levels.len(),
{
    if i == levels.len() - 1 {
    } else {
        assert(kv_lookup(levels.last().kv, k) is None);
        assert(levels.drop_last()[i] == levels[i]);
        assert(forall|j: int|
            i < j < levels.drop_last().len() ==> (#[trigger] levels.drop_last()[j])
                == levels[j]);
        lemma_tombstone_shadowing(levels.drop_last(), k, i);
    }
}

/// An immutable, shareable stack of frozen levels, oldest first.
#[derive(Clone, Debug)]
pub struct StaticLeveledMap {
    levels: Vec<LevelData>,
}

impl View for StaticLeveledMap {
    type V = Seq<LevelDataV>;

    closed spec fn view(&self) -> Seq<LevelDataV> {
        self.levels@.map_values(|l: LevelData| l@)
    }
}

impl StaticLeveledMap {
    pub open spec fn wf(self) -> bool {
        levels_wf(self@)
    }

    pub fn new(levels: Vec<LevelData>) -> (r: StaticLeveledMap)
        ensures
            r@.len() == levels@.len(),
            forall|i: int| 0 <= i < levels@.len() ==> r@[i] == (#[trigger] levels@[i])@,
    {
        let r = StaticLeveledMap { levels };
        r
    }

    pub fn empty() -> (r: StaticLeveledMap)
        ensures
            r@ == Seq::<LevelDataV>::empty(),
            r.wf(),
    {
        let r = StaticLeveledMap { levels: Vec::new() };
        proof {
            assert(r@ =~= Seq::<LevelDataV>::empty());
        }
        r
    }

    pub fn len(&self) -> (r: usize)
        ensures
            r == self@.len(),
    {
        self.levels.len()
    }

    /// The level at position `i` (0 is the oldest).
    pub fn level_at(&self, i: usize) -> (r: &LevelData)
        requires
            i < self@.len(),
        ensures
            r@ == self@[i as int],
    {
        &self.levels[i]
    }

    /// The newest frozen level, if any.
    pub fn newest(&self) -> (r: Option<&LevelData>)
        ensures
            self@.len() == 0 <==> r is None,
            self@.len() > 0 ==> (r matches Some(l) && l@ == self@.last()),
    {
        if self.levels.len() == 0 {
            Option::None
        } else {
            Option::Some(&self.levels[self.levels.len() - 1])
        }
    }

    pub fn dup(&self) -> (r: StaticLeveledMap)
        ensures
            r@ == self@,
    {
        let mut levels: Vec<LevelData> = Vec::new();
        let mut i: usize = 0;
        while i < self.levels.len()
            invariant
                0 <= i <= self.levels@.len(),
                levels@.len() == i,
                forall|j: int| 0 <= j < i ==> (#[trigger] levels@[j])@ == self.levels@[j]@,
            decreases self.levels@.len() - i,
        {
            levels.push(self.levels[i].dup());
            i = i + 1;
        }
        let r = StaticLeveledMap { levels };
        proof {
            assert(r@ =~= self@);
        }
        r
    }
}

/// The live store: frozen levels under one writable level.
#[derive(Clone, Debug)]
pub struct LeveledMap {
    frozen: StaticLeveledMap,
    writable: LevelData,
}

impl View for LeveledMap {
    type V = Seq<LevelDataV>;

    closed spec fn view(&self) -> Seq<LevelDataV> {
        self.frozen@.push(self.writable@)
    }
}

impl LeveledMap {
    pub open spec fn wf(self) -> bool {
        levels_wf(self@)
    }

    /// The current sequence counter: the one of the writable level.
    pub open spec fn spec_seq(self) -> u64 {
        self@.last().sys.seq
    }

    /// A store with a single (writable) level.
    pub fn new(level: LevelData) -> (r: LeveledMap)
        ensures
            r@ =~= seq![level@],
    {
        let r = LeveledMap { frozen: StaticLeveledMap::empty(), writable: level };
        proof {
            assert(r@ =~= seq![level@]);
        }
        r
    }

    pub fn new_empty() -> (r: LeveledMap)
        ensures
            r@.len() == 1,
            r@[0].kv == Seq::<KvPair>::empty(),
            r@[0].expire == Seq::<ExpPair>::empty(),
            r@[0].sys.seq == 0,
            r@[0].sys.last_applied is None,
            r@[0].sys.last_membership.log_id is None,
            r@[0].sys.last_membership.membership.configs.len() == 0,
            r@[0].sys.last_membership.membership.nodes.len() == 0,
            r@[0].sys.nodes == Seq::<crate::node_map::NodePair>::empty(),
            r.wf(),
    {
        let r = LeveledMap::new(LevelData::new());
        proof {
            assert(r@[0] == r@.last());
        }
        r
    }

    /// The number of expiration-index records over all levels, saturating
    /// at the integer limit.
    pub fn expire_entry_count(&self) -> (r: u64)
        ensures
            r == u64::MAX || r == total_exp(self@),
    {
        let n = self.frozen.len();
        let mut acc: u64 = 0;
        let mut i: usize = 0;
        proof {
            assert(self.frozen@.take(0) =~= Seq::<LevelDataV>::empty());
        }
        while i < n
            invariant
                0 <= i <= n == self.frozen@.len(),
                acc == u64::MAX || acc == total_exp(self.frozen@.take(i as int)),
            decreases n - i,
        {
            let l = self.frozen.level_at(i).expire.len();
            proof {
                assert(self.frozen@.take(i as int + 1).drop_last() =~= self.frozen@.take(
                    i as int,
                ));
                assert(self.frozen@.take(i as int + 1).last() == self.frozen@[i as int]);
            }
            if acc > u64::MAX - (l as u64) {
                acc = u64::MAX;
            } else {
                acc = acc + (l as u64);
            }
            i = i + 1;
        }
        proof {
            assert(self.frozen@.take(n as int) =~= self.frozen@);
            assert(self@.drop_last() =~= self.frozen@);
            assert(self@.last() == self.writable@);
        }
        let wl = self.writable.expire.len();
        if acc > u64::MAX - (wl as u64) {
            u64::MAX
        } else {
            acc + (wl as u64)
        }
    }

    pub fn writable_ref(&self) -> (r: &LevelData)
        ensures
            r@ == self@.last(),
    {
        &self.writable
    }

    pub fn writable_mut(&mut self) -> (r: &mut LevelData)
        ensures
            r@ == old(self)@.last(),
            final(self)@ == old(self)@.drop_last().push(final(r)@),
    {
        proof {
            assert(self@.drop_last() =~= self.frozen@);
        }
        &mut self.writable
    }

    pub fn frozen_ref(&self) -> (r: &StaticLeveledMap)
        ensures
            r@ == self@.drop_last(),
    {
        proof {
            assert(self@.drop_last() =~= self.frozen@);
        }
        &self.frozen
    }

    /// Merged read of the primary index: the newest level wins.
    pub fn get_kv_marked(&self, key: &Vec<u8>) -> (r: Option<&Marked>)
        ensures
            match merged_kv_at(self@, key@) {
                Option::None => r is None,
                Option::Some(v) => r matches Some(m) && m@ == v,
            },
    {
        let ghost fv = self@.drop_last();
        proof {
            assert(self@.last() == self.writable@);
            assert(self@.drop_last() =~= self.frozen@);
        }
        let got = self.writable.kv.get(key);
        if got.is_some() {
            return got;
        }
        let n = self.frozen.len();
        let mut i: usize = n;
        proof {
            assert(fv.take(n as int) =~= fv);
        }
        while i > 0
            invariant
                0 <= i <= n == fv.len(),
                fv == self@.drop_last(),
                merged_kv_at(self@, key@) == merged_kv_at(fv.take(i as int), key@),
            decreases i,
        {
            i = i - 1;
            proof {
                assert(fv.take(i as int + 1).last() == fv[i as int]);
                assert(fv.take(i as int + 1).drop_last() =~= fv.take(i as int));
                assert(self.frozen@[i as int] == fv[i as int]);
            }
            let got = self.frozen.level_at(i).kv.get(key);
            if got.is_some() {
                return got;
            }
        }
        proof {
            assert(fv.take(0) =~= Seq::<LevelDataV>::empty());
        }
        Option::None
    }

    /// Merged read of the expiration index.
    pub fn get_expire_marked(&self, key: &ExpireKey) -> (r: Option<&Marked>)
        ensures
            match merged_exp_at(self@, *key) {
                Option::None => r is None,
                Option::Some(v) => r matches Some(m) && m@ == v,
            },
    {
        let ghost fv = self@.drop_last();
        proof {
            assert(self@.last() == self.writable@);
            assert(self@.drop_last() =~= self.frozen@);
        }
        let got = self.writable.expire.get(key);
        if got.is_some() {
            return got;
        }
        let n = self.frozen.len();
        let mut i: usize = n;
        proof {
            assert(fv.take(n as int) =~= fv);
        }
        while i > 0
            invariant
                0 <= i <= n == fv.len(),
                fv == self@.drop_last(),
                merged_exp_at(self@, *key) == merged_exp_at(fv.take(i as int), *key),
            decreases i,
        {
            i = i - 1;
            proof {
                assert(fv.take(i as int + 1).last() == fv[i as int]);
                assert(fv.take(i as int + 1).drop_last() =~= fv.take(i as int));
                assert(self.frozen@[i as int] == fv[i as int]);
            }
            let got = self.frozen.level_at(i).expire.get(key);
            if got.is_some() {
                return got;
            }
        }
        proof {
            assert(fv.take(0) =~= Seq::<LevelDataV>::empty());
        }
        Option::None
    }

    /// The record image a primary write produces.
    pub open spec fn written_marked(
        seq: u64,
        value: Option<(Seq<u8>, Option<ValueMeta>)>,
    ) -> MarkedV {
        match value {
            Option::Some((v, meta)) => (MarkedV::Normal { internal_seq: seq, value: v, meta }),
            Option::None => (MarkedV::TombStone { internal_seq: seq }),
        }
    }

    /// Write to the primary index of the writable level: a live value for
    /// `Some`, a tombstone for `None`.  Both draw a fresh sequence number.
    /// Returns the merged record before the write and the record written.
    pub fn set_kv(&mut self, key: Vec<u8>, value: Option<(Vec<u8>, Option<ValueMeta>)>) -> (r: (
        Option<Marked>,
        Marked,
    ))
        requires
            old(self).wf(),
            old(self).spec_seq() < u64::MAX,
        ensures
            final(self).wf(),
            final(self)@.len() == old(self)@.len(),
            final(self).spec_seq() == old(self).spec_seq() + 1,
            final(self)@.drop_last() == old(self)@.drop_last(),
            final(self)@.last().kv == kv_insert(old(self)@.last().kv, key@, r.1@),
            final(self)@.last().expire == old(self)@.last().expire,
            final(self)@.last().sys.last_applied == old(self)@.last().sys.last_applied,
            final(self)@.last().sys.last_membership == old(self)@.last().sys.last_membership,
            final(self)@.last().sys.nodes == old(self)@.last().sys.nodes,
            r.1@ == Self::written_marked((old(self).spec_seq() + 1) as u64, match value {
                Option::Some((v, meta)) => Option::Some((v@, meta)),
                Option::None => Option::None,
            }),
            match merged_kv_at(old(self)@, key@) {
                Option::None => r.0 is None,
                Option::Some(v) => r.0 matches Some(m) && m@ == v,
            },
            merged_kv_at(final(self)@, key@) == Option::Some(r.1@),
            forall|k2: Seq<u8>|
                k2 != key@ ==> merged_kv_at(final(self)@, k2) == merged_kv_at(old(self)@, k2),
            forall|e: ExpireKey| merged_exp_at(final(self)@, e) == merged_exp_at(old(self)@, e),
    {
        let prev = match self.get_kv_marked(&key) {
            Option::Some(m) => Option::Some(m.dup()),
            Option::None => Option::None,
        };
        let seq = self.writable.sys.next_seq();
        let m = match value {
            Option::Some((v, meta)) => Marked::new_normal(seq, v, meta),
            Option::None => Marked::new_tomb_stone(seq),
        };
        let m2 = m.dup();
        proof {
            assert(self@.last() == self.writable@);
        }
        self.writable.kv.insert(key, m);
        proof {
            assert(final(self)@.drop_last() =~= old(self)@.drop_last());
            assert(final(self)@.last() == self.writable@);
            lemma_kv_insert_lookup(old(self)@.last().kv, key@, m2@, key@);
            assert forall|k2: Seq<u8>| k2 != key@ implies merged_kv_at(final(self)@, k2)
                == merged_kv_at(old(self)@, k2) by {
                lemma_kv_insert_lookup(old(self)@.last().kv, key@, m2@, k2);
            }
            assert forall|e: ExpireKey| merged_exp_at(final(self)@, e) == merged_exp_at(
                old(self)@,
                e,
            ) by {
                assert(final(self)@.last().expire == old(self)@.last().expire);
            }
            lemma_levels_wf_update_last(old(self)@, final(self)@);
        }
        (prev, m2)
    }

    /// Record an expiration-index entry `(time, seq) -> key` in the writable
    /// level.  The record carries the sequence number of the expiring kv
    /// entry; the global counter is not consumed.
    pub fn insert_expire(&mut self, ekey: ExpireKey, key: Vec<u8>)
        requires
            old(self).wf(),
        ensures
            final(self).wf(),
            final(self)@.len() == old(self)@.len(),
            final(self)@.drop_last() == old(self)@.drop_last(),
            final(self)@.last().expire == exp_insert(
                old(self)@.last().expire,
                ekey,
                (MarkedV::Normal { internal_seq: ekey.seq, value: key@, meta: Option::None }),
            ),
            final(self)@.last().kv == old(self)@.last().kv,
            final(self)@.last().sys == old(self)@.last().sys,
            merged_exp_at(final(self)@, ekey) == Option::Some(
                (MarkedV::Normal { internal_seq: ekey.seq, value: key@, meta: Option::None }),
            ),
            forall|e: ExpireKey|
                e != ekey ==> merged_exp_at(final(self)@, e) == merged_exp_at(old(self)@, e),
            forall|k2: Seq<u8>| merged_kv_at(final(self)@, k2) == merged_kv_at(old(self)@, k2),
    {
        let m = Marked::new_normal(ekey.seq, key, Option::None);
        let ghost mv = m@;
        proof {
            assert(self@.last() == self.writable@);
        }
        self.writable.expire.insert(ekey, m);
        proof {
            assert(final(self)@.drop_last() =~= old(self)@.drop_last());
            assert(final(self)@.last() == self.writable@);
            lemma_exp_insert_lookup(old(self)@.last().expire, ekey, mv, ekey);
            assert forall|e: ExpireKey| e != ekey implies merged_exp_at(final(self)@, e)
                == merged_exp_at(old(self)@, e) by {
                lemma_exp_insert_lookup(old(self)@.last().expire, ekey, mv, e);
            }
            lemma_levels_wf_update_last(old(self)@, final(self)@);
        }
    }

    /// Write a tombstone over an expiration-index entry in the writable
    /// level.  The tombstone carries the current sequence counter; the
    /// counter is not consumed.
    pub fn remove_expire(&mut self, ekey: ExpireKey)
        requires
            old(self).wf(),
        ensures
            final(self).wf(),
            final(self)@.len() == old(self)@.len(),
            final(self)@.drop_last() == old(self)@.drop_last(),
            final(self)@.last().expire == exp_insert(
                old(self)@.last().expire,
                ekey,
                (MarkedV::TombStone { internal_seq: old(self).spec_seq() }),
            ),
            final(self)@.last().kv == old(self)@.last().kv,
            final(self)@.last().sys == old(self)@.last().sys,
            merged_exp_at(final(self)@, ekey) == Option::Some(
                (MarkedV::TombStone { internal_seq: old(self).spec_seq() }),
            ),
            forall|e: ExpireKey|
                e != ekey ==> merged_exp_at(final(self)@, e) == merged_exp_at(old(self)@, e),
            forall|k2: Seq<u8>| merged_kv_at(final(self)@, k2) == merged_kv_at(old(self)@, k2),
    {
        let seq = self.writable.sys.curr_seq();
        let m = Marked::new_tomb_stone(seq);
        let ghost mv = m@;
        proof {
            assert(self@.last() == self.writable@);
        }
        self.writable.expire.insert(ekey, m);
        proof {
            assert(final(self)@.drop_last() =~= old(self)@.drop_last());
            assert(final(self)@.last() == self.writable@);
            lemma_exp_insert_lookup(old(self)@.last().expire, ekey, mv, ekey);
            assert forall|e: ExpireKey| e != ekey implies merged_exp_at(final(self)@, e)
                == merged_exp_at(old(self)@, e) by {
                lemma_exp_insert_lookup(old(self)@.last().expire, ekey, mv, e);
            }
            lemma_levels_wf_update_last(old(self)@, final(self)@);
        }
    }

    /// Promote the writable level to the newest frozen level and install a
    /// fresh empty writable carrying the same system data.  Returns the
    /// frozen stack just after promotion; the merged view is unchanged.
    pub fn freeze_writable(&mut self) -> (r: StaticLeveledMap)
        requires
            old(self).wf(),
        ensures
            final(self).wf(),
            r@ == old(self)@,
            final(self)@.len() == old(self)@.len() + 1,
            final(self)@.drop_last() == old(self)@,
            final(self)@.last().kv == Seq::<KvPair>::empty(),
            final(self)@.last().expire == Seq::<ExpPair>::empty(),
            final(self)@.last().sys == old(self)@.last().sys,
            forall|k2: Seq<u8>| merged_kv_at(final(self)@, k2) == merged_kv_at(old(self)@, k2),
            forall|e: ExpireKey| merged_exp_at(final(self)@, e) == merged_exp_at(old(self)@, e),
    {
        let frozen_level = self.writable.dup();
        let new_writable = self.writable.new_level();
        self.frozen.levels.push(frozen_level);
        self.writable = new_writable;
        let r = self.frozen.dup();
        proof {
            assert(final(self)@.drop_last() =~= old(self)@);
            assert(r@ =~= old(self)@);
            assert(final(self)@.last() == self.writable@);
            assert forall|k2: Seq<u8>| merged_kv_at(final(self)@, k2) == merged_kv_at(
                old(self)@,
                k2,
            ) by {
                assert(kv_lookup(Seq::<KvPair>::empty(), k2) is None);
            }
            assert forall|e: ExpireKey| merged_exp_at(final(self)@, e) == merged_exp_at(
                old(self)@,
                e,
            ) by {
                assert(exp_lookup(Seq::<ExpPair>::empty(), e) is None);
            }
        }
        r
    }

    /// Replace every frozen level with the given stack, keeping the writable
    /// level.  The caller proves that the new stack presents the same merged
    /// view as the frozen levels it replaces.
    pub fn replace_frozen_levels(&mut self, new_frozen: StaticLeveledMap)
        ensures
            final(self)@ == new_frozen@.push(old(self)@.last()),
    {
        proof {
            assert(self@.last() == self.writable@);
        }
        self.frozen = new_frozen;
        proof {
            assert(final(self)@ =~= new_frozen@.push(old(self)@.last()));
        }
    }

    pub fn dup(&self) -> (r: LeveledMap)
        ensures
            r@ == self@,
    {
        let r = LeveledMap { frozen: self.frozen.dup(), writable: self.writable.dup() };
        proof {
            assert(r@ =~= self@);
        }
        r
    }
}


/// Overlay every record of `level` onto `acc`: after the call a lookup in
/// `acc` prefers `level`'s record and falls back to the old contents.
pub fn collect_kv_level(acc: &mut KvMap, level: &KvMap)
    requires
        old(acc).wf(),
        level.wf(),
    ensures
        final(acc).wf(),
        forall|k: Seq<u8>|
            kv_lookup(final(acc)@, k) == match kv_lookup(level@, k) {
                Option::Some(v) => Option::Some(v),
                Option::None => kv_lookup(old(acc)@, k),
            },
        final(acc)@.len() <= old(acc)@.len() + level@.len(),
{
    let n = level.len();
    let mut j: usize = 0;
    proof {
        assert(level@.take(0) =~= Seq::<KvPair>::empty());
        assert(kv_lookup(Seq::<KvPair>::empty(), Seq::<u8>::empty()) is None);
    }
    while j < n
        invariant
            0 <= j <= n == level@.len(),
            acc.wf(),
            level.wf(),
            acc@.len() <= old(acc)@.len() + j,
            forall|k: Seq<u8>|
                kv_lookup(acc@, k) == match kv_lookup(level@.take(j as int), k) {
                    Option::Some(v) => Option::Some(v),
                    Option::None => kv_lookup(old(acc)@, k),
                },
        decreases n - j,
    {
        let entry = level.entry_at(j);
        let kd = crate::bytes_order::key_dup(&entry.0);
        let vd = entry.1.dup();
        let ghost pre = acc@;
        let ghost kk = kd@;
        let ghost vv = vd@;
        acc.insert(kd, vd);
        proof {
            lemma_kv_insert_len(pre, kk, vv);
            assert(level@.take(j as int + 1) =~= level@.take(j as int).push(level@[j as int]));
            assert((kk, vv) == level@[j as int]);
            assert forall|k: Seq<u8>|
                kv_lookup(acc@, k) == match kv_lookup(level@.take(j as int + 1), k) {
                    Option::Some(v) => Option::Some(v),
                    Option::None => kv_lookup(old(acc)@, k),
                } by {
                lemma_kv_insert_lookup(pre, kk, vv, k);
                lemma_kv_lookup_push(level@.take(j as int), level@[j as int], k);
                if k == kk {
                    if kv_lookup(level@.take(j as int), k) is Some {
                        lemma_kv_lookup_some_index(level@.take(j as int), k);
                        let l = choose|l: int|
                            0 <= l < level@.take(j as int).len() && (#[trigger] level@.take(
                                j as int,
                            )[l]).0 == k;
                        assert(level@[l].0 == k);
                        assert(crate::bytes_order::lex_lt(level@[l].0, level@[j as int].0));
                        crate::bytes_order::lemma_lex_irrefl(k);
                    }
                }
            }
        }
        j = j + 1;
    }
    proof {
        assert(level@.take(n as int) =~= level@);
    }
}

/// Overlay every record of an expiration index of one level onto `acc`.
pub fn collect_exp_level(acc: &mut ExpireMap, level: &ExpireMap)
    requires
        old(acc).wf(),
        level.wf(),
    ensures
        final(acc).wf(),
        forall|k: ExpireKey|
            exp_lookup(final(acc)@, k) == match exp_lookup(level@, k) {
                Option::Some(v) => Option::Some(v),
                Option::None => exp_lookup(old(acc)@, k),
            },
        final(acc)@.len() <= old(acc)@.len() + level@.len(),
{
    let n = level.len();
    let mut j: usize = 0;
    proof {
        assert(level@.take(0) =~= Seq::<ExpPair>::empty());
    }
    while j < n
        invariant
            0 <= j <= n == level@.len(),
            acc.wf(),
            level.wf(),
            acc@.len() <= old(acc)@.len() + j,
            forall|k: ExpireKey|
                exp_lookup(acc@, k) == match exp_lookup(level@.take(j as int), k) {
                    Option::Some(v) => Option::Some(v),
                    Option::None => exp_lookup(old(acc)@, k),
                },
        decreases n - j,
    {
        let entry = level.entry_at(j);
        let kd = entry.0;
        let vd = entry.1.dup();
        let ghost pre = acc@;
        let ghost vv = vd@;
        acc.insert(kd, vd);
        proof {
            lemma_exp_insert_len(pre, kd, vv);
            assert(level@.take(j as int + 1) =~= level@.take(j as int).push(level@[j as int]));
            assert((kd, vv) == level@[j as int]);
            assert forall|k: ExpireKey|
                exp_lookup(acc@, k) == match exp_lookup(level@.take(j as int + 1), k) {
                    Option::Some(v) => Option::Some(v),
                    Option::None => exp_lookup(old(acc)@, k),
                } by {
                lemma_exp_insert_lookup(pre, kd, vv, k);
                lemma_exp_lookup_push(level@.take(j as int), level@[j as int], k);
                if k == kd {
                    if exp_lookup(level@.take(j as int), k) is Some {
                        crate::expire_map::lemma_exp_lookup_some_index(level@.take(j as int), k);
                        let l = choose|l: int|
                            0 <= l < level@.take(j as int).len() && (#[trigger] level@.take(
                                j as int,
                            )[l]).0 == k;
                        assert(level@[l].0 == k);
                        assert(crate::types::expire_key_lt(level@[l].0, level@[j as int].0));
                    }
                }
            }
        }
        j = j + 1;
    }
    proof {
        assert(level@.take(n as int) =~= level@);
    }
}


impl StaticLeveledMap {
    /// Compact the stack into one primary index holding, for every key, the
    /// record of the newest level that has it (tombstones included).
    pub fn merged_kv_map(&self) -> (r: KvMap)
        requires
            self.wf(),
        ensures
            r.wf(),
            forall|k: Seq<u8>| kv_lookup(r@, k) == merged_kv_at(self@, k),
            r@.len() <= total_kv(self@),
    {
        let mut acc = KvMap::new();
        let n = self.len();
        let mut i: usize = 0;
        proof {
            assert(self@.take(0) =~= Seq::<LevelDataV>::empty());
            assert forall|k: Seq<u8>|
                kv_lookup(acc@, k) == merged_kv_at(self@.take(0), k) by {
                assert(kv_lookup(Seq::<KvPair>::empty(), k) is None);
            }
        }
        while i < n
            invariant
                0 <= i <= n == self@.len(),
                self.wf(),
                acc.wf(),
                acc@.len() <= total_kv(self@.take(i as int)),
                forall|k: Seq<u8>| kv_lookup(acc@, k) == merged_kv_at(self@.take(i as int), k),
            decreases n - i,
        {
            let ghost pre = acc@;
            proof {
                assert(crate::kv_map::kv_sorted(self@[i as int].kv));
            }
            collect_kv_level(&mut acc, &self.level_at(i).kv);
            proof {
                assert(self@.take(i as int + 1).last() == self@[i as int]);
                assert(self@.take(i as int + 1).drop_last() =~= self@.take(i as int));
                assert forall|k: Seq<u8>|
                    kv_lookup(acc@, k) == merged_kv_at(self@.take(i as int + 1), k) by {
                }
            }
            i = i + 1;
        }
        proof {
            assert(self@.take(n as int) =~= self@);
        }
        acc
    }

    /// Compact the stack into one expiration index in the same way.
    pub fn merged_expire_map(&self) -> (r: ExpireMap)
        requires
            self.wf(),
        ensures
            r.wf(),
            forall|k: ExpireKey| exp_lookup(r@, k) == merged_exp_at(self@, k),
            r@.len() <= total_exp(self@),
    {
        let mut acc = ExpireMap::new();
        let n = self.len();
        let mut i: usize = 0;
        proof {
            assert(self@.take(0) =~= Seq::<LevelDataV>::empty());
            assert forall|k: ExpireKey|
                exp_lookup(acc@, k) == merged_exp_at(self@.take(0), k) by {
                assert(exp_lookup(Seq::<ExpPair>::empty(), k) is None);
            }
        }
        while i < n
            invariant
                0 <= i <= n == self@.len(),
                self.wf(),
                acc.wf(),
                acc@.len() <= total_exp(self@.take(i as int)),
                forall|k: ExpireKey| exp_lookup(acc@, k) == merged_exp_at(self@.take(i as int), k),
            decreases n - i,
        {
            proof {
                assert(crate::expire_map::exp_sorted(self@[i as int].expire));
            }
            collect_exp_level(&mut acc, &self.level_at(i).expire);
            proof {
                assert(self@.take(i as int + 1).last() == self@[i as int]);
                assert(self@.take(i as int + 1).drop_last() =~= self@.take(i as int));
            }
            i = i + 1;
        }
        proof {
            assert(self@.take(n as int) =~= self@);
        }
        acc
    }
}

impl LeveledMap {
    /// The merged primary index of the whole store.
    pub fn merged_kv_map(&self) -> (r: KvMap)
        requires
            self.wf(),
        ensures
            r.wf(),
            forall|k: Seq<u8>| kv_lookup(r@, k) == merged_kv_at(self@, k),
            r@.len() <= total_kv(self@),
    {
        proof {
            assert(self@.drop_last() =~= self.frozen@);
            assert(self@.last() == self.writable@);
            assert forall|i: int| 0 <= i < self.frozen@.len() implies {
                &&& crate::kv_map::kv_sorted((#[trigger] self.frozen@[i]).kv)
                &&& crate::expire_map::exp_sorted(self.frozen@[i].expire)
                &&& crate::node_map::node_sorted(self.frozen@[i].sys.nodes)
            } by {
                assert(self.frozen@[i] == self@[i]);
            }
            assert(crate::kv_map::kv_sorted(self@.last().kv));
        }
        let mut acc = self.frozen.merged_kv_map();
        collect_kv_level(&mut acc, &self.writable.kv);
        acc
    }

    /// The merged expiration index of the whole store.
    pub fn merged_expire_map(&self) -> (r: ExpireMap)
        requires
            self.wf(),
        ensures
            r.wf(),
            forall|k: ExpireKey| exp_lookup(r@, k) == merged_exp_at(self@, k),
            r@.len() <= total_exp(self@),
    {
        proof {
            assert(self@.drop_last() =~= self.frozen@);
            assert(self@.last() == self.writable@);
            assert forall|i: int| 0 <= i < self.frozen@.len() implies {
                &&& crate::kv_map::kv_sorted((#[trigger] self.frozen@[i]).kv)
                &&& crate::expire_map::exp_sorted(self.frozen@[i].expire)
                &&& crate::node_map::node_sorted(self.frozen@[i].sys.nodes)
            } by {
                assert(self.frozen@[i] == self@[i]);
            }
            assert(crate::expire_map::exp_sorted(self@.last().expire));
        }
        let mut acc = self.frozen.merged_expire_map();
        collect_exp_level(&mut acc, &self.writable.expire);
        acc
    }
}


/// The merged primary view depends only on the primary indexes of the
/// levels.
pub proof fn lemma_merged_kv_congruence(a: Seq<LevelDataV>, b: Seq<LevelDataV>, k: Seq<u8>)
    requires
        a.len() == b.len(),
        forall|i: int| 0 <= i < a.len() ==> (#[trigger] a[i]).kv == b[i].kv,
    ensures
        merged_kv_at(a, k) == merged_kv_at(b, k),
    decreases a.len(),
{
    if a.len() > 0 {
        assert(a.last().kv == b.last().kv);
        assert(forall|i: int|
            0 <= i < a.drop_last().len() ==> (#[trigger] a.drop_last()[i]).kv
                == b.drop_last()[i].kv);
        lemma_merged_kv_congruence(a.drop_last(), b.drop_last(), k);
    }
}

/// The merged expiration view depends only on the expiration indexes of the
/// levels.
pub proof fn lemma_merged_exp_congruence(a: Seq<LevelDataV>, b: Seq<LevelDataV>, e: ExpireKey)
    requires
        a.len() == b.len(),
        forall|i: int| 0 <= i < a.len() ==> (#[trigger] a[i]).expire == b[i].expire,
    ensures
        merged_exp_at(a, e) == merged_exp_at(b, e),
    decreases a.len(),
{
    if a.len() > 0 {
        assert(a.last().expire == b.last().expire);
        assert(forall|i: int|
            0 <= i < a.drop_last().len() ==> (#[trigger] a.drop_last()[i]).expire
                == b.drop_last()[i].expire);
        lemma_merged_exp_congruence(a.drop_last(), b.drop_last(), e);
    }
}

impl LeveledMap {
    /// Set the last-applied log id in the writable level's system data.
    pub fn set_last_applied(&mut self, v: Option<crate::types::LogId>)
        requires
            old(self).wf(),
        ensures
            final(self).wf(),
            final(self)@.len() == old(self)@.len(),
            final(self)@.drop_last() == old(self)@.drop_last(),
            final(self)@.last().kv == old(self)@.last().kv,
            final(self)@.last().expire == old(self)@.last().expire,
            final(self)@.last().sys.seq == old(self)@.last().sys.seq,
            final(self)@.last().sys.last_applied == v,
            final(self)@.last().sys.last_membership == old(self)@.last().sys.last_membership,
            final(self)@.last().sys.nodes == old(self)@.last().sys.nodes,
            forall|k2: Seq<u8>| merged_kv_at(final(self)@, k2) == merged_kv_at(old(self)@, k2),
            forall|e: ExpireKey| merged_exp_at(final(self)@, e) == merged_exp_at(old(self)@, e),
    {
        proof {
            assert(self@.last() == self.writable@);
        }
        self.writable.sys.last_applied = v;
        proof {
            assert(final(self)@.drop_last() =~= old(self)@.drop_last());
            assert(final(self)@.last() == self.writable@);
            assert forall|k2: Seq<u8>| merged_kv_at(final(self)@, k2) == merged_kv_at(
                old(self)@,
                k2,
            ) by {
                lemma_merged_kv_congruence(final(self)@, old(self)@, k2);
            }
            assert forall|e: ExpireKey| merged_exp_at(final(self)@, e) == merged_exp_at(
                old(self)@,
                e,
            ) by {
                lemma_merged_exp_congruence(final(self)@, old(self)@, e);
            }
            lemma_levels_wf_update_last(old(self)@, final(self)@);
        }
    }

    /// Set the last membership in the writable level's system data.
    pub fn set_last_membership(&mut self, m: crate::types::StoredMembership)
        requires
            old(self).wf(),
        ensures
            final(self).wf(),
            final(self)@.len() == old(self)@.len(),
            final(self)@.drop_last() == old(self)@.drop_last(),
            final(self)@.last().kv == old(self)@.last().kv,
            final(self)@.last().expire == old(self)@.last().expire,
            final(self)@.last().sys.seq == old(self)@.last().sys.seq,
            final(self)@.last().sys.last_applied == old(self)@.last().sys.last_applied,
            final(self)@.last().sys.last_membership == m@,
            final(self)@.last().sys.nodes == old(self)@.last().sys.nodes,
            forall|k2: Seq<u8>| merged_kv_at(final(self)@, k2) == merged_kv_at(old(self)@, k2),
            forall|e: ExpireKey| merged_exp_at(final(self)@, e) == merged_exp_at(old(self)@, e),
    {
        proof {
            assert(self@.last() == self.writable@);
        }
        self.writable.sys.last_membership = m;
        proof {
            assert(final(self)@.drop_last() =~= old(self)@.drop_last());
            assert(final(self)@.last() == self.writable@);
            assert forall|k2: Seq<u8>| merged_kv_at(final(self)@, k2) == merged_kv_at(
                old(self)@,
                k2,
            ) by {
                lemma_merged_kv_congruence(final(self)@, old(self)@, k2);
            }
            assert forall|e: ExpireKey| merged_exp_at(final(self)@, e) == merged_exp_at(
                old(self)@,
                e,
            ) by {
                lemma_merged_exp_congruence(final(self)@, old(self)@, e);
            }
            lemma_levels_wf_update_last(old(self)@, final(self)@);
        }
    }

    /// Read a node from the writable level's node table.
    pub fn get_node(&self, node_id: u64) -> (r: Option<&crate::types::Node>)
        ensures
            match crate::node_map::node_lookup(self@.last().sys.nodes, node_id) {
                Option::None => r is None,
                Option::Some(v) => r matches Some(n) && n@ == v,
            },
    {
        proof {
            assert(self@.last() == self.writable@);
        }
        self.writable.sys.nodes.get(node_id)
    }

    /// Insert or replace a node in the writable level's node table.
    pub fn insert_node(&mut self, node_id: u64, node: crate::types::Node)
        requires
            old(self).wf(),
        ensures
            final(self).wf(),
            final(self)@.len() == old(self)@.len(),
            final(self)@.drop_last() == old(self)@.drop_last(),
            final(self)@.last().kv == old(self)@.last().kv,
            final(self)@.last().expire == old(self)@.last().expire,
            final(self)@.last().sys.seq == old(self)@.last().sys.seq,
            final(self)@.last().sys.last_applied == old(self)@.last().sys.last_applied,
            final(self)@.last().sys.last_membership == old(self)@.last().sys.last_membership,
            final(self)@.last().sys.nodes == crate::node_map::node_insert(
                old(self)@.last().sys.nodes,
                node_id,
                node@,
            ),
            forall|k2: Seq<u8>| merged_kv_at(final(self)@, k2) == merged_kv_at(old(self)@, k2),
            forall|e: ExpireKey| merged_exp_at(final(self)@, e) == merged_exp_at(old(self)@, e),
    {
        proof {
            assert(self@.last() == self.writable@);
            assert(crate::node_map::node_sorted(self.writable.sys.nodes@));
        }
        self.writable.sys.nodes.insert(node_id, node);
        proof {
            assert(final(self)@.drop_last() =~= old(self)@.drop_last());
            assert(final(self)@.last() == self.writable@);
            assert forall|k2: Seq<u8>| merged_kv_at(final(self)@, k2) == merged_kv_at(
                old(self)@,
                k2,
            ) by {
                lemma_merged_kv_congruence(final(self)@, old(self)@, k2);
            }
            assert forall|e: ExpireKey| merged_exp_at(final(self)@, e) == merged_exp_at(
                old(self)@,
                e,
            ) by {
                lemma_merged_exp_congruence(final(self)@, old(self)@, e);
            }
            lemma_levels_wf_update_last(old(self)@, final(self)@);
        }
    }

    /// Remove a node from the writable level's node table, returning it.
    pub fn remove_node(&mut self, node_id: u64) -> (r: Option<crate::types::Node>)
        requires
            old(self).wf(),
        ensures
            final(self).wf(),
            final(self)@.len() == old(self)@.len(),
            final(self)@.drop_last() == old(self)@.drop_last(),
            final(self)@.last().kv == old(self)@.last().kv,
            final(self)@.last().expire == old(self)@.last().expire,
            final(self)@.last().sys.seq == old(self)@.last().sys.seq,
            final(self)@.last().sys.last_applied == old(self)@.last().sys.last_applied,
            final(self)@.last().sys.last_membership == old(self)@.last().sys.last_membership,
            final(self)@.last().sys.nodes == crate::node_map::node_remove(
                old(self)@.last().sys.nodes,
                node_id,
            ),
            match crate::node_map::node_lookup(old(self)@.last().sys.nodes, node_id) {
                Option::None => r is None,
                Option::Some(v) => r matches Some(n) && n@ == v,
            },
            forall|k2: Seq<u8>| merged_kv_at(final(self)@, k2) == merged_kv_at(old(self)@, k2),
            forall|e: ExpireKey| merged_exp_at(final(self)@, e) == merged_exp_at(old(self)@, e),
    {
        proof {
            assert(self@.last() == self.writable@);
            assert(crate::node_map::node_sorted(self.writable.sys.nodes@));
        }
        let r = self.writable.sys.nodes.remove(node_id);
        proof {
            assert(final(self)@.drop_last() =~= old(self)@.drop_last());
            assert(final(self)@.last() == self.writable@);
            crate::node_map::lemma_node_remove_sorted(old(self)@.last().sys.nodes, node_id);
            assert forall|k2: Seq<u8>| merged_kv_at(final(self)@, k2) == merged_kv_at(
                old(self)@,
                k2,
            ) by {
                lemma_merged_kv_congruence(final(self)@, old(self)@, k2);
            }
            assert forall|e: ExpireKey| merged_exp_at(final(self)@, e) == merged_exp_at(
                old(self)@,
                e,
            ) by {
                lemma_merged_exp_congruence(final(self)@, old(self)@, e);
            }
            lemma_levels_wf_update_last(old(self)@, final(self)@);
        }
        r
    }
}

} // verus!
