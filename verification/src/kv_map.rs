//! The primary index of one level: an association list of byte-string keys
//! and [`Marked`] records, kept strictly sorted in lexicographic key order.
//!
//! The spec model is the sequence of `(key, record)` image pairs; lookups and
//! insertions are specified by the recursive functions [`kv_lookup`] and
//! [`kv_insert`], whose algebra is proved here once and reused by the leveled
//! store.

use vstd::prelude::*;

use crate::bytes_order::key_compare;
use crate::bytes_order::lemma_lex_asym;
use crate::bytes_order::lemma_lex_irrefl;
use crate::bytes_order::lemma_lex_total;
use crate::bytes_order::lemma_lex_trans;
use crate::bytes_order::lex_lt;
use crate::bytes_order::KeyOrdering;
use crate::types::Marked;
use crate::types::MarkedV;

verus! {

/// One image pair of the primary index.
pub type KvPair = (Seq<u8>, MarkedV);

/// Keys strictly increase along the sequence.
pub open spec fn kv_sorted(p: Seq<KvPair>) -> bool {
    forall|i: int, j: int|
        0 <= i < j < p.len() ==> lex_lt(#[trigger] p[i].0, #[trigger] p[j].0)
}

/// The record stored under `k`: the first pair whose key is `k`.
pub open spec fn kv_lookup(p: Seq<KvPair>, k: Seq<u8>) -> Option<MarkedV>
    decreases p.len(),
{
    if p.len() == 0 {
        Option::None
    } else if p[0].0 == k {
        Option::Some(p[0].1)
    } else {
        kv_lookup(p.skip(1), k)
    }
}

/// `p` holds a pair keyed `k`.
pub open spec fn kv_has_key(p: Seq<KvPair>, k: Seq<u8>) -> bool {
    exists|i: int| 0 <= i < p.len() && p[i].0 == k
}

/// Insert or replace the record under `k`, keeping the sort order.
pub open spec fn kv_insert(p: Seq<KvPair>, k: Seq<u8>, v: MarkedV) -> Seq<KvPair>
    decreases p.len(),
{
    if p.len() == 0 {
        seq![(k, v)]
    } else if lex_lt(k, p[0].0) {
        seq![(k, v)] + p
    } else if k == p[0].0 {
        p.update(0, (k, v))
    } else {
        seq![p[0]] + kv_insert(p.skip(1), k, v)
    }
}

/// Inserting under `k` changes the lookup at `k` and nothing else.
pub proof fn lemma_kv_insert_lookup(p: Seq<KvPair>, k: Seq<u8>, v: MarkedV, k2: Seq<u8>)
    ensures
        kv_lookup(kv_insert(p, k, v), k2) == if k2 == k {
            Option::Some(v)
        } else {
            kv_lookup(p, k2)
        },
    decreases p.len(),
{
    let q = kv_insert(p, k, v);
    if p.len() == 0 {
        assert(q.skip(1) =~= Seq::<KvPair>::empty());
    } else if lex_lt(k, p[0].0) {
        assert(q.skip(1) =~= p);
        if k2 == k && p[0].0 == k {
            lemma_lex_irrefl(k);
        }
    } else if k == p[0].0 {
        assert(q.skip(1) =~= p.skip(1));
    } else {
        assert(q[0] == p[0]);
        assert(q.skip(1) =~= kv_insert(p.skip(1), k, v));
        lemma_kv_insert_lookup(p.skip(1), k, v, k2);
    }
}

/// Every pair of the insertion result is the new pair or a pair of `p`.
pub proof fn lemma_kv_insert_pairs(p: Seq<KvPair>, k: Seq<u8>, v: MarkedV)
    ensures
        forall|i: int|
            0 <= i < kv_insert(p, k, v).len() ==> (#[trigger] kv_insert(p, k, v)[i]) == (k, v)
                || exists|j: int| 0 <= j < p.len() && p[j] == kv_insert(p, k, v)[i],
    decreases p.len(),
{
    let q = kv_insert(p, k, v);
    if p.len() == 0 {
    } else if lex_lt(k, p[0].0) {
        assert forall|i: int| 0 <= i < q.len() implies q[i] == (k, v) || exists|j: int|
            0 <= j < p.len() && p[j] == q[i] by {
            if i > 0 {
                assert(p[i - 1] == q[i]);
            }
        }
    } else if k == p[0].0 {
        assert forall|i: int| 0 <= i < q.len() implies q[i] == (k, v) || exists|j: int|
            0 <= j < p.len() && p[j] == q[i] by {
            if i > 0 {
                assert(p[i] == q[i]);
            }
        }
    } else {
        lemma_kv_insert_pairs(p.skip(1), k, v);
        let qt = kv_insert(p.skip(1), k, v);
        assert forall|i: int| 0 <= i < q.len() implies q[i] == (k, v) || exists|j: int|
            0 <= j < p.len() && p[j] == q[i] by {
            if i == 0 {
                assert(p[0] == q[0]);
            } else {
                assert(q[i] == qt[i - 1]);
                if qt[i - 1] == (k, v) {
                } else {
                    let j = choose|j: int| 0 <= j < p.skip(1).len() && p.skip(1)[j] == qt[i - 1];
                    assert(p[j + 1] == qt[i - 1]);
                }
            }
        }
    }
}

/// Insertion keeps the sequence sorted.
pub proof fn lemma_kv_insert_sorted(p: Seq<KvPair>, k: Seq<u8>, v: MarkedV)
    requires
        kv_sorted(p),
    ensures
        kv_sorted(kv_insert(p, k, v)),
    decreases p.len(),
{
    let q = kv_insert(p, k, v);
    if p.len() == 0 {
    } else if lex_lt(k, p[0].0) {
        assert forall|i: int, j: int| 0 <= i < j < q.len() implies lex_lt(q[i].0, q[j].0) by {
            if i == 0 {
                if j > 1 {
                    lemma_lex_trans(k, p[0].0, p[j - 1].0);
                }
            } else {
                assert(q[i] == p[i - 1] && q[j] == p[j - 1]);
            }
        }
    } else if k == p[0].0 {
        assert forall|i: int, j: int| 0 <= i < j < q.len() implies lex_lt(q[i].0, q[j].0) by {
            assert(q[i].0 == p[i].0 && q[j].0 == p[j].0);
        }
    } else {
        lemma_lex_total(k, p[0].0);
        assert(lex_lt(p[0].0, k));
        assert(kv_sorted(p.skip(1))) by {
            assert forall|i: int, j: int| 0 <= i < j < p.skip(1).len() implies lex_lt(
                p.skip(1)[i].0,
                p.skip(1)[j].0,
            ) by {
                assert(p.skip(1)[i] == p[i + 1] && p.skip(1)[j] == p[j + 1]);
            }
        }
        lemma_kv_insert_sorted(p.skip(1), k, v);
        lemma_kv_insert_pairs(p.skip(1), k, v);
        let qt = kv_insert(p.skip(1), k, v);
        assert forall|i: int, j: int| 0 <= i < j < q.len() implies lex_lt(q[i].0, q[j].0) by {
            if i == 0 {
                assert(q[j] == qt[j - 1]);
                if qt[j - 1] == (k, v) {
                    assert(lex_lt(p[0].0, k));
                } else {
                    let l = choose|l: int|
                        0 <= l < p.skip(1).len() && p.skip(1)[l] == qt[j - 1];
                    assert(p[l + 1] == qt[j - 1]);
                    assert(lex_lt(p[0].0, p[l + 1].0));
                }
            } else {
                assert(q[i] == qt[i - 1] && q[j] == qt[j - 1]);
            }
        }
    }
}

/// Insertion grows the sequence by at most one pair.
pub proof fn lemma_kv_insert_len(p: Seq<KvPair>, k: Seq<u8>, v: MarkedV)
    ensures
        p.len() <= kv_insert(p, k, v).len() <= p.len() + 1,
    decreases p.len(),
{
    if p.len() == 0 {
    } else if lex_lt(k, p[0].0) {
    } else if k == p[0].0 {
    } else {
        lemma_kv_insert_len(p.skip(1), k, v);
    }
}

/// In a sorted sequence, the pair at any index is what lookup finds.
pub proof fn lemma_kv_lookup_at_index(p: Seq<KvPair>, i: int)
    requires
        kv_sorted(p),
        0 <= i < p.len(),
    ensures
        kv_lookup(p, p[i].0) == Option::Some(p[i].1),
    decreases p.len(),
{
    if i == 0 {
    } else {
        assert(lex_lt(p[0].0, p[i].0));
        if p[0].0 == p[i].0 {
            lemma_lex_irrefl(p[0].0);
        }
        assert(kv_sorted(p.skip(1))) by {
            assert forall|a: int, b: int| 0 <= a < b < p.skip(1).len() implies lex_lt(
                p.skip(1)[a].0,
                p.skip(1)[b].0,
            ) by {
                assert(p.skip(1)[a] == p[a + 1] && p.skip(1)[b] == p[b + 1]);
            }
        }
        assert(p.skip(1)[i - 1] == p[i]);
        lemma_kv_lookup_at_index(p.skip(1), i - 1);
    }
}

/// A successful lookup names a pair of the sequence.
pub proof fn lemma_kv_lookup_some_index(p: Seq<KvPair>, k: Seq<u8>)
    requires
        kv_lookup(p, k) is Some,
    ensures
        exists|i: int|
            0 <= i < p.len() && (#[trigger] p[i]).0 == k && p[i].1 == kv_lookup(p, k).unwrap(),
    decreases p.len(),
{
    if p.len() == 0 {
    } else if p[0].0 == k {
        assert(p[0].0 == k && p[0].1 == kv_lookup(p, k).unwrap());
    } else {
        lemma_kv_lookup_some_index(p.skip(1), k);
        let i = choose|i: int|
            0 <= i < p.skip(1).len() && (#[trigger] p.skip(1)[i]).0 == k && p.skip(1)[i].1
                == kv_lookup(p.skip(1), k).unwrap();
        assert(p[i + 1].0 == k && p[i + 1].1 == kv_lookup(p, k).unwrap());
    }
}

/// A key present in the sequence is found by lookup, and conversely.
pub proof fn lemma_kv_lookup_has_key(p: Seq<KvPair>, k: Seq<u8>)
    ensures
        kv_has_key(p, k) <==> kv_lookup(p, k) is Some,
    decreases p.len(),
{
    if p.len() == 0 {
    } else if p[0].0 == k {
        assert(p[0].0 == k);
    } else {
        lemma_kv_lookup_has_key(p.skip(1), k);
        if kv_has_key(p, k) {
            let i = choose|i: int| 0 <= i < p.len() && p[i].0 == k;
            assert(p.skip(1)[i - 1].0 == k);
        }
        if kv_has_key(p.skip(1), k) {
            let i = choose|i: int| 0 <= i < p.skip(1).len() && p.skip(1)[i].0 == k;
            assert(p[i + 1].0 == k);
        }
    }
}

/// Looking up in a sequence extended by one pair at the back.
pub proof fn lemma_kv_lookup_push(q: Seq<KvPair>, x: KvPair, k2: Seq<u8>)
    ensures
        kv_lookup(q.push(x), k2) == match kv_lookup(q, k2) {
            Option::Some(v) => Option::Some(v),
            Option::None => if x.0 == k2 {
                Option::Some(x.1)
            } else {
                Option::None
            },
        },
    decreases q.len(),
{
    if q.len() == 0 {
        assert(q.push(x)[0] == x);
        assert(q.push(x).skip(1) =~= Seq::<KvPair>::empty());
        assert(kv_lookup(Seq::<KvPair>::empty(), k2) == Option::<MarkedV>::None);
    } else {
        assert(q.push(x)[0] == q[0]);
        assert(q.push(x).skip(1) =~= q.skip(1).push(x));
        lemma_kv_lookup_push(q.skip(1), x, k2);
    }
}

/// Where `kv_insert` lands for a given insertion point: replacing in place
/// when the key is present, inserting before the first greater key otherwise.
pub proof fn lemma_kv_insert_at(p: Seq<KvPair>, k: Seq<u8>, v: MarkedV, i: int)
    requires
        kv_sorted(p),
        0 <= i <= p.len(),
        forall|l: int| 0 <= l < i ==> lex_lt(#[trigger] p[l].0, k),
        i < p.len() ==> !lex_lt(p[i].0, k),
    ensures
        i < p.len() && p[i].0 == k ==> kv_insert(p, k, v) == p.update(i, (k, v)),
        !(i < p.len() && p[i].0 == k) ==> kv_insert(p, k, v) == p.insert(i, (k, v)),
    decreases p.len(),
{
    if p.len() == 0 {
        assert(kv_insert(p, k, v) =~= p.insert(0, (k, v)));
    } else if i == 0 {
        if p[0].0 == k {
        } else {
            lemma_lex_total(k, p[0].0);
            assert(lex_lt(k, p[0].0));
            assert(kv_insert(p, k, v) =~= p.insert(0, (k, v)));
        }
    } else {
        assert(lex_lt(p[0].0, k));
        if lex_lt(k, p[0].0) {
            lemma_lex_asym(k, p[0].0);
        }
        if k == p[0].0 {
            lemma_lex_irrefl(k);
        }
        assert(kv_sorted(p.skip(1))) by {
            assert forall|a: int, b: int| 0 <= a < b < p.skip(1).len() implies lex_lt(
                p.skip(1)[a].0,
                p.skip(1)[b].0,
            ) by {
                assert(p.skip(1)[a] == p[a + 1] && p.skip(1)[b] == p[b + 1]);
            }
        }
        assert(forall|l: int| 0 <= l < i - 1 ==> lex_lt(#[trigger] p.skip(1)[l].0, k)) by {
            assert(forall|l: int| 0 <= l < i - 1 ==> p.skip(1)[l] == p[l + 1]);
        }
        assert(i - 1 < p.skip(1).len() ==> !lex_lt(p.skip(1)[i - 1].0, k));
        lemma_kv_insert_at(p.skip(1), k, v, i - 1);
        if i < p.len() && p[i].0 == k {
            assert(p.skip(1)[i - 1].0 == k);
            assert(kv_insert(p, k, v) =~= p.update(i, (k, v))) by {
                assert(kv_insert(p, k, v) == seq![p[0]] + p.skip(1).update(i - 1, (k, v)));
            }
        } else {
            assert(kv_insert(p, k, v) =~= p.insert(i, (k, v))) by {
                assert(kv_insert(p, k, v) == seq![p[0]] + p.skip(1).insert(i - 1, (k, v)));
            }
        }
    }
}

/// The primary index of one level.
#[derive(Clone, PartialEq, Eq, Debug)]
pub struct KvMap {
    entries: Vec<(Vec<u8>, Marked)>,
}

impl View for KvMap {
    type V = Seq<KvPair>;

    closed spec fn view(&self) -> Seq<KvPair> {
        self.entries@.map_values(|p: (Vec<u8>, Marked)| (p.0@, p.1@))
    }
}

impl KvMap {
    /// Structural well-formedness: keys strictly sorted.
    pub open spec fn wf(self) -> bool {
        kv_sorted(self@)
    }

    pub fn new() -> (r: KvMap)
        ensures
            r@ == Seq::<KvPair>::empty(),
            r.wf(),
    {
        let r = KvMap { entries: Vec::new() };
        proof {
            assert(r@ =~= Seq::<KvPair>::empty());
        }
        r
    }

    pub fn len(&self) -> (r: usize)
        ensures
            r == self@.len(),
    {
        self.entries.len()
    }

    /// The pair at index `i`, in key order.
    pub fn entry_at(&self, i: usize) -> (r: &(Vec<u8>, Marked))
        requires
            i < self@.len(),
        ensures
            (r.0@, r.1@) == self@[i as int],
    {
        &self.entries[i]
    }

    /// Look a key up.
    pub fn get(&self, key: &Vec<u8>) -> (r: Option<&Marked>)
        ensures
            match kv_lookup(self@, key@) {
                Option::None => r is None,
                Option::Some(v) => r matches Some(m) && m@ == v,
            },
    {
        let n = self.entries.len();
        let mut i: usize = 0;
        proof {
            assert(self@.skip(0) =~= self@);
        }
        while i < n
            invariant
                0 <= i <= n == self@.len(),
                kv_lookup(self@, key@) == kv_lookup(self@.skip(i as int), key@),
            decreases n - i,
        {
            proof {
                assert(self@.skip(i as int)[0] == self@[i as int]);
                assert(self@.skip(i as int).skip(1) =~= self@.skip(i as int + 1));
            }
            let c = key_compare(&self.entries[i].0, key);
            if matches!(c, KeyOrdering::Equal) {
                return Option::Some(&self.entries[i].1);
            }
            i = i + 1;
        }
        Option::None
    }

    /// Insert or replace the record under `key`.
    pub fn insert(&mut self, key: Vec<u8>, m: Marked)
        requires
            old(self).wf(),
        ensures
            final(self)@ == kv_insert(old(self)@, key@, m@),
            final(self).wf(),
    {
        let ghost p = self@;
        let n = self.entries.len();
        let mut i: usize = 0;
        while i < n
            invariant
                0 <= i <= n == self@.len(),
                self@ == p,
                p == old(self)@,
                kv_sorted(p),
                forall|l: int| 0 <= l < i ==> lex_lt(#[trigger] p[l].0, key@),
            decreases n - i,
        {
            let c = key_compare(&self.entries[i].0, &key);
            match c {
                KeyOrdering::Below => {
                    i = i + 1;
                },
                KeyOrdering::Equal => {
                    proof {
                        assert(p[i as int].0 == key@);
                        lemma_lex_irrefl(key@);
                        lemma_kv_insert_at(p, key@, m@, i as int);
                        assert(kv_insert(p, key@, m@) == p.update(i as int, (key@, m@)));
                    }
                    self.entries.set(i, (key, m));
                    proof {
                        assert(self@ =~= p.update(i as int, (key@, m@)));
                        assert(self@ == kv_insert(p, key@, m@));
                        lemma_kv_insert_sorted(p, key@, m@);
                    }
                    return ;
                },
                KeyOrdering::Above => {
                    proof {
                        assert(lex_lt(key@, p[i as int].0));
                        assert(p[i as int].0 != key@);
                        lemma_lex_asym(p[i as int].0, key@);
                        assert(!lex_lt(p[i as int].0, key@));
                        lemma_kv_insert_at(p, key@, m@, i as int);
                        assert(kv_insert(p, key@, m@) == p.insert(i as int, (key@, m@)));
                    }
                    self.entries.insert(i, (key, m));
                    proof {
                        assert(self@ =~= p.insert(i as int, (key@, m@)));
                        lemma_kv_insert_sorted(p, key@, m@);
                    }
                    return ;
                },
            }
        }
        proof {
            lemma_kv_insert_at(p, key@, m@, n as int);
        }
        self.entries.push((key, m));
        proof {
            assert(self@ =~= p.insert(n as int, (key@, m@)));
            lemma_kv_insert_sorted(p, key@, m@);
        }
    }

    /// Duplicate the map.
    pub fn dup(&self) -> (r: KvMap)
        ensures
            r@ == self@,
    {
        let mut entries: Vec<(Vec<u8>, Marked)> = Vec::new();
        let mut i: usize = 0;
        while i < self.entries.len()
            invariant
                0 <= i <= self.entries@.len(),
                entries@.len() == i,
                forall|k: int|
                    0 <= k < i ==> (#[trigger] entries@[k].0@, entries@[k].1@) == (
                        self.entries@[k].0@,
                        self.entries@[k].1@,
                    ),
            decreases self.entries@.len() - i,
        {
            let k = crate::bytes_order::key_dup(&self.entries[i].0);
            let v = self.entries[i].1.dup();
            entries.push((k, v));
            i = i + 1;
        }
        let r = KvMap { entries };
        proof {
            assert(r@ =~= self@);
        }
        r
    }
}

} // verus!
