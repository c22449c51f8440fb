//! The secondary expiration index of one level: an association list keyed by
//! [`ExpireKey`] `(time_ms, seq)`, kept strictly sorted, holding [`Marked`]
//! records whose value is the primary key of the expiring entry.

use vstd::prelude::*;

use crate::types::ExpireKey;
use crate::types::expire_key_lt;
use crate::types::Marked;
use crate::types::MarkedV;

verus! {

/// One image pair of the expiration index.
pub type ExpPair = (ExpireKey, MarkedV);

/// Keys strictly increase along the sequence.
pub open spec fn exp_sorted(p: Seq<ExpPair>) -> bool {
    forall|i: int, j: int|
        0 <= i < j < p.len() ==> expire_key_lt(#[trigger] p[i].0, #[trigger] p[j].0)
}

/// The record stored under `k`: the first pair whose key is `k`.
pub open spec fn exp_lookup(p: Seq<ExpPair>, k: ExpireKey) -> Option<MarkedV>
    decreases p.len(),
{
    if p.len() == 0 {
        Option::None
    } else if p[0].0 == k {
        Option::Some(p[0].1)
    } else {
        exp_lookup(p.skip(1), k)
    }
}

/// `p` holds a pair keyed `k`.
pub open spec fn exp_has_key(p: Seq<ExpPair>, k: ExpireKey) -> bool {
    exists|i: int| 0 <= i < p.len() && p[i].0 == k
}

/// Insert or replace the record under `k`, keeping the sort order.
pub open spec fn exp_insert(p: Seq<ExpPair>, k: ExpireKey, v: MarkedV) -> Seq<ExpPair>
    decreases p.len(),
{
    if p.len() == 0 {
        seq![(k, v)]
    } else if expire_key_lt(k, p[0].0) {
        seq![(k, v)] + p
    } else if k == p[0].0 {
        p.update(0, (k, v))
    } else {
        seq![p[0]] + exp_insert(p.skip(1), k, v)
    }
}

/// Inserting under `k` changes the lookup at `k` and nothing else.
pub proof fn lemma_exp_insert_lookup(p: Seq<ExpPair>, k: ExpireKey, v: MarkedV, k2: ExpireKey)
    ensures
        k2 == k ==> exp_lookup(exp_insert(p, k, v), k2) == Option::Some(v),
        k2 != k ==> exp_lookup(exp_insert(p, k, v), k2) == exp_lookup(p, k2),
    decreases p.len(),
{
    let q = exp_insert(p, k, v);
    if p.len() == 0 {
        assert(q.skip(1) =~= Seq::<ExpPair>::empty());
        assert(q[0] == (k, v));
        assert(exp_lookup(Seq::<ExpPair>::empty(), k2) == Option::<MarkedV>::None);
        if k2 == k {
            assert(exp_lookup(q, k2) == Option::Some(v));
        } else {
            assert(exp_lookup(q, k2) == exp_lookup(p, k2));
        }
    } else if expire_key_lt(k, p[0].0) {
        assert(q.skip(1) =~= p);
        assert(q[0] == (k, v));
        if k2 == k {
            assert(exp_lookup(q, k2) == Option::Some(v));
        } else {
            assert(exp_lookup(q, k2) == exp_lookup(p, k2));
        }
    } else if k == p[0].0 {
        assert(q.skip(1) =~= p.skip(1));
        assert(q[0] == (k, v));
        if k2 == k {
            assert(exp_lookup(q, k2) == Option::Some(v));
        } else {
            assert(exp_lookup(q, k2) == exp_lookup(p, k2));
        }
    } else {
        assert(q[0] == p[0]);
        assert(q.skip(1) =~= exp_insert(p.skip(1), k, v));
        lemma_exp_insert_lookup(p.skip(1), k, v, k2);
        if k2 == k {
            assert(p[0].0 != k2);
            assert(exp_lookup(q, k2) == Option::Some(v));
        } else {
            assert(exp_lookup(q, k2) == exp_lookup(p, k2));
        }
    }
}

/// Every pair of the insertion result is the new pair or a pair of `p`.
pub proof fn lemma_exp_insert_pairs(p: Seq<ExpPair>, k: ExpireKey, v: MarkedV)
    ensures
        forall|i: int|
            0 <= i < exp_insert(p, k, v).len() ==> (#[trigger] exp_insert(p, k, v)[i]) == (k, v)
                || exists|j: int| 0 <= j < p.len() && p[j] == exp_insert(p, k, v)[i],
    decreases p.len(),
{
    let q = exp_insert(p, k, v);
    if p.len() == 0 {
    } else if expire_key_lt(k, p[0].0) {
        assert forall|i: int| 0 <= i < q.len() implies q[i] == (k, v) || exists|j: int|
            0 <= j < p.len() && p[j] == q[i] by {
            if i > 0 {
                assert(p[i - 1] == q[i]);
            }
        }
    } else if k == p[0].0 {
        assert forall|i: int| 0 <= i < q.len() implies q[i] == (k, v) || exists|j: int|
            0 <= j < p.len() && p[j] == q[i] by {
            if i > 0 {
                assert(p[i] == q[i]);
            }
        }
    } else {
        lemma_exp_insert_pairs(p.skip(1), k, v);
        let qt = exp_insert(p.skip(1), k, v);
        assert forall|i: int| 0 <= i < q.len() implies q[i] == (k, v) || exists|j: int|
            0 <= j < p.len() && p[j] == q[i] by {
            if i == 0 {
                assert(p[0] == q[0]);
            } else {
                assert(q[i] == qt[i - 1]);
                if qt[i - 1] == (k, v) {
                } else {
                    let j = choose|j: int| 0 <= j < p.skip(1).len() && p.skip(1)[j] == qt[i - 1];
                    assert(p[j + 1] == qt[i - 1]);
                }
            }
        }
    }
}

/// Insertion keeps the sequence sorted.
pub proof fn lemma_exp_insert_sorted(p: Seq<ExpPair>, k: ExpireKey, v: MarkedV)
    requires
        exp_sorted(p),
    ensures
        exp_sorted(exp_insert(p, k, v)),
    decreases p.len(),
{
    let q = exp_insert(p, k, v);
    if p.len() == 0 {
    } else if expire_key_lt(k, p[0].0) {
        assert forall|i: int, j: int| 0 <= i < j < q.len() implies expire_key_lt(
            q[i].0,
            q[j].0,
        ) by {
            if i > 0 {
                assert(q[i] == p[i - 1] && q[j] == p[j - 1]);
            } else if j > 1 {
                assert(q[j] == p[j - 1]);
            }
        }
    } else if k == p[0].0 {
        assert forall|i: int, j: int| 0 <= i < j < q.len() implies expire_key_lt(
            q[i].0,
            q[j].0,
        ) by {
            assert(q[i].0 == p[i].0 && q[j].0 == p[j].0);
        }
    } else {
        assert(expire_key_lt(p[0].0, k));
        assert(exp_sorted(p.skip(1))) by {
            assert forall|a: int, b: int| 0 <= a < b < p.skip(1).len() implies expire_key_lt(
                p.skip(1)[a].0,
                p.skip(1)[b].0,
            ) by {
                assert(p.skip(1)[a] == p[a + 1] && p.skip(1)[b] == p[b + 1]);
            }
        }
        lemma_exp_insert_sorted(p.skip(1), k, v);
        lemma_exp_insert_pairs(p.skip(1), k, v);
        let qt = exp_insert(p.skip(1), k, v);
        assert forall|i: int, j: int| 0 <= i < j < q.len() implies expire_key_lt(
            q[i].0,
            q[j].0,
        ) by {
            if i == 0 {
                assert(q[j] == qt[j - 1]);
                if qt[j - 1] == (k, v) {
                } else {
                    let l = choose|l: int|
                        0 <= l < p.skip(1).len() && p.skip(1)[l] == qt[j - 1];
                    assert(p[l + 1] == qt[j - 1]);
                    assert(expire_key_lt(p[0].0, p[l + 1].0));
                }
            } else {
                assert(q[i] == qt[i - 1] && q[j] == qt[j - 1]);
            }
        }
    }
}

/// Insertion grows the sequence by at most one pair.
pub proof fn lemma_exp_insert_len(p: Seq<ExpPair>, k: ExpireKey, v: MarkedV)
    ensures
        p.len() <= exp_insert(p, k, v).len() <= p.len() + 1,
    decreases p.len(),
{
    if p.len() == 0 {
    } else if expire_key_lt(k, p[0].0) {
    } else if k == p[0].0 {
    } else {
        lemma_exp_insert_len(p.skip(1), k, v);
    }
}

/// In a sorted sequence, the pair at any index is what lookup finds.
pub proof fn lemma_exp_lookup_at_index(p: Seq<ExpPair>, i: int)
    requires
        exp_sorted(p),
        0 <= i < p.len(),
    ensures
        exp_lookup(p, p[i].0) == Option::Some(p[i].1),
    decreases p.len(),
{
    if i == 0 {
    } else {
        assert(expire_key_lt(p[0].0, p[i].0));
        assert(exp_sorted(p.skip(1))) by {
            assert forall|a: int, b: int| 0 <= a < b < p.skip(1).len() implies expire_key_lt(
                p.skip(1)[a].0,
                p.skip(1)[b].0,
            ) by {
                assert(p.skip(1)[a] == p[a + 1] && p.skip(1)[b] == p[b + 1]);
            }
        }
        assert(p.skip(1)[i - 1] == p[i]);
        lemma_exp_lookup_at_index(p.skip(1), i - 1);
    }
}

/// A successful lookup names a pair of the sequence.
pub proof fn lemma_exp_lookup_some_index(p: Seq<ExpPair>, k: ExpireKey)
    requires
        exp_lookup(p, k) is Some,
    ensures
        exists|i: int|
            0 <= i < p.len() && (#[trigger] p[i]).0 == k && p[i].1 == exp_lookup(p, k).unwrap(),
    decreases p.len(),
{
    if p.len() == 0 {
    } else if p[0].0 == k {
        assert(p[0].0 == k && p[0].1 == exp_lookup(p, k).unwrap());
    } else {
        lemma_exp_lookup_some_index(p.skip(1), k);
        let i = choose|i: int|
            0 <= i < p.skip(1).len() && (#[trigger] p.skip(1)[i]).0 == k && p.skip(1)[i].1
                == exp_lookup(p.skip(1), k).unwrap();
        assert(p[i + 1].0 == k && p[i + 1].1 == exp_lookup(p, k).unwrap());
    }
}

/// A key present in the sequence is found by lookup, and conversely.
pub proof fn lemma_exp_lookup_has_key(p: Seq<ExpPair>, k: ExpireKey)
    ensures
        exp_has_key(p, k) <==> exp_lookup(p, k) is Some,
    decreases p.len(),
{
    if p.len() == 0 {
    } else if p[0].0 == k {
        assert(p[0].0 == k);
    } else {
        lemma_exp_lookup_has_key(p.skip(1), k);
        if exp_has_key(p, k) {
            let i = choose|i: int| 0 <= i < p.len() && p[i].0 == k;
            assert(p.skip(1)[i - 1].0 == k);
        }
        if exp_has_key(p.skip(1), k) {
            let i = choose|i: int| 0 <= i < p.skip(1).len() && p.skip(1)[i].0 == k;
            assert(p[i + 1].0 == k);
        }
    }
}

/// Looking up in a sequence extended by one pair at the back.
pub proof fn lemma_exp_lookup_push(q: Seq<ExpPair>, x: ExpPair, k2: ExpireKey)
    ensures
        exp_lookup(q.push(x), k2) == match exp_lookup(q, k2) {
            Option::Some(v) => Option::Some(v),
            Option::None => if x.0 == k2 {
                Option::Some(x.1)
            } else {
                Option::None
            },
        },
    decreases q.len(),
{
    if q.len() == 0 {
        assert(q.push(x)[0] == x);
        assert(q.push(x).skip(1) =~= Seq::<ExpPair>::empty());
        assert(exp_lookup(Seq::<ExpPair>::empty(), k2) == Option::<MarkedV>::None);
    } else {
        assert(q.push(x)[0] == q[0]);
        assert(q.push(x).skip(1) =~= q.skip(1).push(x));
        lemma_exp_lookup_push(q.skip(1), x, k2);
    }
}

/// Where `exp_insert` lands for a given insertion point.
pub proof fn lemma_exp_insert_at(p: Seq<ExpPair>, k: ExpireKey, v: MarkedV, i: int)
    requires
        exp_sorted(p),
        0 <= i <= p.len(),
        forall|l: int| 0 <= l < i ==> expire_key_lt(#[trigger] p[l].0, k),
        i < p.len() ==> !expire_key_lt(p[i].0, k),
    ensures
        i < p.len() && p[i].0 == k ==> exp_insert(p, k, v) == p.update(i, (k, v)),
        !(i < p.len() && p[i].0 == k) ==> exp_insert(p, k, v) == p.insert(i, (k, v)),
    decreases p.len(),
{
    if p.len() == 0 {
        assert(exp_insert(p, k, v) =~= p.insert(0, (k, v)));
    } else if i == 0 {
        if p[0].0 == k {
        } else {
            assert(expire_key_lt(k, p[0].0));
            assert(exp_insert(p, k, v) =~= p.insert(0, (k, v)));
        }
    } else {
        assert(expire_key_lt(p[0].0, k));
        assert(exp_sorted(p.skip(1))) by {
            assert forall|a: int, b: int| 0 <= a < b < p.skip(1).len() implies expire_key_lt(
                p.skip(1)[a].0,
                p.skip(1)[b].0,
            ) by {
                assert(p.skip(1)[a] == p[a + 1] && p.skip(1)[b] == p[b + 1]);
            }
        }
        assert(forall|l: int| 0 <= l < i - 1 ==> expire_key_lt(#[trigger] p.skip(1)[l].0, k)) by {
            assert(forall|l: int| 0 <= l < i - 1 ==> p.skip(1)[l] == p[l + 1]);
        }
        assert(i - 1 < p.skip(1).len() ==> !expire_key_lt(p.skip(1)[i - 1].0, k));
        lemma_exp_insert_at(p.skip(1), k, v, i - 1);
        if i < p.len() && p[i].0 == k {
            assert(p.skip(1)[i - 1].0 == k);
            assert(exp_insert(p, k, v) =~= p.update(i, (k, v))) by {
                assert(exp_insert(p, k, v) == seq![p[0]] + p.skip(1).update(i - 1, (k, v)));
            }
        } else {
            assert(exp_insert(p, k, v) =~= p.insert(i, (k, v))) by {
                assert(exp_insert(p, k, v) == seq![p[0]] + p.skip(1).insert(i - 1, (k, v)));
            }
        }
    }
}

/// The expiration index of one level.
#[derive(Clone, PartialEq, Eq, Debug)]
pub struct ExpireMap {
    entries: Vec<(ExpireKey, Marked)>,
}

impl View for ExpireMap {
    type V = Seq<ExpPair>;

    closed spec fn view(&self) -> Seq<ExpPair> {
        self.entries@.map_values(|p: (ExpireKey, Marked)| (p.0, p.1@))
    }
}

/// Compare two expiration keys.
pub fn expire_key_is_lt(a: &ExpireKey, b: &ExpireKey) -> (r: bool)
    ensures
        r == expire_key_lt(*a, *b),
{
    if a.time_ms != b.time_ms {
        a.time_ms < b.time_ms
    } else {
        a.seq < b.seq
    }
}

impl ExpireMap {
    /// Structural well-formedness: keys strictly sorted.
    pub open spec fn wf(self) -> bool {
        exp_sorted(self@)
    }

    pub fn new() -> (r: ExpireMap)
        ensures
            r@ == Seq::<ExpPair>::empty(),
            r.wf(),
    {
        let r = ExpireMap { entries: Vec::new() };
        proof {
            assert(r@ =~= Seq::<ExpPair>::empty());
        }
        r
    }

    pub fn len(&self) -> (r: usize)
        ensures
            r == self@.len(),
    {
        self.entries.len()
    }

    /// The pair at index `i`, in key order.
    pub fn entry_at(&self, i: usize) -> (r: &(ExpireKey, Marked))
        requires
            i < self@.len(),
        ensures
            (r.0, r.1@) == self@[i as int],
    {
        &self.entries[i]
    }

    /// Look a key up.
    pub fn get(&self, key: &ExpireKey) -> (r: Option<&Marked>)
        ensures
            match exp_lookup(self@, *key) {
                Option::None => r is None,
                Option::Some(v) => r matches Some(m) && m@ == v,
            },
    {
        let n = self.entries.len();
        let mut i: usize = 0;
        proof {
            assert(self@.skip(0) =~= self@);
        }
        while i < n
            invariant
                0 <= i <= n == self@.len(),
                exp_lookup(self@, *key) == exp_lookup(self@.skip(i as int), *key),
            decreases n - i,
        {
            proof {
                assert(self@.skip(i as int)[0] == self@[i as int]);
                assert(self@.skip(i as int).skip(1) =~= self@.skip(i as int + 1));
            }
            if self.entries[i].0.time_ms == key.time_ms && self.entries[i].0.seq == key.seq {
                return Option::Some(&self.entries[i].1);
            }
            i = i + 1;
        }
        Option::None
    }

    /// Insert or replace the record under `key`.
    pub fn insert(&mut self, key: ExpireKey, m: Marked)
        requires
            old(self).wf(),
        ensures
            final(self)@ == exp_insert(old(self)@, key, m@),
            final(self).wf(),
    {
        let ghost p = self@;
        let n = self.entries.len();
        let mut i: usize = 0;
        while i < n
            invariant
                0 <= i <= n == self@.len(),
                self@ == p,
                p == old(self)@,
                exp_sorted(p),
                forall|l: int| 0 <= l < i ==> expire_key_lt(#[trigger] p[l].0, key),
            decreases n - i,
        {
            let cur = self.entries[i].0;
            if expire_key_is_lt(&cur, &key) {
                i = i + 1;
            } else if cur.time_ms == key.time_ms && cur.seq == key.seq {
                proof {
                    assert(p[i as int].0 == key);
                    lemma_exp_insert_at(p, key, m@, i as int);
                    assert(exp_insert(p, key, m@) == p.update(i as int, (key, m@)));
                }
                self.entries.set(i, (key, m));
                proof {
                    assert(self@ =~= p.update(i as int, (key, m@)));
                    lemma_exp_insert_sorted(p, key, m@);
                }
                return ;
            } else {
                proof {
                    assert(p[i as int].0 != key);
                    assert(!expire_key_lt(p[i as int].0, key));
                    lemma_exp_insert_at(p, key, m@, i as int);
                    assert(exp_insert(p, key, m@) == p.insert(i as int, (key, m@)));
                }
                self.entries.insert(i, (key, m));
                proof {
                    assert(self@ =~= p.insert(i as int, (key, m@)));
                    lemma_exp_insert_sorted(p, key, m@);
                }
                return ;
            }
        }
        proof {
            lemma_exp_insert_at(p, key, m@, n as int);
        }
        self.entries.push((key, m));
        proof {
            assert(self@ =~= p.insert(n as int, (key, m@)));
            lemma_exp_insert_sorted(p, key, m@);
        }
    }

    /// Duplicate the map.
    pub fn dup(&self) -> (r: ExpireMap)
        ensures
            r@ == self@,
    {
        let mut entries: Vec<(ExpireKey, Marked)> = Vec::new();
        let mut i: usize = 0;
        while i < self.entries.len()
            invariant
                0 <= i <= self.entries@.len(),
                entries@.len() == i,
                forall|k: int|
                    0 <= k < i ==> (#[trigger] entries@[k].0, entries@[k].1@) == (
                        self.entries@[k].0,
                        self.entries@[k].1@,
                    ),
            decreases self.entries@.len() - i,
        {
            let k = self.entries[i].0;
            let v = self.entries[i].1.dup();
            entries.push((k, v));
            i = i + 1;
        }
        let r = ExpireMap { entries };
        proof {
            assert(r@ =~= self@);
        }
        r
    }
}

} // verus!
