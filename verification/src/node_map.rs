//! The cluster-node table of one level: an association list from node id to
//! [`Node`], kept strictly sorted by id.  Unlike the kv and expiration
//! indexes, membership changes remove entries physically.

use vstd::prelude::*;

use crate::types::Node;
use crate::types::NodeV;

verus! {

/// One image pair of the node table.
pub type NodePair = (u64, NodeV);

/// Ids strictly increase along the sequence.
pub open spec fn node_sorted(p: Seq<NodePair>) -> bool {
    forall|i: int, j: int| 0 <= i < j < p.len() ==> (#[trigger] p[i].0) < (#[trigger] p[j].0)
}

/// The node stored under `k`: the first pair whose id is `k`.
pub open spec fn node_lookup(p: Seq<NodePair>, k: u64) -> Option<NodeV>
    decreases p.len(),
{
    if p.len() == 0 {
        Option::None
    } else if p[0].0 == k {
        Option::Some(p[0].1)
    } else {
        node_lookup(p.skip(1), k)
    }
}

/// Insert or replace the node under `k`, keeping the sort order.
pub open spec fn node_insert(p: Seq<NodePair>, k: u64, v: NodeV) -> Seq<NodePair>
    decreases p.len(),
{
    if p.len() == 0 {
        seq![(k, v)]
    } else if k < p[0].0 {
        seq![(k, v)] + p
    } else if k == p[0].0 {
        p.update(0, (k, v))
    } else {
        seq![p[0]] + node_insert(p.skip(1), k, v)
    }
}

/// Remove the first pair keyed `k`, if any.
pub open spec fn node_remove(p: Seq<NodePair>, k: u64) -> Seq<NodePair>
    decreases p.len(),
{
    if p.len() == 0 {
        p
    } else if p[0].0 == k {
        p.skip(1)
    } else {
        seq![p[0]] + node_remove(p.skip(1), k)
    }
}

/// Inserting under `k` changes the lookup at `k` and nothing else.
pub proof fn lemma_node_insert_lookup(p: Seq<NodePair>, k: u64, v: NodeV, k2: u64)
    ensures
        k2 == k ==> node_lookup(node_insert(p, k, v), k2) == Option::Some(v),
        k2 != k ==> node_lookup(node_insert(p, k, v), k2) == node_lookup(p, k2),
    decreases p.len(),
{
    let q = node_insert(p, k, v);
    if p.len() == 0 {
        assert(q.skip(1) =~= Seq::<NodePair>::empty());
        assert(q[0] == (k, v));
        assert(node_lookup(Seq::<NodePair>::empty(), k2) == Option::<NodeV>::None);
    } else if k < p[0].0 {
        assert(q.skip(1) =~= p);
        assert(q[0] == (k, v));
    } else if k == p[0].0 {
        assert(q.skip(1) =~= p.skip(1));
        assert(q[0] == (k, v));
    } else {
        assert(q[0] == p[0]);
        assert(q.skip(1) =~= node_insert(p.skip(1), k, v));
        lemma_node_insert_lookup(p.skip(1), k, v, k2);
    }
}

/// Every pair of the insertion result is the new pair or a pair of `p`.
pub proof fn lemma_node_insert_pairs(p: Seq<NodePair>, k: u64, v: NodeV)
    ensures
        forall|i: int|
            0 <= i < node_insert(p, k, v).len() ==> (#[trigger] node_insert(p, k, v)[i]) == (
                k,
                v,
            ) || exists|j: int| 0 <= j < p.len() && p[j] == node_insert(p, k, v)[i],
    decreases p.len(),
{
    let q = node_insert(p, k, v);
    if p.len() == 0 {
    } else if k < p[0].0 {
        assert forall|i: int| 0 <= i < q.len() implies q[i] == (k, v) || exists|j: int|
            0 <= j < p.len() && p[j] == q[i] by {
            if i > 0 {
                assert(p[i - 1] == q[i]);
            }
        }
    } else if k == p[0].0 {
        assert forall|i: int| 0 <= i < q.len() implies q[i] == (k, v) || exists|j: int|
            0 <= j < p.len() && p[j] == q[i] by {
            if i > 0 {
                assert(p[i] == q[i]);
            }
        }
    } else {
        lemma_node_insert_pairs(p.skip(1), k, v);
        let qt = node_insert(p.skip(1), k, v);
        assert forall|i: int| 0 <= i < q.len() implies q[i] == (k, v) || exists|j: int|
            0 <= j < p.len() && p[j] == q[i] by {
            if i == 0 {
                assert(p[0] == q[0]);
            } else {
                assert(q[i] == qt[i - 1]);
                if qt[i - 1] == (k, v) {
                } else {
                    let j = choose|j: int| 0 <= j < p.skip(1).len() && p.skip(1)[j] == qt[i - 1];
                    assert(p[j + 1] == qt[i - 1]);
                }
            }
        }
    }
}

/// Insertion keeps the sequence sorted.
pub proof fn lemma_node_insert_sorted(p: Seq<NodePair>, k: u64, v: NodeV)
    requires
        node_sorted(p),
    ensures
        node_sorted(node_insert(p, k, v)),
    decreases p.len(),
{
    let q = node_insert(p, k, v);
    if p.len() == 0 {
    } else if k < p[0].0 {
        assert forall|i: int, j: int| 0 <= i < j < q.len() implies q[i].0 < q[j].0 by {
            if i > 0 {
                assert(q[i] == p[i - 1] && q[j] == p[j - 1]);
            } else if j > 1 {
                assert(q[j] == p[j - 1]);
            }
        }
    } else if k == p[0].0 {
        assert forall|i: int, j: int| 0 <= i < j < q.len() implies q[i].0 < q[j].0 by {
            assert(q[i].0 == p[i].0 && q[j].0 == p[j].0);
        }
    } else {
        assert(node_sorted(p.skip(1))) by {
            assert forall|a: int, b: int| 0 <= a < b < p.skip(1).len() implies p.skip(1)[a].0
                < p.skip(1)[b].0 by {
                assert(p.skip(1)[a] == p[a + 1] && p.skip(1)[b] == p[b + 1]);
            }
        }
        lemma_node_insert_sorted(p.skip(1), k, v);
        lemma_node_insert_pairs(p.skip(1), k, v);
        let qt = node_insert(p.skip(1), k, v);
        assert forall|i: int, j: int| 0 <= i < j < q.len() implies q[i].0 < q[j].0 by {
            if i == 0 {
                assert(q[j] == qt[j - 1]);
                if qt[j - 1] == (k, v) {
                } else {
                    let l = choose|l: int|
                        0 <= l < p.skip(1).len() && p.skip(1)[l] == qt[j - 1];
                    assert(p[l + 1] == qt[j - 1]);
                }
            } else {
                assert(q[i] == qt[i - 1] && q[j] == qt[j - 1]);
            }
        }
    }
}

/// Where `node_insert` lands for a given insertion point.
pub proof fn lemma_node_insert_at(p: Seq<NodePair>, k: u64, v: NodeV, i: int)
    requires
        node_sorted(p),
        0 <= i <= p.len(),
        forall|l: int| 0 <= l < i ==> (#[trigger] p[l].0) < k,
        i < p.len() ==> p[i].0 >= k,
    ensures
        i < p.len() && p[i].0 == k ==> node_insert(p, k, v) == p.update(i, (k, v)),
        !(i < p.len() && p[i].0 == k) ==> node_insert(p, k, v) == p.insert(i, (k, v)),
    decreases p.len(),
{
    if p.len() == 0 {
        assert(node_insert(p, k, v) =~= p.insert(0, (k, v)));
    } else if i == 0 {
        if p[0].0 == k {
        } else {
            assert(node_insert(p, k, v) =~= p.insert(0, (k, v)));
        }
    } else {
        assert(p[0].0 < k);
        assert(node_sorted(p.skip(1))) by {
            assert forall|a: int, b: int| 0 <= a < b < p.skip(1).len() implies p.skip(1)[a].0
                < p.skip(1)[b].0 by {
                assert(p.skip(1)[a] == p[a + 1] && p.skip(1)[b] == p[b + 1]);
            }
        }
        assert(forall|l: int| 0 <= l < i - 1 ==> (#[trigger] p.skip(1)[l].0) < k) by {
            assert(forall|l: int| 0 <= l < i - 1 ==> p.skip(1)[l] == p[l + 1]);
        }
        assert(i - 1 < p.skip(1).len() ==> p.skip(1)[i - 1].0 >= k);
        lemma_node_insert_at(p.skip(1), k, v, i - 1);
        if i < p.len() && p[i].0 == k {
            assert(p.skip(1)[i - 1].0 == k);
            assert(node_insert(p, k, v) =~= p.update(i, (k, v))) by {
                assert(node_insert(p, k, v) == seq![p[0]] + p.skip(1).update(i - 1, (k, v)));
            }
        } else {
            assert(node_insert(p, k, v) =~= p.insert(i, (k, v))) by {
                assert(node_insert(p, k, v) == seq![p[0]] + p.skip(1).insert(i - 1, (k, v)));
            }
        }
    }
}

/// Where `node_remove` lands: removal at the found index, identity when the
/// id is absent.
pub proof fn lemma_node_remove_at(p: Seq<NodePair>, k: u64, i: int)
    requires
        0 <= i <= p.len(),
        forall|l: int| 0 <= l < i ==> (#[trigger] p[l].0) != k,
        i < p.len() ==> p[i].0 == k,
    ensures
        i < p.len() ==> node_remove(p, k) == p.remove(i),
        i == p.len() ==> node_remove(p, k) == p,
    decreases p.len(),
{
    if p.len() == 0 {
    } else if i == 0 {
        if p[0].0 == k {
            assert(node_remove(p, k) =~= p.remove(0));
        }
    } else {
        assert(p[0].0 != k);
        assert(forall|l: int| 0 <= l < i - 1 ==> (#[trigger] p.skip(1)[l].0) != k) by {
            assert(forall|l: int| 0 <= l < i - 1 ==> p.skip(1)[l] == p[l + 1]);
        }
        assert(i - 1 < p.skip(1).len() ==> p.skip(1)[i - 1].0 == k);
        lemma_node_remove_at(p.skip(1), k, i - 1);
        if i < p.len() {
            assert(node_remove(p, k) =~= p.remove(i)) by {
                assert(node_remove(p, k) == seq![p[0]] + p.skip(1).remove(i - 1));
            }
        } else {
            assert(node_remove(p, k) =~= p) by {
                assert(node_remove(p, k) == seq![p[0]] + p.skip(1));
            }
        }
    }
}

/// Removing `k` changes the lookup at `k` and nothing else.
pub proof fn lemma_node_remove_lookup(p: Seq<NodePair>, k: u64, k2: u64)
    requires
        node_sorted(p),
    ensures
        k2 == k ==> node_lookup(node_remove(p, k), k2) is None,
        k2 != k ==> node_lookup(node_remove(p, k), k2) == node_lookup(p, k2),
    decreases p.len(),
{
    let q = node_remove(p, k);
    if p.len() == 0 {
    } else if p[0].0 == k {
        if k2 == k {
            if node_lookup(p.skip(1), k2) is Some {
                lemma_node_lookup_some_index(p.skip(1), k2);
                let i = choose|i: int|
                    0 <= i < p.skip(1).len() && (#[trigger] p.skip(1)[i]).0 == k2;
                assert(p[i + 1].0 == k2);
                assert(p[0].0 < p[i + 1].0);
            }
        }
    } else {
        assert(node_sorted(p.skip(1))) by {
            assert forall|a: int, b: int| 0 <= a < b < p.skip(1).len() implies p.skip(1)[a].0
                < p.skip(1)[b].0 by {
                assert(p.skip(1)[a] == p[a + 1] && p.skip(1)[b] == p[b + 1]);
            }
        }
        lemma_node_remove_lookup(p.skip(1), k, k2);
        assert(q[0] == p[0]);
        assert(q.skip(1) =~= node_remove(p.skip(1), k));
    }
}

/// A successful lookup names a pair of the sequence.
pub proof fn lemma_node_lookup_some_index(p: Seq<NodePair>, k: u64)
    requires
        node_lookup(p, k) is Some,
    ensures
        exists|i: int| 0 <= i < p.len() && (#[trigger] p[i]).0 == k,
    decreases p.len(),
{
    if p.len() == 0 {
    } else if p[0].0 == k {
        assert(p[0].0 == k);
    } else {
        lemma_node_lookup_some_index(p.skip(1), k);
        let i = choose|i: int| 0 <= i < p.skip(1).len() && (#[trigger] p.skip(1)[i]).0 == k;
        assert(p[i + 1].0 == k);
    }
}

/// Removal keeps the sequence sorted.
pub proof fn lemma_node_remove_sorted(p: Seq<NodePair>, k: u64)
    requires
        node_sorted(p),
    ensures
        node_sorted(node_remove(p, k)),
    decreases p.len(),
{
    let q = node_remove(p, k);
    if p.len() == 0 {
    } else if p[0].0 == k {
        assert forall|a: int, b: int| 0 <= a < b < q.len() implies q[a].0 < q[b].0 by {
            assert(q[a] == p[a + 1] && q[b] == p[b + 1]);
        }
    } else {
        assert(node_sorted(p.skip(1))) by {
            assert forall|a: int, b: int| 0 <= a < b < p.skip(1).len() implies p.skip(1)[a].0
                < p.skip(1)[b].0 by {
                assert(p.skip(1)[a] == p[a + 1] && p.skip(1)[b] == p[b + 1]);
            }
        }
        lemma_node_remove_sorted(p.skip(1), k);
        let qt = node_remove(p.skip(1), k);
        assert forall|a: int, b: int| 0 <= a < b < q.len() implies q[a].0 < q[b].0 by {
            assert(q[0] == p[0]);
            if a > 0 {
                assert(q[a] == qt[a - 1] && q[b] == qt[b - 1]);
            } else {
                assert(q[b] == qt[b - 1]);
                lemma_node_remove_pairs(p.skip(1), k);
                let l = choose|l: int|
                    0 <= l < p.skip(1).len() && (#[trigger] p.skip(1)[l]) == qt[b - 1];
                assert(p[l + 1] == qt[b - 1]);
            }
        }
    }
}

/// Every pair of the removal result is a pair of `p`.
pub proof fn lemma_node_remove_pairs(p: Seq<NodePair>, k: u64)
    ensures
        forall|i: int|
            0 <= i < node_remove(p, k).len() ==> exists|j: int|
                0 <= j < p.len() && (#[trigger] p[j]) == (#[trigger] node_remove(p, k)[i]),
    decreases p.len(),
{
    let q = node_remove(p, k);
    if p.len() == 0 {
    } else if p[0].0 == k {
        assert forall|i: int| #![trigger q[i]] 0 <= i < q.len() implies exists|j: int|
            0 <= j < p.len() && (#[trigger] p[j]) == q[i] by {
            assert(p[i + 1] == q[i]);
        }
    } else {
        lemma_node_remove_pairs(p.skip(1), k);
        let qt = node_remove(p.skip(1), k);
        assert forall|i: int| #![trigger q[i]] 0 <= i < q.len() implies exists|j: int|
            0 <= j < p.len() && (#[trigger] p[j]) == q[i] by {
            if i == 0 {
                assert(p[0] == q[0]);
            } else {
                assert(q[i] == qt[i - 1]);
                let j = choose|j: int|
                    0 <= j < p.skip(1).len() && (#[trigger] p.skip(1)[j]) == qt[i - 1];
                assert(p[j + 1] == qt[i - 1]);
            }
        }
    }
}

/// The cluster-node table of one level.
#[derive(Clone, PartialEq, Eq, Debug)]
pub struct NodeMap {
    entries: Vec<(u64, Node)>,
}

impl View for NodeMap {
    type V = Seq<NodePair>;

    closed spec fn view(&self) -> Seq<NodePair> {
        self.entries@.map_values(|p: (u64, Node)| (p.0, p.1@))
    }
}

impl NodeMap {
    /// Structural well-formedness: ids strictly sorted.
    pub open spec fn wf(self) -> bool {
        node_sorted(self@)
    }

    pub fn new() -> (r: NodeMap)
        ensures
            r@ == Seq::<NodePair>::empty(),
            r.wf(),
    {
        let r = NodeMap { entries: Vec::new() };
        proof {
            assert(r@ =~= Seq::<NodePair>::empty());
        }
        r
    }

    pub fn len(&self) -> (r: usize)
        ensures
            r == self@.len(),
    {
        self.entries.len()
    }

    /// The pair at index `i`, in id order.
    pub fn entry_at(&self, i: usize) -> (r: &(u64, Node))
        requires
            i < self@.len(),
        ensures
            (r.0, r.1@) == self@[i as int],
    {
        &self.entries[i]
    }

    /// Look an id up.
    pub fn get(&self, key: u64) -> (r: Option<&Node>)
        ensures
            match node_lookup(self@, key) {
                Option::None => r is None,
                Option::Some(v) => r matches Some(m) && m@ == v,
            },
    {
        let n = self.entries.len();
        let mut i: usize = 0;
        proof {
            assert(self@.skip(0) =~= self@);
        }
        while i < n
            invariant
                0 <= i <= n == self@.len(),
                node_lookup(self@, key) == node_lookup(self@.skip(i as int), key),
            decreases n - i,
        {
            proof {
                assert(self@.skip(i as int)[0] == self@[i as int]);
                assert(self@.skip(i as int).skip(1) =~= self@.skip(i as int + 1));
            }
            if self.entries[i].0 == key {
                return Option::Some(&self.entries[i].1);
            }
            i = i + 1;
        }
        Option::None
    }

    /// Insert or replace the node under `key`.
    pub fn insert(&mut self, key: u64, v: Node)
        requires
            old(self).wf(),
        ensures
            final(self)@ == node_insert(old(self)@, key, v@),
            final(self).wf(),
    {
        let ghost p = self@;
        let n = self.entries.len();
        let mut i: usize = 0;
        while i < n
            invariant
                0 <= i <= n == self@.len(),
                self@ == p,
                p == old(self)@,
                node_sorted(p),
                forall|l: int| 0 <= l < i ==> (#[trigger] p[l].0) < key,
            decreases n - i,
        {
            let cur = self.entries[i].0;
            if cur < key {
                i = i + 1;
            } else if cur == key {
                proof {
                    lemma_node_insert_at(p, key, v@, i as int);
                    assert(node_insert(p, key, v@) == p.update(i as int, (key, v@)));
                }
                self.entries.set(i, (key, v));
                proof {
                    assert(self@ =~= p.update(i as int, (key, v@)));
                    lemma_node_insert_sorted(p, key, v@);
                }
                return ;
            } else {
                proof {
                    lemma_node_insert_at(p, key, v@, i as int);
                    assert(node_insert(p, key, v@) == p.insert(i as int, (key, v@)));
                }
                self.entries.insert(i, (key, v));
                proof {
                    assert(self@ =~= p.insert(i as int, (key, v@)));
                    lemma_node_insert_sorted(p, key, v@);
                }
                return ;
            }
        }
        proof {
            lemma_node_insert_at(p, key, v@, n as int);
        }
        self.entries.push((key, v));
        proof {
            assert(self@ =~= p.insert(n as int, (key, v@)));
            lemma_node_insert_sorted(p, key, v@);
        }
    }

    /// Remove the node under `key`, returning it.
    pub fn remove(&mut self, key: u64) -> (r: Option<Node>)
        requires
            old(self).wf(),
        ensures
            final(self)@ == node_remove(old(self)@, key),
            final(self).wf(),
            match node_lookup(old(self)@, key) {
                Option::None => r is None,
                Option::Some(v) => r matches Some(x) && x@ == v,
            },
    {
        let ghost p = self@;
        let n = self.entries.len();
        let mut i: usize = 0;
        proof {
            assert(p.skip(0) =~= p);
        }
        while i < n
            invariant
                0 <= i <= n == self@.len(),
                self@ == p,
                p == old(self)@,
                node_sorted(p),
                forall|l: int| 0 <= l < i ==> (#[trigger] p[l].0) != key,
                node_lookup(p, key) == node_lookup(p.skip(i as int), key),
            decreases n - i,
        {
            proof {
                assert(p.skip(i as int)[0] == p[i as int]);
                assert(p.skip(i as int).skip(1) =~= p.skip(i as int + 1));
            }
            if self.entries[i].0 == key {
                proof {
                    lemma_node_remove_at(p, key, i as int);
                    lemma_node_remove_sorted(p, key);
                }
                let removed = self.entries.remove(i);
                proof {
                    assert(self@ =~= p.remove(i as int));
                }
                return Option::Some(removed.1);
            }
            i = i + 1;
        }
        proof {
            lemma_node_remove_at(p, key, n as int);
        }
        Option::None
    }

    /// Duplicate the table.
    pub fn dup(&self) -> (r: NodeMap)
        ensures
            r@ == self@,
    {
        let mut entries: Vec<(u64, Node)> = Vec::new();
        let mut i: usize = 0;
        while i < self.entries.len()
            invariant
                0 <= i <= self.entries@.len(),
                entries@.len() == i,
                forall|k: int|
                    0 <= k < i ==> (#[trigger] entries@[k].0, entries@[k].1@) == (
                        self.entries@[k].0,
                        self.entries@[k].1@,
                    ),
            decreases self.entries@.len() - i,
        {
            let k = self.entries[i].0;
            let v = self.entries[i].1.dup();
            entries.push((k, v));
            i = i + 1;
        }
        let r = NodeMap { entries };
        proof {
            assert(r@ =~= self@);
        }
        r
    }
}

} // verus!
