//! The on-disk data descriptor and the forward-upgrade chain.
//!
//! The store is modeled as named trees of generation-tagged records plus a
//! header slot and a snapshot list; the upgrade routines drive the
//! crash-safe header state machine: set `upgrading`, transform, set
//! `version` and clear `upgrading`.  A crash between the steps is resumed
//! from the persisted header on the next start.

use vstd::prelude::*;

use crate::bytes_order::key_has_prefix;
use crate::data_version::DataVersion;
use crate::data_version::Header;
use crate::snapshot::RaftStoreEntry;
use crate::snapshot::StateMachineMetaKey;

verus! {

/// Errors of opening or upgrading a store.
#[derive(Clone, Copy, PartialEq, Eq, Debug)]
pub enum StorageError {
    /// The on-disk version is below the oldest one this build can read.
    VersionTooOld { version: DataVersion },
    /// An unfinished upgrade to a version whose cleanup is unknown.
    UnknownUpgrading { target: DataVersion },
    /// The transition out of this version is reserved and not yet defined.
    UpgradeUnimplemented { from: DataVersion },
}

/// The operator-facing description of a startup error.
pub open spec fn storage_error_message(e: StorageError) -> Seq<char> {
    match e {
        StorageError::VersionTooOld { .. } => "on-disk data version is too old for this build; run the newest release that still reads it so it migrates the data first"@,
        StorageError::UnknownUpgrading { .. } => "the store carries an unfinished upgrade to a version this build cannot resume"@,
        StorageError::UpgradeUnimplemented { .. } => "the upgrade out of this data version is reserved and not yet defined"@,
    }
}

impl StorageError {
    /// The operator-facing diagnostic for this error, printed at startup.
    pub fn message(&self) -> (r: String)
        ensures
            r@ == storage_error_message(*self),
    {
        broadcast use vstd::string::to_string_from_display_ensures_for_str;

        match self {
            StorageError::VersionTooOld { .. } => "on-disk data version is too old for this build; run the newest release that still reads it so it migrates the data first".to_string(),
            StorageError::UnknownUpgrading { .. } => "the store carries an unfinished upgrade to a version this build cannot resume".to_string(),
            StorageError::UpgradeUnimplemented { .. } => "the upgrade out of this data version is reserved and not yet defined".to_string(),
        }
    }
}

/// One stored record: the schema generation it was serialized under, and
/// the record itself.
#[derive(Clone, PartialEq, Eq, Debug)]
pub struct StoreRecord {
    pub generation: DataVersion,
    pub entry: RaftStoreEntry,
}

/// One named tree of records.
#[derive(Clone, PartialEq, Eq, Debug)]
pub struct StoreTree {
    pub name: Vec<u8>,
    pub records: Vec<StoreRecord>,
}

/// The modeled persistent store: the header slot, the record trees, and
/// the snapshot files written by upgrades.
#[derive(Clone, PartialEq, Eq, Debug)]
pub struct OnDiskStore {
    pub header: Option<Header>,
    pub trees: Vec<StoreTree>,
    pub snapshots: Vec<Vec<RaftStoreEntry>>,
}

impl OnDiskStore {
    pub fn new() -> (r: OnDiskStore)
        ensures
            r.header is None,
            r.trees@.len() == 0,
            r.snapshots@.len() == 0,
    {
        OnDiskStore { header: Option::None, trees: Vec::new(), snapshots: Vec::new() }
    }
}

/// The prefix of state-machine tree names.
pub open spec fn sm_tree_prefix() -> Seq<u8> {
    seq![115u8, 116u8, 97u8, 116u8, 101u8, 95u8, 109u8, 97u8, 99u8, 104u8, 105u8, 110u8, 101u8,
        47u8]
}

/// Build the state-machine tree-name prefix `state_machine/`.
pub fn make_sm_tree_prefix() -> (r: Vec<u8>)
    ensures
        r@ == sm_tree_prefix(),
{
    let mut v: Vec<u8> = Vec::new();
    v.push(115u8);
    v.push(116u8);
    v.push(97u8);
    v.push(116u8);
    v.push(101u8);
    v.push(95u8);
    v.push(109u8);
    v.push(97u8);
    v.push(99u8);
    v.push(104u8);
    v.push(105u8);
    v.push(110u8);
    v.push(101u8);
    v.push(47u8);
    proof {
        assert(v@ =~= sm_tree_prefix());
    }
    v
}

/// All bytes are ASCII decimal digits.
pub open spec fn dec_digits(s: Seq<u8>) -> bool {
    forall|i: int| 0 <= i < s.len() ==> 48 <= #[trigger] s[i] <= 57
}

/// The number a digit string denotes, most significant digit first.
pub open spec fn dec_value(s: Seq<u8>) -> int
    decreases s.len(),
{
    if s.len() == 0 {
        0
    } else {
        dec_value(s.drop_last()) * 10 + (s.last() - 48)
    }
}

/// A digit string's prefixes denote values no greater than the whole.
pub proof fn lemma_dec_value_nonneg(s: Seq<u8>, j: int)
    requires
        0 <= j <= s.len(),
        dec_digits(s),
    ensures
        dec_value(s.take(j)) >= 0,
    decreases j,
{
    if j > 0 {
        lemma_dec_value_nonneg(s, j - 1);
        assert(s.take(j).drop_last() =~= s.take(j - 1));
        assert(s.take(j).last() == s[j - 1]);
    }
}

pub proof fn lemma_dec_value_prefix(s: Seq<u8>, j: int)
    requires
        0 <= j <= s.len(),
        dec_digits(s),
    ensures
        dec_value(s.take(j)) <= dec_value(s),
    decreases s.len() - j,
{
    if j == s.len() {
        assert(s.take(j) =~= s);
    } else {
        lemma_dec_value_prefix(s, j + 1);
        lemma_dec_value_nonneg(s, j);
        assert(s.take(j + 1).drop_last() =~= s.take(j));
        assert(s.take(j + 1).last() == s[j]);
    }
}

/// Parse an unsigned decimal number; `None` on empty input, a non-digit,
/// or overflow.
pub fn parse_u64_dec(s: &[u8]) -> (r: Option<u64>)
    ensures
        match r {
            Option::Some(n) => s@.len() > 0 && dec_digits(s@) && n == dec_value(s@),
            Option::None => s@.len() == 0 || !dec_digits(s@) || dec_value(s@) > u64::MAX,
        },
{
    if s.len() == 0 {
        return Option::None;
    }
    let mut n: u64 = 0;
    let mut i: usize = 0;
    while i < s.len()
        invariant
            0 <= i <= s@.len(),
            s@.len() > 0,
            forall|l: int| 0 <= l < i ==> 48 <= #[trigger] s@[l] <= 57,
            n == dec_value(s@.take(i as int)),
        decreases s@.len() - i,
    {
        let b = s[i];
        if b < 48 || b > 57 {
            proof {
                assert(!(48 <= s@[i as int] <= 57));
            }
            return Option::None;
        }
        let d = (b - 48) as u64;
        let q = (0xffff_ffff_ffff_ffffu64 - d) / 10;
        proof {
            let x = (0xffff_ffff_ffff_ffffu64 - d) as int;
            assert(x == 10 * (x / 10) + x % 10 && 0 <= x % 10 < 10) by (nonlinear_arith);
            assert(s@.take(i as int + 1).drop_last() =~= s@.take(i as int));
            assert(s@.take(i as int + 1).last() == s@[i as int]);
        }
        if n > q {
            proof {
                assert(n * 10 >= (q + 1) * 10) by (nonlinear_arith)
                    requires
                        n >= q + 1,
                ;
                assert(dec_value(s@.take(i as int + 1)) > u64::MAX);
                if dec_digits(s@) {
                    lemma_dec_value_prefix(s@, i as int + 1);
                }
            }
            return Option::None;
        }
        proof {
            assert(n * 10 <= q * 10) by (nonlinear_arith)
                requires
                    n <= q,
            ;
        }
        n = n * 10 + d;
        i = i + 1;
    }
    proof {
        assert(s@.take(s@.len() as int) =~= s@);
    }
    Option::Some(n)
}

/// The trailing id of a state-machine tree name: the decimal number after
/// the `state_machine/` prefix, when the name has that shape.
pub open spec fn sm_tree_id(name: Seq<u8>) -> Option<int> {
    if crate::bytes_order::is_prefix_of(sm_tree_prefix(), name) {
        let rest = name.skip(sm_tree_prefix().len() as int);
        if rest.len() > 0 && dec_digits(rest) && dec_value(rest) <= u64::MAX {
            Option::Some(dec_value(rest))
        } else {
            Option::None
        }
    } else {
        Option::None
    }
}

/// Some tree of the store is a state-machine tree.
pub open spec fn has_sm_tree(trees: Seq<StoreTree>) -> bool {
    exists|j: int| 0 <= j < trees.len() && (#[trigger] sm_tree_id(trees[j].name@)) is Some
}

/// The tree at `idx` is a state-machine tree with the smallest trailing id.
pub open spec fn min_sm_tree_at(trees: Seq<StoreTree>, idx: int) -> bool {
    &&& 0 <= idx < trees.len()
    &&& sm_tree_id(trees[idx].name@) is Some
    &&& forall|j: int|
        0 <= j < trees.len() && (#[trigger] sm_tree_id(trees[j].name@)) is Some ==> sm_tree_id(
            trees[idx].name@,
        ).unwrap() <= sm_tree_id(trees[j].name@).unwrap()
}

/// Whether a record is the retired `Initialized` marker, which upgrades
/// drop.
pub open spec fn is_init_marker(e: crate::snapshot::RaftStoreEntryV) -> bool {
    e matches crate::snapshot::RaftStoreEntryV::StateMachineMeta {
        key: StateMachineMetaKey::Initialized,
        ..
    }
}

/// The snapshot a tree's records export: every record in order, minus the
/// retired `Initialized` marker.
pub open spec fn tree_export(rs: Seq<StoreRecord>) -> Seq<crate::snapshot::RaftStoreEntryV>
    decreases rs.len(),
{
    if rs.len() == 0 {
        Seq::empty()
    } else {
        tree_export(rs.drop_last()) + (if is_init_marker(rs.last().entry@) {
            Seq::empty()
        } else {
            seq![rs.last().entry@]
        })
    }
}

/// The views of a list of store entries.
pub open spec fn entries_v(es: Seq<RaftStoreEntry>) -> Seq<crate::snapshot::RaftStoreEntryV> {
    es.map_values(|e: RaftStoreEntry| e@)
}

/// The trees that survive dropping every state-machine tree, in order.
pub open spec fn keep_non_sm(a: Seq<StoreTree>) -> Seq<StoreTree>
    decreases a.len(),
{
    if a.len() == 0 {
        a
    } else if crate::bytes_order::is_prefix_of(sm_tree_prefix(), a.first().name@) {
        keep_non_sm(a.skip(1))
    } else {
        seq![a.first()] + keep_non_sm(a.skip(1))
    }
}

/// Record lists that differ only in the generation tag, rewritten to
/// `V001`.
pub open spec fn records_retagged(a: Seq<StoreRecord>, b: Seq<StoreRecord>) -> bool {
    &&& b.len() == a.len()
    &&& forall|j: int|
        0 <= j < a.len() ==> (#[trigger] b[j]).generation == DataVersion::V001 && b[j].entry
            == a[j].entry
}

/// Tree lists of the same names whose records were all retagged to `V001`.
pub open spec fn trees_retagged(a: Seq<StoreTree>, b: Seq<StoreTree>) -> bool {
    &&& b.len() == a.len()
    &&& forall|i: int|
        0 <= i < a.len() ==> (#[trigger] b[i]).name == a[i].name && records_retagged(
            a[i].records@,
            b[i].records@,
        )
}

/// The snapshot list after the `V001` to `V002` transition over `trees`:
/// one snapshot appended, the export of a minimal state-machine tree, when
/// such a tree exists.
pub open spec fn v002_snapshots_ok(
    trees: Seq<StoreTree>,
    snaps0: Seq<Vec<RaftStoreEntry>>,
    snaps1: Seq<Vec<RaftStoreEntry>>,
) -> bool {
    &&& snaps1.len() == snaps0.len() + (if has_sm_tree(trees) {
        1int
    } else {
        0int
    })
    &&& forall|i: int| 0 <= i < snaps0.len() ==> #[trigger] snaps1[i] == snaps0[i]
    &&& (has_sm_tree(trees) ==> exists|idx: int|
        #[trigger] min_sm_tree_at(trees, idx) && entries_v(snaps1.last()@) == tree_export(
            trees[idx].records@,
        ))
}

/// The on-disk data descriptor.  It is loaded before any other data, and
/// drives the upgrade chain when the data belongs to an older generation.
#[derive(Clone, Copy, PartialEq, Eq, Debug)]
pub struct OnDisk {
    pub header: Header,
}

impl OnDisk {
    /// Load the descriptor.  A store without a header is a fresh `V0`
    /// store and gets one written.  A store older than the minimum
    /// compatible version is refused.
    pub fn open(store: &mut OnDiskStore) -> (r: Result<OnDisk, StorageError>)
        ensures
            match old(store).header {
                Option::Some(h) => {
                    if h.version.spec_index()
                        < crate::data_version::spec_data_version().spec_min_compatible().spec_index() {
                        &&& r == Result::<OnDisk, StorageError>::Err(
                            StorageError::VersionTooOld { version: h.version },
                        )
                        &&& *final(store) == *old(store)
                    } else {
                        &&& r matches Ok(od) && od.header == h
                        &&& *final(store) == *old(store)
                    }
                },
                Option::None => {
                    &&& r matches Ok(od) && od.header == (Header {
                        version: DataVersion::V0,
                        upgrading: Option::None,
                    })
                    &&& final(store).header == Option::Some(
                        (Header { version: DataVersion::V0, upgrading: Option::None }),
                    )
                    &&& final(store).trees == old(store).trees
                    &&& final(store).snapshots == old(store).snapshots
                },
            },
    {
        let current = DataVersion::current();
        let min = current.min_compatible_data_version();
        match store.header {
            Option::Some(h) => {
                if h.version.is_older_than(&min) {
                    Result::Err(StorageError::VersionTooOld { version: h.version })
                } else {
                    Result::Ok(OnDisk { header: h })
                }
            },
            Option::None => {
                let h = Header { version: DataVersion::V0, upgrading: Option::None };
                store.header = Option::Some(h);
                Result::Ok(OnDisk { header: h })
            },
        }
    }

    /// Persist the in-memory header.
    fn write_header(&self, store: &mut OnDiskStore)
        ensures
            final(store).header == Option::Some(self.header),
            final(store).trees == old(store).trees,
            final(store).snapshots == old(store).snapshots,
    {
        store.header = Option::Some(self.header);
    }

    /// Re-serialize every record of every tree through the version-aware
    /// codec: both old generations are read, the `V001` generation is
    /// written.  Crash-safe: the `upgrading` mark is persisted before the
    /// transformation and cleared with the version bump after it.
    pub fn upgrade_v0_to_v001(&mut self, store: &mut OnDiskStore) -> (r: Result<
        (),
        StorageError,
    >)
        requires
            old(self).header.version == DataVersion::V0,
            old(self).header.upgrading is None,
        ensures
            r is Ok,
            final(self).header == (Header {
                version: DataVersion::V001,
                upgrading: Option::None,
            }),
            final(store).header == Option::Some(final(self).header),
            final(store).snapshots == old(store).snapshots,
            final(store).trees@.len() == old(store).trees@.len(),
            forall|i: int|
                0 <= i < old(store).trees@.len() ==> {
                    &&& (#[trigger] final(store).trees@[i]).name == old(store).trees@[i].name
                    &&& final(store).trees@[i].records@.len() == old(
                        store,
                    ).trees@[i].records@.len()
                    &&& forall|j: int|
                        0 <= j < old(store).trees@[i].records@.len() ==> {
                            &&& (#[trigger] final(store).trees@[i].records@[j]).generation
                                == DataVersion::V001
                            &&& final(store).trees@[i].records@[j].entry == old(
                                store,
                            ).trees@[i].records@[j].entry
                        }
                },
            trees_retagged(old(store).trees@, final(store).trees@),
    {
        self.header.upgrading = Option::Some(DataVersion::V001);
        self.write_header(store);

        let ghost trees0 = store.trees@;
        let n = store.trees.len();
        let mut i: usize = 0;
        while i < n
            invariant
                0 <= i <= n == store.trees@.len(),
                trees0.len() == n,
                store.header == Option::Some(self.header),
                store.snapshots == old(store).snapshots,
                forall|l: int|
                    0 <= l < n ==> (#[trigger] store.trees@[l]).name == trees0[l].name
                        && store.trees@[l].records@.len() == trees0[l].records@.len(),
                forall|l: int, j: int|
                    0 <= l < i && 0 <= j < trees0[l].records@.len() ==> {
                        &&& (#[trigger] store.trees@[l].records@[j]).generation
                            == DataVersion::V001
                        &&& store.trees@[l].records@[j].entry == trees0[l].records@[j].entry
                    },
                forall|l: int, j: int|
                    i <= l < n && 0 <= j < trees0[l].records@.len()
                        ==> (#[trigger] store.trees@[l].records@[j]) == trees0[l].records@[j],
            decreases n - i,
        {
            let rn = store.trees[i].records.len();
            let mut j: usize = 0;
            while j < rn
                invariant
                    0 <= i < n == store.trees@.len(),
                    0 <= j <= rn == store.trees@[i as int].records@.len(),
                    trees0.len() == n,
                    store.header == Option::Some(self.header),
                    store.snapshots == old(store).snapshots,
                    forall|l: int|
                        0 <= l < n ==> (#[trigger] store.trees@[l]).name == trees0[l].name
                            && store.trees@[l].records@.len() == trees0[l].records@.len(),
                    forall|l: int, j2: int|
                        0 <= l < i && 0 <= j2 < trees0[l].records@.len() ==> {
                            &&& (#[trigger] store.trees@[l].records@[j2]).generation
                                == DataVersion::V001
                            &&& store.trees@[l].records@[j2].entry == trees0[l].records@[
                                j2].entry
                        },
                    forall|j2: int|
                        0 <= j2 < j ==> {
                            &&& (#[trigger] store.trees@[i as int].records@[j2]).generation
                                == DataVersion::V001
                            &&& store.trees@[i as int].records@[j2].entry == trees0[
                                i as int].records@[j2].entry
                        },
                    forall|j2: int|
                        j <= j2 < rn ==> (#[trigger] store.trees@[i as int].records@[j2])
                            == trees0[i as int].records@[j2],
                    forall|l: int, j2: int|
                        i < l < n && 0 <= j2 < trees0[l].records@.len()
                            ==> (#[trigger] store.trees@[l].records@[j2]) == trees0[l].records@[
                            j2],
                decreases rn - j,
            {
                let tree = &mut store.trees[i];
                let rec = &mut tree.records[j];
                rec.generation = DataVersion::V001;
                j = j + 1;
            }
            i = i + 1;
        }

        self.header.version = DataVersion::V001;
        self.header.upgrading = Option::None;
        self.write_header(store);
        Result::Ok(())
    }

    /// Find the state-machine tree with the smallest trailing id.  When
    /// installing a snapshot there may be two such trees; the one with the
    /// larger id may be partially installed and is discarded.
    fn find_min_sm_tree(&self, store: &OnDiskStore) -> (r: Option<usize>)
        ensures
            match r {
                Option::Some(i) => min_sm_tree_at(store.trees@, i as int),
                Option::None => !has_sm_tree(store.trees@),
            },
    {
        let prefix = make_sm_tree_prefix();
        let mut best: Option<usize> = Option::None;
        let mut best_id: u64 = 0;
        let n = store.trees.len();
        let mut i: usize = 0;
        while i < n
            invariant
                0 <= i <= n == store.trees@.len(),
                prefix@ == sm_tree_prefix(),
                match best {
                    Option::Some(b) => b < store.trees@.len() && sm_tree_id(
                        store.trees@[b as int].name@,
                    ) == Option::Some(best_id as int) && forall|j: int|
                        0 <= j < i && (#[trigger] sm_tree_id(store.trees@[j].name@)) is Some
                            ==> best_id <= sm_tree_id(store.trees@[j].name@).unwrap(),
                    Option::None => forall|j: int|
                        0 <= j < i ==> (#[trigger] sm_tree_id(store.trees@[j].name@)) is None,
                },
            decreases n - i,
        {
            let name = &store.trees[i].name;
            if key_has_prefix(name, &prefix) {
                let rest = name.split_at(prefix.len()).1;
                proof {
                    assert(rest@ =~= name@.skip(sm_tree_prefix().len() as int));
                }
                match parse_u64_dec(rest) {
                    Option::Some(id) => {
                        proof {
                            assert(sm_tree_id(name@) == Option::Some(id as int));
                        }
                        let take = match best {
                            Option::Some(_) => id < best_id,
                            Option::None => true,
                        };
                        if take {
                            best = Option::Some(i);
                            best_id = id;
                        }
                    },
                    Option::None => {
                        proof {
                            assert(sm_tree_id(name@) is None);
                        }
                    },
                }
            } else {
                proof {
                    assert(sm_tree_id(name@) is None);
                }
            }
            i = i + 1;
        }
        best
    }

    /// Build a `V002` snapshot from the chosen state-machine tree: every
    /// record except the retired `Initialized` marker is written out, in
    /// record order.
    fn dump_sm_tree_to_snapshot(&self, store: &mut OnDiskStore, tree_idx: usize)
        requires
            tree_idx < old(store).trees@.len(),
        ensures
            final(store).header == old(store).header,
            final(store).trees == old(store).trees,
            final(store).snapshots@.len() == old(store).snapshots@.len() + 1,
            forall|i: int|
                0 <= i < old(store).snapshots@.len() ==> (#[trigger] final(store).snapshots@[i])
                    == old(store).snapshots@[i],
            entries_v(final(store).snapshots@.last()@) == tree_export(
                old(store).trees@[tree_idx as int].records@,
            ),
    {
        let ghost recs = store.trees@[tree_idx as int].records@;
        let mut entries: Vec<RaftStoreEntry> = Vec::new();
        proof {
            assert(recs.take(0) =~= Seq::<StoreRecord>::empty());
            assert(entries_v(entries@) =~= tree_export(recs.take(0)));
        }
        let rn = store.trees[tree_idx].records.len();
        let mut j: usize = 0;
        while j < rn
            invariant
                tree_idx < store.trees@.len(),
                0 <= j <= rn == store.trees@[tree_idx as int].records@.len(),
                *store == *old(store),
                recs == store.trees@[tree_idx as int].records@,
                entries_v(entries@) == tree_export(recs.take(j as int)),
            decreases rn - j,
        {
            let rec = &store.trees[tree_idx].records[j];
            let skip_it = match &rec.entry {
                RaftStoreEntry::StateMachineMeta { key, value: _ } => matches!(
                    key,
                    StateMachineMetaKey::Initialized
                ),
                _ => false,
            };
            proof {
                assert(skip_it == is_init_marker(recs[j as int].entry@));
                assert(recs.take(j as int + 1).drop_last() =~= recs.take(j as int));
                assert(recs.take(j as int + 1).last() == recs[j as int]);
            }
            if !skip_it {
                entries.push(dup_entry(&rec.entry));
            }
            proof {
                assert(entries_v(entries@) =~= tree_export(recs.take(j as int + 1)));
            }
            j = j + 1;
        }
        proof {
            assert(recs.take(rn as int) =~= recs);
        }
        store.snapshots.push(entries);
    }

    /// Drop every state-machine tree, keeping the others in order.
    fn remove_all_sm_trees(&self, store: &mut OnDiskStore)
        ensures
            final(store).header == old(store).header,
            final(store).snapshots == old(store).snapshots,
            final(store).trees@ == keep_non_sm(old(store).trees@),
            forall|i: int|
                0 <= i < final(store).trees@.len() ==> !crate::bytes_order::is_prefix_of(
                    sm_tree_prefix(),
                    (#[trigger] final(store).trees@[i]).name@,
                ),
    {
        let prefix = make_sm_tree_prefix();
        let mut kept: Vec<StoreTree> = Vec::new();
        proof {
            assert(keep_non_sm(old(store).trees@) =~= kept@ + keep_non_sm(old(store).trees@));
        }
        while store.trees.len() > 0
            invariant
                prefix@ == sm_tree_prefix(),
                store.header == old(store).header,
                store.snapshots == old(store).snapshots,
                keep_non_sm(old(store).trees@) == kept@ + keep_non_sm(store.trees@),
                forall|i: int|
                    0 <= i < kept@.len() ==> !crate::bytes_order::is_prefix_of(
                        sm_tree_prefix(),
                        (#[trigger] kept@[i]).name@,
                    ),
            decreases store.trees@.len(),
        {
            let ghost cur = store.trees@;
            let ghost kept_pre = kept@;
            let t = store.trees.remove(0);
            proof {
                assert(t == cur.first());
                assert(store.trees@ =~= cur.skip(1));
            }
            if !key_has_prefix(&t.name, &prefix) {
                kept.push(t);
                proof {
                    assert(kept@ + keep_non_sm(store.trees@) =~= kept_pre + (seq![cur.first()]
                        + keep_non_sm(cur.skip(1))));
                    assert(kept@ + keep_non_sm(store.trees@) =~= kept_pre + keep_non_sm(cur));
                }
            } else {
                proof {
                    assert(kept@ + keep_non_sm(store.trees@) == kept_pre + keep_non_sm(cur));
                }
            }
        }
        proof {
            assert(keep_non_sm(store.trees@).len() == 0);
            assert(keep_non_sm(old(store).trees@) =~= kept@);
        }
        store.trees = kept;
    }

    /// Upgrade from `V001` to `V002`: build a snapshot file from the oldest
    /// state-machine tree and drop the state-machine trees.  Skipped when
    /// no state-machine tree exists.
    pub fn upgrade_v001_to_v002(&mut self, store: &mut OnDiskStore) -> (r: Result<
        (),
        StorageError,
    >)
        requires
            old(self).header.version == DataVersion::V001,
            old(self).header.upgrading is None,
        ensures
            r is Ok,
            final(self).header == (Header {
                version: DataVersion::V002,
                upgrading: Option::None,
            }),
            final(store).header == Option::Some(final(self).header),
            final(store).trees@ == keep_non_sm(old(store).trees@),
            v002_snapshots_ok(
                old(store).trees@,
                old(store).snapshots@,
                final(store).snapshots@,
            ),
            forall|i: int|
                0 <= i < final(store).trees@.len() ==> !crate::bytes_order::is_prefix_of(
                    sm_tree_prefix(),
                    (#[trigger] final(store).trees@[i]).name@,
                ),
    {
        self.header.upgrading = Option::Some(DataVersion::V002);
        self.write_header(store);

        match self.find_min_sm_tree(store) {
            Option::Some(idx) => {
                self.dump_sm_tree_to_snapshot(store, idx);
                self.remove_all_sm_trees(store);
                proof {
                    assert(has_sm_tree(old(store).trees@));
                    assert(min_sm_tree_at(old(store).trees@, idx as int) && entries_v(
                        store.snapshots@.last()@,
                    ) == tree_export(old(store).trees@[idx as int].records@));
                }
            },
            Option::None => {
                self.remove_all_sm_trees(store);
                proof {
                    assert(!has_sm_tree(old(store).trees@));
                }
            },
        }

        self.header.version = DataVersion::V002;
        self.header.upgrading = Option::None;
        self.write_header(store);
        Result::Ok(())
    }

    /// The reserved transition out of `V002`: not yet defined; refused
    /// with an actionable error instead of guessing.
    pub fn upgrade_v002_to_v003(&mut self, store: &mut OnDiskStore) -> (r: Result<
        (),
        StorageError,
    >)
        ensures
            r == Result::<(), StorageError>::Err(
                StorageError::UpgradeUnimplemented { from: DataVersion::V002 },
            ),
            *final(self) == *old(self),
            *final(store) == *old(store),
    {
        Result::Err(StorageError::UpgradeUnimplemented { from: DataVersion::V002 })
    }

    /// Upgrade the store to the working data version, resuming an
    /// unfinished upgrade first, then running the chain one transition at a
    /// time until the working version is reached or a reserved transition
    /// is hit.
    ///
    /// An interrupted `V001` upgrade left the data rewritten in place and
    /// needs no cleanup; an interrupted `V002` upgrade whose snapshot was
    /// already written only has its stale state-machine trees dropped, so
    /// resumption lands in the same state as an uninterrupted run.  An
    /// `upgrading` mark naming any other version is refused.
    pub fn upgrade(&mut self, store: &mut OnDiskStore) -> (r: Result<(), StorageError>)
        ensures
            r is Ok ==> final(self).header == (Header {
                version: crate::data_version::spec_data_version(),
                upgrading: Option::None,
            }),
            ({
                let u = old(self).header.upgrading;
                let v0 = old(self).header.version;
                let eff: DataVersion = (match u {
                    Option::Some(DataVersion::V002) => if old(store).snapshots@.len() > 0 {
                        DataVersion::V002
                    } else {
                        v0
                    },
                    _ => v0,
                });
                if u == Option::Some(DataVersion::V0) || u == Option::Some(DataVersion::V003) {
                    &&& r == Result::<(), StorageError>::Err(
                        (StorageError::UnknownUpgrading { target: u.unwrap() }),
                    )
                    &&& *final(self) == *old(self)
                    &&& *final(store) == *old(store)
                } else {
                    &&& (r is Ok <==> eff == DataVersion::V003)
                    &&& (r is Err ==> r == Result::<(), StorageError>::Err(
                        (StorageError::UpgradeUnimplemented { from: DataVersion::V002 }),
                    ) && final(self).header == (Header {
                        version: DataVersion::V002,
                        upgrading: Option::None,
                    }))
                    &&& (match eff {
                        DataVersion::V003 => {
                            &&& final(store).trees == old(store).trees
                            &&& final(store).snapshots == old(store).snapshots
                            &&& (u is Some ==> final(store).header == Option::Some(
                                final(self).header,
                            ))
                            &&& (u is None ==> *final(store) == *old(store))
                        },
                        DataVersion::V002 => {
                            &&& final(store).snapshots == old(store).snapshots
                            &&& final(store).header == (if u is Some {
                                Option::Some(final(self).header)
                            } else {
                                old(store).header
                            })
                            &&& final(store).trees@ == (if u == Option::Some(DataVersion::V002)
                                && old(store).snapshots@.len() > 0 {
                                keep_non_sm(old(store).trees@)
                            } else {
                                old(store).trees@
                            })
                        },
                        DataVersion::V001 => {
                            &&& final(store).header == Option::Some(final(self).header)
                            &&& final(store).trees@ == keep_non_sm(old(store).trees@)
                            &&& v002_snapshots_ok(
                                old(store).trees@,
                                old(store).snapshots@,
                                final(store).snapshots@,
                            )
                        },
                        DataVersion::V0 => {
                            &&& final(store).header == Option::Some(final(self).header)
                            &&& exists|mid: Seq<StoreTree>|
                                {
                                    &&& #[trigger] trees_retagged(old(store).trees@, mid)
                                    &&& final(store).trees@ == keep_non_sm(mid)
                                    &&& v002_snapshots_ok(
                                        mid,
                                        old(store).snapshots@,
                                        final(store).snapshots@,
                                    )
                                }
                        },
                    })
                }
            }),
    {
        match self.header.upgrading {
            Option::Some(u) => {
                match u {
                    DataVersion::V001 => {
                        // Data are upgraded in place; nothing to clean up.
                    },
                    DataVersion::V002 => {
                        // A V002 snapshot may or may not have been written;
                        // the dump is re-run by the transition itself, so
                        // only the stale state-machine trees must go when a
                        // snapshot exists.
                        if store.snapshots.len() > 0 {
                            self.remove_all_sm_trees(store);
                            self.header.version = u;
                        }
                    },
                    _ => {
                        return Result::Err(StorageError::UnknownUpgrading { target: u });
                    },
                }
                self.header.upgrading = Option::None;
                self.write_header(store);
            },
            Option::None => {},
        }

        let ghost was_v0 = self.header.version == DataVersion::V0;
        let ghost resumed_trees = store.trees@;
        if matches!(self.header.version, DataVersion::V0) {
            match self.upgrade_v0_to_v001(store) {
                Result::Ok(()) => {},
                Result::Err(e) => {
                    return Result::Err(e);
                },
            }
        }
        let ghost mid_trees = store.trees@;
        let ghost mid_snaps = store.snapshots@;
        if matches!(self.header.version, DataVersion::V001) {
            match self.upgrade_v001_to_v002(store) {
                Result::Ok(()) => {},
                Result::Err(e) => {
                    return Result::Err(e);
                },
            }
            proof {
                if was_v0 {
                    assert(trees_retagged(resumed_trees, mid_trees));
                    assert(store.trees@ == keep_non_sm(mid_trees));
                    assert(v002_snapshots_ok(mid_trees, mid_snaps, store.snapshots@));
                }
            }
        }
        match self.header.version {
            DataVersion::V003 => Result::Ok(()),
            _ => {
                let r = self.upgrade_v002_to_v003(store);
                r
            },
        }
    }
}

/// Duplicate a store entry.
pub fn dup_entry(e: &RaftStoreEntry) -> (r: RaftStoreEntry)
    ensures
        r@ == e@,
{
    match e {
        RaftStoreEntry::DataHeader { key, value } => RaftStoreEntry::DataHeader {
            key: crate::bytes_order::key_dup(key),
            value: *value,
        },
        RaftStoreEntry::Logs { key } => RaftStoreEntry::Logs { key: *key },
        RaftStoreEntry::LogMeta { key } => RaftStoreEntry::LogMeta {
            key: crate::bytes_order::key_dup(key),
        },
        RaftStoreEntry::RaftStateKV { key } => RaftStoreEntry::RaftStateKV {
            key: crate::bytes_order::key_dup(key),
        },
        RaftStoreEntry::ClientLastResps { key } => RaftStoreEntry::ClientLastResps {
            key: crate::bytes_order::key_dup(key),
        },
        RaftStoreEntry::Nodes { key, value } => RaftStoreEntry::Nodes {
            key: *key,
            value: value.dup(),
        },
        RaftStoreEntry::StateMachineMeta { key, value } => RaftStoreEntry::StateMachineMeta {
            key: *key,
            value: match value {
                crate::snapshot::StateMachineMetaValue::LogIdValue(l) => crate::snapshot::StateMachineMetaValue::LogIdValue(
                    *l,
                ),
                crate::snapshot::StateMachineMetaValue::BoolValue(b) => crate::snapshot::StateMachineMetaValue::BoolValue(
                    *b,
                ),
                crate::snapshot::StateMachineMetaValue::MembershipValue(m) => crate::snapshot::StateMachineMetaValue::MembershipValue(
                    m.dup(),
                ),
            },
        },
        RaftStoreEntry::Expire { key, value } => RaftStoreEntry::Expire {
            key: *key,
            value: crate::types::ExpireValue {
                seq: value.seq,
                key: crate::bytes_order::key_dup(&value.key),
            },
        },
        RaftStoreEntry::GenericKV { key, value } => RaftStoreEntry::GenericKV {
            key: crate::bytes_order::key_dup(key),
            value: value.dup(),
        },
        RaftStoreEntry::Sequences { key, value } => RaftStoreEntry::Sequences {
            key: crate::bytes_order::key_dup(key),
            value: *value,
        },
    }
}

} // verus!
