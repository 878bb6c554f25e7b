//! Read-only snapshots: a snapshot records the transactions that were active
//! when it was taken and sees exactly the writes of older, finished ones.
use vstd::prelude::*;
use std::collections::HashSet;
use crate::clock::unix_millis;
use crate::mvcc::transaction::TransactionId;

verus! {

broadcast use vstd::std_specs::hash::group_hash_axioms;

/// Snapshot identifier.
pub type SnapshotId = u64;

/// Whether a version written by `txn_id` is visible to a snapshot with the
/// given id and active set: it was written by an older transaction that
/// was not active when the snapshot was taken.
pub open spec fn visible_to(id: SnapshotId, active: Set<TransactionId>, txn_id: TransactionId) -> bool {
    txn_id < id && !active.contains(txn_id)
}

/// A read-only snapshot.
pub struct Snapshot {
    id: SnapshotId,
    active_transactions: Vec<TransactionId>,
    active_set: HashSet<TransactionId>,
    creation_time: u64,
    read_count: usize,
}

impl Snapshot {
    #[verifier::type_invariant]
    closed spec fn set_matches_list(self) -> bool {
        self.active_set@ == self.active_transactions@.to_set()
    }

    pub closed spec fn spec_id(&self) -> SnapshotId {
        self.id
    }

    /// The active transactions as given at creation.
    pub closed spec fn active_seq(&self) -> Seq<TransactionId> {
        self.active_transactions@
    }

    pub closed spec fn spec_creation_time(&self) -> u64 {
        self.creation_time
    }

    pub closed spec fn spec_read_count(&self) -> usize {
        self.read_count
    }

    /// Builds the hash set of `ids`.
    fn id_set(ids: &Vec<TransactionId>) -> (s: HashSet<TransactionId>)
        ensures
            s@ == ids@.to_set(),
    {
        let mut s: HashSet<TransactionId> = HashSet::new();
        let mut i: usize = 0;
        while i < ids.len()
            invariant
                i <= ids@.len(),
                s@ == ids@.subrange(0, i as int).to_set(),
            decreases ids@.len() - i,
        {
            let ghost before = s@;
            s.insert(ids[i]);
            proof {
                let pre = ids@.subrange(0, i as int);
                let post = ids@.subrange(0, i + 1);
                assert(post == pre.push(ids@[i as int]));
                assert(s@ =~= post.to_set()) by {
                    assert forall|x: TransactionId| post.to_set().contains(x) implies s@.contains(x) by {
                        let k = choose|k: int| 0 <= k < post.len() && post[k] == x;
                        if k < pre.len() {
                            assert(pre[k] == x);
                            assert(pre.contains(x));
                        }
                    }
                    assert forall|x: TransactionId| s@.contains(x) implies post.to_set().contains(x) by {
                        if x == ids@[i as int] {
                            assert(post[i as int] == x);
                        } else {
                            assert(pre.contains(x));
                            let k = choose|k: int| 0 <= k < pre.len() && pre[k] == x;
                            assert(post[k] == x);
                        }
                    }
                }
            }
            i += 1;
        }
        assert(ids@.subrange(0, ids@.len() as int) =~= ids@);
        s
    }

    /// A snapshot with the given id and active transactions; its creation
    /// time is read from the clock and its read count is zero.
    pub fn new(id: SnapshotId, active_transactions: Vec<TransactionId>) -> (s: Self)
        ensures
            s.spec_id() == id,
            s.active_seq() == active_transactions@,
            s.spec_read_count() == 0,
    {
        let active_set = Self::id_set(&active_transactions);
        Snapshot { id, active_transactions, active_set, creation_time: unix_millis(), read_count: 0 }
    }

    pub fn id(&self) -> (r: SnapshotId)
        ensures
            r == self.spec_id(),
    {
        self.id
    }

    /// The active transactions as given at creation.
    pub fn active_transactions(&self) -> (r: &[TransactionId])
        ensures
            r@ == self.active_seq(),
    {
        self.active_transactions.as_slice()
    }

    /// Whether `txn_id` was active when the snapshot was taken.
    pub fn is_active(&self, txn_id: TransactionId) -> (r: bool)
        ensures
            r == self.active_seq().contains(txn_id),
    {
        proof {
            use_type_invariant(self);
        }
        self.active_set.contains(&txn_id)
    }

    pub fn creation_time(&self) -> (r: u64)
        ensures
            r == self.spec_creation_time(),
    {
        self.creation_time
    }

    /// Counts one read made through this snapshot (wrapping on overflow).
    pub fn record_read(&mut self)
        ensures
            final(self).spec_read_count() == old(self).spec_read_count().wrapping_add(1),
            final(self).spec_id() == old(self).spec_id(),
            final(self).active_seq() == old(self).active_seq(),
            final(self).spec_creation_time() == old(self).spec_creation_time(),
    {
        proof {
            use_type_invariant(&*self);
        }
        self.read_count = self.read_count.wrapping_add(1);
    }

    pub fn read_count(&self) -> (r: usize)
        ensures
            r == self.spec_read_count(),
    {
        self.read_count
    }

    /// Whether a version written by `txn_id` is visible to this snapshot.
    pub fn is_visible(&self, txn_id: TransactionId) -> (r: bool)
        ensures
            r == visible_to(self.spec_id(), self.active_seq().to_set(), txn_id),
    {
        txn_id < self.id && !self.is_active(txn_id)
    }
}

impl Clone for Snapshot {
    fn clone(&self) -> (s: Self)
        ensures
            s.spec_id() == self.spec_id(),
            s.active_seq() == self.active_seq(),
            s.spec_creation_time() == self.spec_creation_time(),
            s.spec_read_count() == self.spec_read_count(),
    {
        let mut copied: Vec<TransactionId> = Vec::new();
        let mut i: usize = 0;
        while i < self.active_transactions.len()
            invariant
                i <= self.active_transactions@.len(),
                copied@ == self.active_transactions@.subrange(0, i as int),
            decreases self.active_transactions@.len() - i,
        {
            copied.push(self.active_transactions[i]);
            i += 1;
        }
        assert(copied@ =~= self.active_transactions@);
        let active_set = Self::id_set(&copied);
        Snapshot {
            id: self.id,
            active_transactions: copied,
            active_set,
            creation_time: self.creation_time,
            read_count: self.read_count,
        }
    }
}

/// What the snapshot manager keeps per snapshot.
#[derive(Debug, Clone, Copy)]
pub struct SnapshotInfo {
    pub id: SnapshotId,
    pub creation_time: u64,
    pub read_count: usize,
}

/// Counters kept by the snapshot manager.
#[derive(Debug, Clone, Copy)]
pub struct SnapshotManagerStats {
    /// Snapshots created.
    pub snapshots_created: u64,
    /// Snapshots released.
    pub snapshots_released: u64,
    /// Counter of live snapshots: one up per creation, one down per release.
    pub active_count: usize,
}

/// A copy of the snapshot manager's counters.
#[derive(Debug, Clone, Copy)]
pub struct SnapshotManagerStatsSnapshot {
    pub snapshots_created: u64,
    pub snapshots_released: u64,
    pub active_count: usize,
}

impl SnapshotManagerStats {
    /// All counters at zero.
    pub fn new() -> (s: Self)
        ensures
            s.snapshots_created == 0,
            s.snapshots_released == 0,
            s.active_count == 0,
    {
        SnapshotManagerStats { snapshots_created: 0, snapshots_released: 0, active_count: 0 }
    }

    /// A copy of the counters.
    pub fn snapshot(&self) -> (r: SnapshotManagerStatsSnapshot)
        ensures
            r.snapshots_created == self.snapshots_created,
            r.snapshots_released == self.snapshots_released,
            r.active_count == self.active_count,
    {
        SnapshotManagerStatsSnapshot {
            snapshots_created: self.snapshots_created,
            snapshots_released: self.snapshots_released,
            active_count: self.active_count,
        }
    }
}

/// Tracks the live snapshots by id.
pub struct SnapshotManager {
    snapshots: Vec<SnapshotInfo>,
    stats: SnapshotManagerStats,
}

impl SnapshotManager {
    /// Each id is listed once.
    pub closed spec fn wf(&self) -> bool {
        forall|i: int, j: int|
            0 <= i < j < self.snapshots@.len() ==> (#[trigger] self.snapshots@[i]).id != (
            #[trigger] self.snapshots@[j]).id
    }

    /// Ids of the live snapshots.
    pub closed spec fn ids(&self) -> Set<SnapshotId> {
        Set::new(|id: SnapshotId| exists|i: int| 0 <= i < self.snapshots@.len() && (#[trigger] self.snapshots@[i]).id == id)
    }

    /// The record kept for a live snapshot id.
    pub closed spec fn info_of(&self, id: SnapshotId) -> SnapshotInfo {
        self.snapshots@[choose|i: int| 0 <= i < self.snapshots@.len() && (#[trigger] self.snapshots@[i]).id == id]
    }

    pub closed spec fn spec_stats(&self) -> SnapshotManagerStats {
        self.stats
    }

    proof fn lemma_info_at(&self, i: int)
        requires
            self.wf(),
            0 <= i < self.snapshots@.len(),
        ensures
            self.ids().contains(self.snapshots@[i].id),
            self.info_of(self.snapshots@[i].id) == self.snapshots@[i],
    {
        let id = self.snapshots@[i].id;
        assert(self.ids().contains(id));
        let j = choose|j: int| 0 <= j < self.snapshots@.len() && (#[trigger] self.snapshots@[j]).id == id;
        if j != i {
            if j < i {
                assert(self.snapshots@[j].id != self.snapshots@[i].id);
            } else {
                assert(self.snapshots@[i].id != self.snapshots@[j].id);
            }
        }
    }

    /// A manager with no snapshots and zero counters.
    pub fn new() -> (m: Self)
        ensures
            m.wf(),
            m.ids() == Set::<SnapshotId>::empty(),
            m.spec_stats().snapshots_created == 0,
            m.spec_stats().snapshots_released == 0,
            m.spec_stats().active_count == 0,
    {
        let m = SnapshotManager { snapshots: Vec::new(), stats: SnapshotManagerStats::new() };
        assert(m.ids() =~= Set::<SnapshotId>::empty());
        m
    }

    fn position(&self, id: SnapshotId) -> (r: Option<usize>)
        ensures
            match r {
                Some(i) => i < self.snapshots@.len() && self.snapshots@[i as int].id == id,
                None => !self.ids().contains(id),
            },
    {
        let mut i: usize = 0;
        while i < self.snapshots.len()
            invariant
                i <= self.snapshots@.len(),
                forall|j: int| 0 <= j < i ==> (#[trigger] self.snapshots@[j]).id != id,
            decreases self.snapshots@.len() - i,
        {
            if self.snapshots[i].id == id {
                return Some(i);
            }
            i += 1;
        }
        None
    }

    /// Registers a snapshot under `id` (replacing any record with that id)
    /// with a creation time from the clock and no reads, and counts it.
    pub fn create_snapshot(&mut self, id: SnapshotId, _active_transactions: &[TransactionId]) -> (info: SnapshotInfo)
        requires
            old(self).wf(),
        ensures
            final(self).wf(),
            info.id == id,
            info.read_count == 0,
            final(self).ids() == old(self).ids().insert(id),
            final(self).info_of(id) == info,
            forall|x: SnapshotId| x != id && old(self).ids().contains(x) ==> final(self).info_of(x) == old(self).info_of(x),
            final(self).spec_stats().snapshots_created == old(self).spec_stats().snapshots_created.wrapping_add(1),
            final(self).spec_stats().snapshots_released == old(self).spec_stats().snapshots_released,
            final(self).spec_stats().active_count == old(self).spec_stats().active_count.wrapping_add(1),
    {
        let info = SnapshotInfo { id, creation_time: unix_millis(), read_count: 0 };
        let ghost old_self = *self;
        match self.position(id) {
            Some(i) => {
                proof { old_self.lemma_info_at(i as int); }
                self.snapshots.set(i, info);
            },
            None => {
                self.snapshots.push(info);
            },
        }
        self.stats.snapshots_created = self.stats.snapshots_created.wrapping_add(1);
        self.stats.active_count = self.stats.active_count.wrapping_add(1);
        proof {
            let n = self.snapshots@.len();
            let pos: int = if old_self.ids().contains(id) {
                choose|i: int| 0 <= i < old_self.snapshots@.len() && (#[trigger] old_self.snapshots@[i]).id == id
            } else {
                old_self.snapshots@.len() as int
            };
            assert forall|a: int, b: int| 0 <= a < b < n implies (#[trigger] self.snapshots@[a]).id != (
            #[trigger] self.snapshots@[b]).id by {
                if a != pos && b != pos {
                    assert(self.snapshots@[a] == old_self.snapshots@[a] && self.snapshots@[b] == old_self.snapshots@[b]);
                } else if a == pos {
                    assert(self.snapshots@[b] == old_self.snapshots@[b]);
                    if pos < old_self.snapshots@.len() {
                        assert(old_self.snapshots@[pos].id == id);
                    } else {
                        assert(old_self.ids().contains(old_self.snapshots@[b].id));
                    }
                } else {
                    assert(self.snapshots@[a] == old_self.snapshots@[a]);
                    if pos < old_self.snapshots@.len() {
                        assert(old_self.snapshots@[pos].id == id);
                    } else {
                        assert(b == old_self.snapshots@.len());
                        assert(old_self.ids().contains(old_self.snapshots@[a].id));
                    }
                }
            }
            assert(self.ids() =~= old_self.ids().insert(id)) by {
                assert forall|x: SnapshotId| old_self.ids().insert(x).contains(x) && old_self.ids().insert(id).contains(x) implies self.ids().contains(x) by {
                    if x == id {
                        assert(self.snapshots@[pos].id == id);
                    } else {
                        let k = choose|k: int| 0 <= k < old_self.snapshots@.len() && (#[trigger] old_self.snapshots@[k]).id == x;
                        assert(self.snapshots@[k] == old_self.snapshots@[k]);
                    }
                }
                assert forall|x: SnapshotId| self.ids().contains(x) implies old_self.ids().insert(id).contains(x) by {
                    let k = choose|k: int| 0 <= k < self.snapshots@.len() && (#[trigger] self.snapshots@[k]).id == x;
                    if k != pos {
                        assert(self.snapshots@[k] == old_self.snapshots@[k]);
                    }
                }
            }
            self.lemma_info_at(pos);
            assert forall|x: SnapshotId| x != id && old_self.ids().contains(x) implies self.info_of(x) == old_self.info_of(x) by {
                let k = choose|k: int| 0 <= k < old_self.snapshots@.len() && (#[trigger] old_self.snapshots@[k]).id == x;
                old_self.lemma_info_at(k);
                assert(self.snapshots@[k] == old_self.snapshots@[k]);
                self.lemma_info_at(k);
            }
        }
        info
    }

    /// Drops the snapshot `id`; returns whether it was live. A release is
    /// counted only when it was.
    pub fn release_snapshot(&mut self, id: SnapshotId) -> (r: bool)
        requires
            old(self).wf(),
        ensures
            final(self).wf(),
            r == old(self).ids().contains(id),
            final(self).ids() == old(self).ids().remove(id),
            forall|x: SnapshotId| x != id && old(self).ids().contains(x) ==> final(self).info_of(x) == old(self).info_of(x),
            r ==> final(self).spec_stats().snapshots_released == old(self).spec_stats().snapshots_released.wrapping_add(1),
            r ==> final(self).spec_stats().active_count == old(self).spec_stats().active_count.wrapping_sub(1),
            !r ==> final(self).spec_stats() == old(self).spec_stats(),
            final(self).spec_stats().snapshots_created == old(self).spec_stats().snapshots_created,
    {
        let ghost old_self = *self;
        match self.position(id) {
            None => {
                assert(old_self.ids().remove(id) =~= old_self.ids());
                false
            },
            Some(i) => {
                self.snapshots.remove(i);
                self.stats.snapshots_released = self.stats.snapshots_released.wrapping_add(1);
                self.stats.active_count = self.stats.active_count.wrapping_sub(1);
                proof {
                    let n = self.snapshots@.len();
                    assert forall|a: int, b: int| 0 <= a < b < n implies (#[trigger] self.snapshots@[a]).id != (
                    #[trigger] self.snapshots@[b]).id by {
                        let a2 = if a < i { a } else { a + 1 };
                        let b2 = if b < i { b } else { b + 1 };
                        assert(self.snapshots@[a] == old_self.snapshots@[a2] && self.snapshots@[b] == old_self.snapshots@[b2]);
                    }
                    assert(self.ids() =~= old_self.ids().remove(id)) by {
                        assert forall|x: SnapshotId| old_self.ids().remove(id).contains(x) implies self.ids().contains(x) by {
                            let k = choose|k: int| 0 <= k < old_self.snapshots@.len() && (#[trigger] old_self.snapshots@[k]).id == x;
                            assert(k != i);
                            let k2 = if k < i { k } else { k - 1 };
                            assert(self.snapshots@[k2] == old_self.snapshots@[k]);
                        }
                        assert forall|x: SnapshotId| self.ids().contains(x) implies old_self.ids().remove(id).contains(x) by {
                            let k = choose|k: int| 0 <= k < n && (#[trigger] self.snapshots@[k]).id == x;
                            let k2 = if k < i { k } else { k + 1 };
                            assert(self.snapshots@[k] == old_self.snapshots@[k2]);
                            assert(old_self.snapshots@[k2].id != old_self.snapshots@[i as int].id);
                        }
                    }
                    assert forall|x: SnapshotId| x != id && old_self.ids().contains(x) implies self.info_of(x) == old_self.info_of(x) by {
                        let k = choose|k: int| 0 <= k < old_self.snapshots@.len() && (#[trigger] old_self.snapshots@[k]).id == x;
                        old_self.lemma_info_at(k);
                        assert(k != i);
                        let k2 = if k < i { k } else { k - 1 };
                        assert(self.snapshots@[k2] == old_self.snapshots@[k]);
                        self.lemma_info_at(k2);
                    }
                }
                true
            },
        }
    }

    /// The record of snapshot `id`, if live.
    pub fn get_snapshot(&self, id: SnapshotId) -> (r: Option<SnapshotInfo>)
        requires
            self.wf(),
        ensures
            match r {
                Some(info) => self.ids().contains(id) && info == self.info_of(id),
                None => !self.ids().contains(id),
            },
    {
        match self.position(id) {
            Some(i) => {
                proof { self.lemma_info_at(i as int); }
                Some(self.snapshots[i])
            },
            None => None,
        }
    }

    /// Ids of the live snapshots, each once.
    pub fn get_active_ids(&self) -> (r: Vec<SnapshotId>)
        requires
            self.wf(),
        ensures
            r@.to_set() == self.ids(),
            r@.no_duplicates(),
    {
        let mut r: Vec<SnapshotId> = Vec::new();
        let mut i: usize = 0;
        while i < self.snapshots.len()
            invariant
                i <= self.snapshots@.len(),
                r@.len() == i,
                forall|k: int| 0 <= k < i ==> r@[k] == (#[trigger] self.snapshots@[k]).id,
            decreases self.snapshots@.len() - i,
        {
            r.push(self.snapshots[i].id);
            i += 1;
        }
        proof {
            assert(r@.to_set() =~= self.ids()) by {
                assert forall|x: SnapshotId| r@.to_set().contains(x) implies self.ids().contains(x) by {
                    let k = choose|k: int| 0 <= k < r@.len() && r@[k] == x;
                    assert(self.snapshots@[k].id == x);
                }
                assert forall|x: SnapshotId| self.ids().contains(x) implies r@.to_set().contains(x) by {
                    let k = choose|k: int| 0 <= k < self.snapshots@.len() && (#[trigger] self.snapshots@[k]).id == x;
                    assert(r@[k] == x);
                }
            }
            assert forall|a: int, b: int| 0 <= a < r@.len() && 0 <= b < r@.len() && a != b implies r@[a] != r@[b] by {
                if a < b {
                    assert(self.snapshots@[a].id != self.snapshots@[b].id);
                } else {
                    assert(self.snapshots@[b].id != self.snapshots@[a].id);
                }
            }
        }
        r
    }

    /// The live-snapshot counter.
    pub fn active_count(&self) -> (n: usize)
        ensures
            n == self.spec_stats().active_count,
    {
        self.stats.active_count
    }

    /// The counters.
    pub fn stats(&self) -> (r: &SnapshotManagerStats)
        ensures
            *r == self.spec_stats(),
    {
        &self.stats
    }

    /// The smallest live snapshot id, or `u64::MAX` when none is live.
    /// Versions written by transactions below it may be collected.
    pub fn min_visible_txn_id(&self) -> (r: TransactionId)
        ensures
            self.ids().len() == 0 && self.ids().finite() ==> r == u64::MAX,
            self.ids() == Set::<SnapshotId>::empty() ==> r == u64::MAX,
            self.ids() != Set::<SnapshotId>::empty() ==> self.ids().contains(r),
            forall|x: SnapshotId| self.ids().contains(x) ==> r <= x,
    {
        if self.snapshots.len() == 0 {
            assert(self.ids() =~= Set::<SnapshotId>::empty());
            return u64::MAX;
        }
        let mut best = self.snapshots[0].id;
        let mut i: usize = 1;
        while i < self.snapshots.len()
            invariant
                1 <= i <= self.snapshots@.len(),
                exists|k: int| 0 <= k < i && (#[trigger] self.snapshots@[k]).id == best,
                forall|k: int| 0 <= k < i ==> best <= (#[trigger] self.snapshots@[k]).id,
            decreases self.snapshots@.len() - i,
        {
            if self.snapshots[i].id < best {
                best = self.snapshots[i].id;
            }
            i += 1;
        }
        proof {
            assert(self.ids().contains(best));
            assert forall|x: SnapshotId| self.ids().contains(x) implies best <= x by {
                let k = choose|k: int| 0 <= k < self.snapshots@.len() && (#[trigger] self.snapshots@[k]).id == x;
            }
        }
        best
    }

    /// Counts one read for snapshot `id` (wrapping), if it is live.
    pub fn record_read(&mut self, id: SnapshotId)
        requires
            old(self).wf(),
        ensures
            final(self).wf(),
            final(self).ids() == old(self).ids(),
            old(self).ids().contains(id) ==> final(self).info_of(id).read_count == old(self).info_of(id).read_count.wrapping_add(1),
            old(self).ids().contains(id) ==> final(self).info_of(id).id == old(self).info_of(id).id,
            old(self).ids().contains(id) ==> final(self).info_of(id).creation_time == old(self).info_of(id).creation_time,
            forall|x: SnapshotId| x != id && old(self).ids().contains(x) ==> final(self).info_of(x) == old(self).info_of(x),
            final(self).spec_stats() == old(self).spec_stats(),
    {
        let ghost old_self = *self;
        if let Some(i) = self.position(id) {
            let mut info = self.snapshots[i];
            info.read_count = info.read_count.wrapping_add(1);
            self.snapshots.set(i, info);
            proof {
                old_self.lemma_info_at(i as int);
                assert forall|a: int, b: int| 0 <= a < b < self.snapshots@.len() implies (#[trigger] self.snapshots@[a]).id != (
                #[trigger] self.snapshots@[b]).id by {
                    assert(self.snapshots@[a].id == old_self.snapshots@[a].id);
                    assert(self.snapshots@[b].id == old_self.snapshots@[b].id);
                }
                assert(self.ids() =~= old_self.ids()) by {
                    assert forall|x: SnapshotId| old_self.ids().contains(x) implies self.ids().contains(x) by {
                        let k = choose|k: int| 0 <= k < old_self.snapshots@.len() && (#[trigger] old_self.snapshots@[k]).id == x;
                        assert(self.snapshots@[k].id == x);
                    }
                    assert forall|x: SnapshotId| self.ids().contains(x) implies old_self.ids().contains(x) by {
                        let k = choose|k: int| 0 <= k < self.snapshots@.len() && (#[trigger] self.snapshots@[k]).id == x;
                        assert(old_self.snapshots@[k].id == x);
                    }
                }
                self.lemma_info_at(i as int);
                assert forall|x: SnapshotId| x != id && old_self.ids().contains(x) implies self.info_of(x) == old_self.info_of(x) by {
                    let k = choose|k: int| 0 <= k < old_self.snapshots@.len() && (#[trigger] old_self.snapshots@[k]).id == x;
                    old_self.lemma_info_at(k);
                    assert(self.snapshots@[k] == old_self.snapshots@[k]);
                    self.lemma_info_at(k);
                }
            }
        }
    }
}

impl Default for SnapshotManager {
    fn default() -> (m: Self)
        ensures
            m.wf(),
            m.ids() == Set::<SnapshotId>::empty(),
    {
        Self::new()
    }
}

} // verus!
