//! Multi-version concurrency control: transactions, snapshots and version
//! chains, coordinated by a manager that hands out ids.
pub mod snapshot;
pub mod transaction;
pub mod version_chain;

use vstd::prelude::*;
use crate::clock::unix_millis;
use crate::error::{ContextError, ContextResult, inactive_transaction_message};
use crate::mvcc::snapshot::{Snapshot, SnapshotId, SnapshotManager, visible_to};
use crate::mvcc::transaction::{Transaction, TransactionId, TransactionManager, TransactionState};

verus! {

/// Counters of transactions, snapshots and versions.
#[derive(Debug, Clone, Copy)]
pub struct MvccStats {
    pub transactions_started: u64,
    pub transactions_committed: u64,
    pub transactions_aborted: u64,
    pub snapshots_created: u64,
    pub snapshots_released: u64,
    pub active_transactions: u64,
    pub active_snapshots: u64,
    pub versions_created: u64,
    pub versions_gc_collected: u64,
}

/// A copy of the counters.
#[derive(Debug, Clone, Copy)]
pub struct MvccStatsSnapshot {
    pub transactions_started: u64,
    pub transactions_committed: u64,
    pub transactions_aborted: u64,
    pub snapshots_created: u64,
    pub snapshots_released: u64,
    pub active_transactions: u64,
    pub active_snapshots: u64,
    pub versions_created: u64,
    pub versions_gc_collected: u64,
}

impl MvccStats {
    /// All counters at zero.
    pub fn new() -> (s: Self)
        ensures
            s == (MvccStats {
                transactions_started: 0,
                transactions_committed: 0,
                transactions_aborted: 0,
                snapshots_created: 0,
                snapshots_released: 0,
                active_transactions: 0,
                active_snapshots: 0,
                versions_created: 0,
                versions_gc_collected: 0,
            }),
    {
        MvccStats {
            transactions_started: 0,
            transactions_committed: 0,
            transactions_aborted: 0,
            snapshots_created: 0,
            snapshots_released: 0,
            active_transactions: 0,
            active_snapshots: 0,
            versions_created: 0,
            versions_gc_collected: 0,
        }
    }

    /// A copy of the counters.
    pub fn snapshot(&self) -> (r: MvccStatsSnapshot)
        ensures
            r.transactions_started == self.transactions_started,
            r.transactions_committed == self.transactions_committed,
            r.transactions_aborted == self.transactions_aborted,
            r.snapshots_created == self.snapshots_created,
            r.snapshots_released == self.snapshots_released,
            r.active_transactions == self.active_transactions,
            r.active_snapshots == self.active_snapshots,
            r.versions_created == self.versions_created,
            r.versions_gc_collected == self.versions_gc_collected,
    {
        MvccStatsSnapshot {
            transactions_started: self.transactions_started,
            transactions_committed: self.transactions_committed,
            transactions_aborted: self.transactions_aborted,
            snapshots_created: self.snapshots_created,
            snapshots_released: self.snapshots_released,
            active_transactions: self.active_transactions,
            active_snapshots: self.active_snapshots,
            versions_created: self.versions_created,
            versions_gc_collected: self.versions_gc_collected,
        }
    }
}

impl Default for MvccStats {
    fn default() -> (s: Self)
        ensures
            s == MvccStats::new_spec(),
    {
        MvccStats::new()
    }
}

impl MvccStats {
    pub open spec fn new_spec() -> MvccStats {
        MvccStats {
            transactions_started: 0,
            transactions_committed: 0,
            transactions_aborted: 0,
            snapshots_created: 0,
            snapshots_released: 0,
            active_transactions: 0,
            active_snapshots: 0,
            versions_created: 0,
            versions_gc_collected: 0,
        }
    }
}

/// MVCC settings.
#[derive(Debug, Clone, Copy)]
pub struct MvccConfig {
    /// Versions kept per key by garbage collection.
    pub max_versions_per_key: usize,
    /// Whether garbage collection runs on its own.
    pub enable_auto_gc: bool,
    /// Number of versions that triggers garbage collection.
    pub gc_threshold: usize,
    /// Snapshot timeout in milliseconds (0: none).
    pub snapshot_timeout_ms: u64,
}

impl Default for MvccConfig {
    fn default() -> (c: Self)
        ensures
            c.max_versions_per_key == 10,
            c.enable_auto_gc,
            c.gc_threshold == 5,
            c.snapshot_timeout_ms == 60_000,
    {
        MvccConfig { max_versions_per_key: 10, enable_auto_gc: true, gc_threshold: 5, snapshot_timeout_ms: 60_000 }
    }
}

/// `s` without any occurrence of `id`.
pub open spec fn without(s: Seq<TransactionId>, id: TransactionId) -> Seq<TransactionId> {
    s.filter(|x: TransactionId| x != id)
}

/// Hands out transaction and snapshot ids and tracks which transactions
/// are active.
pub struct MvccManager {
    config: MvccConfig,
    id_generator: u64,
    txn_manager: TransactionManager,
    snapshot_manager: SnapshotManager,
    active_transactions: Vec<TransactionId>,
    stats: MvccStats,
}

impl MvccManager {
    /// Internal consistency of the trackers.
    pub closed spec fn wf(&self) -> bool {
        self.txn_manager.wf() && self.snapshot_manager.wf()
    }

    /// The next id: transactions and snapshots draw theirs from this one
    /// increasing sequence.
    pub closed spec fn next_id(&self) -> u64 {
        self.id_generator
    }

    /// The active transactions, oldest first.
    pub closed spec fn active_seq(&self) -> Seq<TransactionId> {
        self.active_transactions@
    }

    pub closed spec fn spec_stats(&self) -> MvccStats {
        self.stats
    }

    pub closed spec fn spec_config(&self) -> MvccConfig {
        self.config
    }

    /// Ids of the live snapshots.
    pub closed spec fn live_snapshots(&self) -> Set<SnapshotId> {
        self.snapshot_manager.ids()
    }

    /// The live-snapshot counter of the snapshot tracker.
    pub closed spec fn snapshot_counter(&self) -> usize {
        self.snapshot_manager.spec_stats().active_count
    }

    /// A manager whose first id, for a transaction or a snapshot, is 1.
    pub fn new(config: MvccConfig) -> (m: Self)
        ensures
            m.wf(),
            m.spec_config() == config,
            m.next_id() == 1,
            m.active_seq() == Seq::<TransactionId>::empty(),
            m.live_snapshots() == Set::<SnapshotId>::empty(),
            m.snapshot_counter() == 0,
            m.spec_stats() == MvccStats::new_spec(),
    {
        MvccManager {
            config,
            id_generator: 1,
            txn_manager: TransactionManager::new(),
            snapshot_manager: SnapshotManager::new(),
            active_transactions: Vec::new(),
            stats: MvccStats::new(),
        }
    }

    /// The settings.
    pub fn config(&self) -> (r: &MvccConfig)
        ensures
            *r == self.spec_config(),
    {
        &self.config
    }

    /// Starts a read-write transaction with the next transaction id, which
    /// becomes active.
    pub fn begin_rw_transaction(&mut self) -> (t: Transaction)
        requires
            old(self).wf(),
        ensures
            final(self).wf(),
            t.spec_id() == old(self).next_id(),
            t.spec_state() == TransactionState::Active,
            t.writes_map() == Map::<Seq<char>, transaction::WriteOperation>::empty(),
            final(self).next_id() == old(self).next_id().wrapping_add(1),
            final(self).active_seq() == old(self).active_seq().push(t.spec_id()),
            final(self).live_snapshots() == old(self).live_snapshots(),
            final(self).snapshot_counter() == old(self).snapshot_counter(),
            final(self).spec_stats() == (MvccStats {
                transactions_started: old(self).spec_stats().transactions_started.wrapping_add(1),
                active_transactions: old(self).spec_stats().active_transactions.wrapping_add(1),
                ..old(self).spec_stats()
            }),
            final(self).spec_config() == old(self).spec_config(),
    {
        let txn_id = self.id_generator;
        self.id_generator = self.id_generator.wrapping_add(1);
        self.txn_manager.register_transaction(txn_id);
        self.active_transactions.push(txn_id);
        self.stats.transactions_started = self.stats.transactions_started.wrapping_add(1);
        self.stats.active_transactions = self.stats.active_transactions.wrapping_add(1);
        Transaction::new(txn_id, TransactionState::Active)
    }

    /// Takes a snapshot with the next id that records the currently active
    /// transactions; none of them is visible to it, and every transaction
    /// with an earlier id that is no longer active (committed before the
    /// snapshot was taken) is.
    pub fn begin_snapshot(&mut self) -> (s: Snapshot)
        requires
            old(self).wf(),
        ensures
            final(self).wf(),
            s.spec_id() == old(self).next_id(),
            s.active_seq() == old(self).active_seq(),
            s.spec_read_count() == 0,
            forall|t: TransactionId| old(self).active_seq().contains(t) ==> !visible_to(s.spec_id(), s.active_seq().to_set(), t),
            forall|t: TransactionId| #![trigger visible_to(s.spec_id(), s.active_seq().to_set(), t)]
                t < old(self).next_id() && !old(self).active_seq().contains(t) ==> visible_to(s.spec_id(), s.active_seq().to_set(), t),
            final(self).next_id() == old(self).next_id().wrapping_add(1),
            final(self).active_seq() == old(self).active_seq(),
            final(self).live_snapshots() == old(self).live_snapshots().insert(s.spec_id()),
            final(self).snapshot_counter() == old(self).snapshot_counter().wrapping_add(1),
            final(self).spec_stats() == (MvccStats {
                snapshots_created: old(self).spec_stats().snapshots_created.wrapping_add(1),
                active_snapshots: old(self).spec_stats().active_snapshots.wrapping_add(1),
                ..old(self).spec_stats()
            }),
            final(self).spec_config() == old(self).spec_config(),
    {
        let snapshot_id = self.id_generator;
        self.id_generator = self.id_generator.wrapping_add(1);
        let mut active_txns: Vec<TransactionId> = Vec::new();
        let mut i: usize = 0;
        while i < self.active_transactions.len()
            invariant
                i <= self.active_transactions@.len(),
                active_txns@ == self.active_transactions@.subrange(0, i as int),
            decreases self.active_transactions@.len() - i,
        {
            active_txns.push(self.active_transactions[i]);
            i += 1;
        }
        assert(active_txns@ =~= self.active_transactions@);
        let _info = self.snapshot_manager.create_snapshot(snapshot_id, active_txns.as_slice());
        self.stats.snapshots_created = self.stats.snapshots_created.wrapping_add(1);
        self.stats.active_snapshots = self.stats.active_snapshots.wrapping_add(1);
        let s = Snapshot::new(snapshot_id, active_txns);
        proof {
            assert forall|t: TransactionId| old(self).active_seq().contains(t) implies !visible_to(s.spec_id(), s.active_seq().to_set(), t) by {
                assert(s.active_seq().to_set().contains(t));
            }
        }
        s
    }

    /// Removes every occurrence of `id` from the active list.
    fn remove_active(&mut self, id: TransactionId)
        ensures
            final(self).active_transactions@ == without(old(self).active_transactions@, id),
            final(self).txn_manager == old(self).txn_manager,
            final(self).snapshot_manager == old(self).snapshot_manager,
            final(self).stats == old(self).stats,
            final(self).config == old(self).config,
            final(self).id_generator == old(self).id_generator,
    {
        let mut kept: Vec<TransactionId> = Vec::new();
        let mut i: usize = 0;
        while i < self.active_transactions.len()
            invariant
                i <= self.active_transactions@.len(),
                kept@ == without(self.active_transactions@.subrange(0, i as int), id),
            decreases self.active_transactions@.len() - i,
        {
            let x = self.active_transactions[i];
            proof {
                let pre = self.active_transactions@.subrange(0, i as int);
                assert(self.active_transactions@.subrange(0, i + 1) == pre.push(x));
                reveal(Seq::filter);
                assert(pre.push(x).drop_last() == pre);
            }
            if x != id {
                kept.push(x);
            }
            i += 1;
        }
        assert(self.active_transactions@.subrange(0, self.active_transactions@.len() as int) =~= self.active_transactions@);
        self.active_transactions = kept;
    }

    /// Commits an active transaction: it becomes committed and inactive,
    /// and takes as its commit time the wall clock in milliseconds, or its
    /// start time where the clock reads earlier than that. A transaction
    /// that is not active is refused and left unchanged.
    pub fn commit_transaction(&mut self, txn: &mut Transaction) -> (r: ContextResult<()>)
        requires
            old(self).wf(),
        ensures
            final(self).wf(),
            r is Ok <==> old(txn).spec_state() == TransactionState::Active,
            r is Err ==> r->Err_0 is InvalidState && *final(self) == *old(self) && *final(txn) == *old(txn),
            r is Ok ==> {
                &&& final(txn).spec_state() == TransactionState::Committed
                &&& final(txn).spec_id() == old(txn).spec_id()
                &&& final(txn).writes_map() == old(txn).writes_map()
                &&& final(txn).spec_start_time() == old(txn).spec_start_time()
                &&& (final(txn).spec_commit_time() matches Some(c) && c >= old(txn).spec_start_time())
                &&& final(self).active_seq() == without(old(self).active_seq(), old(txn).spec_id())
                &&& final(self).next_id() == old(self).next_id()
                &&& final(self).live_snapshots() == old(self).live_snapshots()
                &&& final(self).spec_stats() == (MvccStats {
                    transactions_committed: old(self).spec_stats().transactions_committed.wrapping_add(1),
                    active_transactions: old(self).spec_stats().active_transactions.wrapping_sub(1),
                    ..old(self).spec_stats()
                })
            },
    {
        if txn.state() != TransactionState::Active {
            return Err(ContextError::InvalidState(inactive_transaction_message(txn.id(), "commit")));
        }
        txn.set_state(TransactionState::Committed);
        let now = unix_millis();
        let start = txn.start_time();
        txn.set_commit_time(if now < start { start } else { now });
        let id = txn.id();
        self.remove_active(id);
        self.txn_manager.commit_transaction(id);
        self.stats.transactions_committed = self.stats.transactions_committed.wrapping_add(1);
        self.stats.active_transactions = self.stats.active_transactions.wrapping_sub(1);
        Ok(())
    }

    /// Aborts an active transaction: it becomes aborted and inactive.
    /// A transaction that is not active is refused and left unchanged.
    pub fn abort_transaction(&mut self, txn: &mut Transaction) -> (r: ContextResult<()>)
        requires
            old(self).wf(),
        ensures
            final(self).wf(),
            r is Ok <==> old(txn).spec_state() == TransactionState::Active,
            r is Err ==> r->Err_0 is InvalidState && *final(self) == *old(self) && *final(txn) == *old(txn),
            r is Ok ==> {
                &&& final(txn).spec_state() == TransactionState::Aborted
                &&& final(txn).spec_id() == old(txn).spec_id()
                &&& final(txn).writes_map() == old(txn).writes_map()
                &&& final(self).active_seq() == without(old(self).active_seq(), old(txn).spec_id())
                &&& final(self).next_id() == old(self).next_id()
                &&& final(self).live_snapshots() == old(self).live_snapshots()
                &&& final(self).spec_stats() == (MvccStats {
                    transactions_aborted: old(self).spec_stats().transactions_aborted.wrapping_add(1),
                    active_transactions: old(self).spec_stats().active_transactions.wrapping_sub(1),
                    ..old(self).spec_stats()
                })
            },
    {
        if txn.state() != TransactionState::Active {
            return Err(ContextError::InvalidState(inactive_transaction_message(txn.id(), "abort")));
        }
        txn.set_state(TransactionState::Aborted);
        let id = txn.id();
        self.remove_active(id);
        self.txn_manager.abort_transaction(id);
        self.stats.transactions_aborted = self.stats.transactions_aborted.wrapping_add(1);
        self.stats.active_transactions = self.stats.active_transactions.wrapping_sub(1);
        Ok(())
    }

    /// Releases a snapshot (always succeeds; the release is counted even
    /// when the snapshot was no longer live).
    pub fn release_snapshot(&mut self, snapshot: &mut Snapshot) -> (r: ContextResult<()>)
        requires
            old(self).wf(),
        ensures
            final(self).wf(),
            r is Ok,
            final(self).live_snapshots() == old(self).live_snapshots().remove(old(snapshot).spec_id()),
            old(self).live_snapshots().contains(old(snapshot).spec_id()) ==> final(self).snapshot_counter() == old(self).snapshot_counter().wrapping_sub(1),
            !old(self).live_snapshots().contains(old(snapshot).spec_id()) ==> final(self).snapshot_counter() == old(self).snapshot_counter(),
            final(self).active_seq() == old(self).active_seq(),
            final(self).next_id() == old(self).next_id(),
            final(self).spec_stats() == (MvccStats {
                snapshots_released: old(self).spec_stats().snapshots_released.wrapping_add(1),
                active_snapshots: old(self).spec_stats().active_snapshots.wrapping_sub(1),
                ..old(self).spec_stats()
            }),
            *final(snapshot) == *old(snapshot),
    {
        let _ = self.snapshot_manager.release_snapshot(snapshot.id());
        self.stats.snapshots_released = self.stats.snapshots_released.wrapping_add(1);
        self.stats.active_snapshots = self.stats.active_snapshots.wrapping_sub(1);
        Ok(())
    }

    /// Whether a version written by `txn_id` is visible to `snapshot`.
    pub fn is_visible(&self, txn_id: TransactionId, snapshot: &Snapshot) -> (r: bool)
        ensures
            r == visible_to(snapshot.spec_id(), snapshot.active_seq().to_set(), txn_id),
    {
        if txn_id >= snapshot.id() {
            return false;
        }
        let active = snapshot.active_transactions();
        let mut i: usize = 0;
        while i < active.len()
            invariant
                i <= active@.len(),
                active@ == snapshot.active_seq(),
                forall|j: int| 0 <= j < i ==> active@[j] != txn_id,
            decreases active@.len() - i,
        {
            if active[i] == txn_id {
                proof {
                    assert(snapshot.active_seq().to_set().contains(txn_id));
                }
                return false;
            }
            i += 1;
        }
        true
    }

    /// The counters.
    pub fn stats(&self) -> (r: &MvccStats)
        ensures
            *r == self.spec_stats(),
    {
        &self.stats
    }

    /// The id the next transaction gets.
    pub fn next_transaction_id(&self) -> (r: TransactionId)
        ensures
            r == self.next_id(),
    {
        self.id_generator
    }

    /// Number of active transactions (with repetitions, if an id was
    /// handed out twice after wrapping).
    pub fn active_transaction_count(&self) -> (n: usize)
        ensures
            n == self.active_seq().len(),
    {
        self.active_transactions.len()
    }

    /// The live-snapshot counter.
    pub fn active_snapshot_count(&self) -> (n: usize)
        ensures
            n == self.snapshot_counter(),
    {
        self.snapshot_manager.active_count()
    }
}

/// A transaction that was active when a snapshot was taken stays invisible
/// to that snapshot, whatever it does later.
pub proof fn lemma_active_writer_invisible(snapshot_id: SnapshotId, active: Seq<TransactionId>, t: TransactionId)
    requires
        active.contains(t),
    ensures
        !visible_to(snapshot_id, active.to_set(), t),
{
}

/// A snapshot with id `id` never sees a transaction whose id is `id` or
/// higher.
pub proof fn lemma_newer_writer_invisible(snapshot_id: SnapshotId, active: Set<TransactionId>, t: TransactionId)
    requires
        t >= snapshot_id,
    ensures
        !visible_to(snapshot_id, active, t),
{
}

} // verus!
