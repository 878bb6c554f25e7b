//! Read-write transactions with buffered writes, and the manager that tracks
//! their lifecycle (active, then committed or aborted).
use vstd::prelude::*;
use crate::clock::unix_millis;
use crate::str_map::StrMap;

verus! {

/// Transaction identifier.
pub type TransactionId = u64;

/// Lifecycle state of a transaction.
#[derive(Debug, Clone, Copy, PartialEq, Eq, Structural)]
pub enum TransactionState {
    /// Can perform operations.
    Active,
    /// Committed (read-only afterwards).
    Committed,
    /// Aborted (read-only afterwards).
    Aborted,
}

/// A buffered write.
#[derive(Debug, Clone)]
pub enum WriteOperation {
    /// Store this value.
    Put(Vec<u8>),
    /// Delete the key.
    Delete,
}

/// A read-write transaction: writes and reads are buffered per key until
/// the transaction ends.
pub struct Transaction {
    id: TransactionId,
    state: TransactionState,
    writes: StrMap<WriteOperation>,
    read_set: StrMap<Vec<u8>>,
    start_time: u64,
    commit_time: Option<u64>,
}

impl Transaction {
    pub closed spec fn spec_id(&self) -> TransactionId {
        self.id
    }

    pub closed spec fn spec_state(&self) -> TransactionState {
        self.state
    }

    /// The buffered writes, by key.
    pub closed spec fn writes_map(&self) -> Map<Seq<char>, WriteOperation> {
        self.writes.contents()
    }

    /// The recorded reads, by key.
    pub closed spec fn reads_map(&self) -> Map<Seq<char>, Vec<u8>> {
        self.read_set.contents()
    }

    pub closed spec fn spec_start_time(&self) -> u64 {
        self.start_time
    }

    pub closed spec fn spec_commit_time(&self) -> Option<u64> {
        self.commit_time
    }

    /// A new transaction with no buffered writes or reads; its start time
    /// is read from the clock.
    pub fn new(id: TransactionId, state: TransactionState) -> (t: Self)
        ensures
            t.spec_id() == id,
            t.spec_state() == state,
            t.writes_map() == Map::<Seq<char>, WriteOperation>::empty(),
            t.reads_map() == Map::<Seq<char>, Vec<u8>>::empty(),
            t.spec_commit_time() is None,
    {
        Transaction {
            id,
            state,
            writes: StrMap::new(),
            read_set: StrMap::new(),
            start_time: unix_millis(),
            commit_time: None,
        }
    }

    pub fn id(&self) -> (r: TransactionId)
        ensures
            r == self.spec_id(),
    {
        self.id
    }

    pub fn state(&self) -> (r: TransactionState)
        ensures
            r == self.spec_state(),
    {
        self.state
    }

    /// Sets the state; nothing else changes.
    pub fn set_state(&mut self, state: TransactionState)
        ensures
            final(self).spec_state() == state,
            final(self).spec_id() == old(self).spec_id(),
            final(self).writes_map() == old(self).writes_map(),
            final(self).reads_map() == old(self).reads_map(),
            final(self).spec_start_time() == old(self).spec_start_time(),
            final(self).spec_commit_time() == old(self).spec_commit_time(),
    {
        self.state = state;
    }

    pub fn is_active(&self) -> (r: bool)
        ensures
            r == (self.spec_state() == TransactionState::Active),
    {
        self.state == TransactionState::Active
    }

    pub fn is_committed(&self) -> (r: bool)
        ensures
            r == (self.spec_state() == TransactionState::Committed),
    {
        self.state == TransactionState::Committed
    }

    pub fn is_aborted(&self) -> (r: bool)
        ensures
            r == (self.spec_state() == TransactionState::Aborted),
    {
        self.state == TransactionState::Aborted
    }

    /// Buffers a put of `value` under `key`, replacing any earlier write of
    /// that key.
    pub fn put(&mut self, key: String, value: Vec<u8>)
        ensures
            final(self).writes_map() == old(self).writes_map().insert(key@, WriteOperation::Put(value)),
            final(self).writes_map().dom().len() == old(self).writes_map().dom().len() + if old(
                self,
            ).writes_map().dom().contains(key@) {
                0int
            } else {
                1int
            },
            final(self).reads_map() == old(self).reads_map(),
            final(self).spec_id() == old(self).spec_id(),
            final(self).spec_state() == old(self).spec_state(),
            final(self).spec_commit_time() == old(self).spec_commit_time(),
    {
        proof {
            self.writes.lemma_contents_finite();
        }
        let _ = self.writes.insert(key, WriteOperation::Put(value));
    }

    /// Buffers a delete of `key`, replacing any earlier write of that key.
    pub fn delete(&mut self, key: String)
        ensures
            final(self).writes_map() == old(self).writes_map().insert(key@, WriteOperation::Delete),
            final(self).writes_map().dom().len() == old(self).writes_map().dom().len() + if old(
                self,
            ).writes_map().dom().contains(key@) {
                0int
            } else {
                1int
            },
            final(self).reads_map() == old(self).reads_map(),
            final(self).spec_id() == old(self).spec_id(),
            final(self).spec_state() == old(self).spec_state(),
            final(self).spec_commit_time() == old(self).spec_commit_time(),
    {
        proof {
            self.writes.lemma_contents_finite();
        }
        let _ = self.writes.insert(key, WriteOperation::Delete);
    }

    /// The buffered write of `key`, if any.
    pub fn get_write(&self, key: &str) -> (r: Option<&WriteOperation>)
        ensures
            match r {
                Some(w) => self.writes_map().dom().contains(key@) && *w == self.writes_map()[key@],
                None => !self.writes_map().dom().contains(key@),
            },
    {
        self.writes.get(key)
    }

    /// All buffered writes.
    pub fn get_writes(&self) -> (r: &StrMap<WriteOperation>)
        ensures
            r.contents() == self.writes_map(),
    {
        &self.writes
    }

    /// Number of distinct keys written.
    pub fn write_count(&self) -> (n: usize)
        ensures
            n == self.writes_map().dom().len(),
    {
        self.writes.len()
    }

    /// Records that `key` was read with `value`.
    pub fn record_read(&mut self, key: String, value: Vec<u8>)
        ensures
            final(self).reads_map() == old(self).reads_map().insert(key@, value),
            final(self).writes_map() == old(self).writes_map(),
            final(self).spec_id() == old(self).spec_id(),
            final(self).spec_state() == old(self).spec_state(),
            final(self).spec_commit_time() == old(self).spec_commit_time(),
    {
        let _ = self.read_set.insert(key, value);
    }

    /// The recorded reads.
    pub fn get_read_set(&self) -> (r: &StrMap<Vec<u8>>)
        ensures
            r.contents() == self.reads_map(),
    {
        &self.read_set
    }

    pub fn start_time(&self) -> (r: u64)
        ensures
            r == self.spec_start_time(),
    {
        self.start_time
    }

    pub fn commit_time(&self) -> (r: Option<u64>)
        ensures
            r == self.spec_commit_time(),
    {
        self.commit_time
    }

    pub(crate) fn set_commit_time(&mut self, timestamp: u64)
        ensures
            final(self).spec_commit_time() == Some(timestamp),
            final(self).spec_start_time() == old(self).spec_start_time(),
            final(self).spec_id() == old(self).spec_id(),
            final(self).spec_state() == old(self).spec_state(),
            final(self).writes_map() == old(self).writes_map(),
            final(self).reads_map() == old(self).reads_map(),
    {
        self.commit_time = Some(timestamp);
    }

    /// Drops all buffered writes and recorded reads.
    pub fn clear(&mut self)
        ensures
            final(self).writes_map() == Map::<Seq<char>, WriteOperation>::empty(),
            final(self).reads_map() == Map::<Seq<char>, Vec<u8>>::empty(),
            final(self).spec_id() == old(self).spec_id(),
            final(self).spec_state() == old(self).spec_state(),
            final(self).spec_commit_time() == old(self).spec_commit_time(),
    {
        self.writes.clear();
        self.read_set.clear();
    }
}

/// The buffered writes after the puts and deletes `steps`, each a key and
/// its write, are applied in order to `m`.
pub open spec fn after_writes(
    m: Map<Seq<char>, WriteOperation>,
    steps: Seq<(Seq<char>, WriteOperation)>,
) -> Map<Seq<char>, WriteOperation>
    decreases steps.len(),
{
    if steps.len() == 0 {
        m
    } else {
        after_writes(m, steps.drop_last()).insert(steps.last().0, steps.last().1)
    }
}

/// The keys of the writes `steps`.
pub open spec fn written_keys(steps: Seq<(Seq<char>, WriteOperation)>) -> Set<Seq<char>> {
    steps.map_values(|w: (Seq<char>, WriteOperation)| w.0).to_set()
}

/// After a new or cleared transaction takes the puts and deletes `steps`,
/// its writes are those of the distinct keys written, so that its write
/// count is the number of distinct keys: writing a key twice counts once.
pub proof fn law_write_count_is_distinct_keys(steps: Seq<(Seq<char>, WriteOperation)>)
    ensures
        after_writes(Map::<Seq<char>, WriteOperation>::empty(), steps).dom() == written_keys(steps),
        after_writes(Map::<Seq<char>, WriteOperation>::empty(), steps).dom().len() == written_keys(steps).len(),
    decreases steps.len(),
{
    if steps.len() > 0 {
        let init = steps.drop_last();
        law_write_count_is_distinct_keys(init);
        let f = |w: (Seq<char>, WriteOperation)| w.0;
        assert(steps.map_values(f) =~= init.map_values(f).push(steps.last().0));
        assert forall|k: Seq<char>| written_keys(steps).contains(k) <==> written_keys(init).insert(steps.last().0).contains(k) by {
            if written_keys(steps).contains(k) {
                assert(steps.map_values(f).contains(k));
                let i = choose|i: int| 0 <= i < steps.map_values(f).len() && steps.map_values(f)[i] == k;
                if i < init.len() {
                    assert(init.map_values(f)[i] == k);
                }
            }
            if written_keys(init).contains(k) {
                assert(init.map_values(f).contains(k));
                let i = choose|i: int| 0 <= i < init.map_values(f).len() && init.map_values(f)[i] == k;
                assert(steps.map_values(f)[i] == k);
            }
            if k == steps.last().0 {
                assert(steps.map_values(f)[steps.len() - 1] == k);
            }
        }
        assert(written_keys(steps) =~= written_keys(init).insert(steps.last().0));
        assert(after_writes(Map::<Seq<char>, WriteOperation>::empty(), steps).dom() =~= written_keys(steps));
    }
    assert(after_writes(Map::<Seq<char>, WriteOperation>::empty(), steps).dom() =~= written_keys(steps));
}

/// `h` with `id` appended, then its oldest entry dropped if it has grown
/// beyond `max` entries.
pub open spec fn push_bounded(h: Seq<TransactionId>, id: TransactionId, max: nat) -> Seq<TransactionId> {
    if h.push(id).len() > max {
        h.push(id).drop_first()
    } else {
        h.push(id)
    }
}

/// Tracks which transactions are active and keeps a bounded history of
/// the committed and the aborted ones.
pub struct TransactionManager {
    active: Vec<TransactionId>,
    committed: Vec<TransactionId>,
    aborted: Vec<TransactionId>,
    /// Maximum length of each history.
    pub max_history: usize,
}

impl TransactionManager {
    /// The active transactions.
    pub closed spec fn active_set(&self) -> Set<TransactionId> {
        self.active@.to_set()
    }

    /// The active ids are finitely many.
    pub proof fn lemma_active_finite(&self)
        ensures
            self.active_set().finite(),
    {
        vstd::seq_lib::seq_to_set_is_finite(self.active@);
    }

    /// Ids are listed at most once.
    pub closed spec fn wf(&self) -> bool {
        self.active@.no_duplicates()
    }

    pub closed spec fn spec_max_history(&self) -> usize {
        self.max_history
    }

    pub closed spec fn committed_seq(&self) -> Seq<TransactionId> {
        self.committed@
    }

    pub closed spec fn aborted_seq(&self) -> Seq<TransactionId> {
        self.aborted@
    }

    /// Sets the maximum length of each history; the histories are cut to
    /// it only by later commits and aborts.
    pub fn set_max_history(&mut self, max_history: usize)
        ensures
            final(self).spec_max_history() == max_history,
            final(self).active_set() == old(self).active_set(),
            final(self).committed_seq() == old(self).committed_seq(),
            final(self).aborted_seq() == old(self).aborted_seq(),
            old(self).wf() ==> final(self).wf(),
    {
        self.max_history = max_history;
    }

    /// An empty manager keeping up to 1000 ids per history.
    pub fn new() -> (m: Self)
        ensures
            m.wf(),
            m.active_set() == Set::<TransactionId>::empty(),
            m.committed_seq() == Seq::<TransactionId>::empty(),
            m.aborted_seq() == Seq::<TransactionId>::empty(),
            m.spec_max_history() == 1000,
    {
        let m = TransactionManager { active: Vec::new(), committed: Vec::new(), aborted: Vec::new(), max_history: 1000 };
        assert(m.active@.to_set() =~= Set::<TransactionId>::empty());
        m
    }

    fn position(&self, txn_id: TransactionId) -> (r: Option<usize>)
        ensures
            match r {
                Some(i) => i < self.active@.len() && self.active@[i as int] == txn_id,
                None => !self.active@.contains(txn_id),
            },
    {
        let mut i: usize = 0;
        while i < self.active.len()
            invariant
                i <= self.active@.len(),
                forall|j: int| 0 <= j < i ==> self.active@[j] != txn_id,
            decreases self.active@.len() - i,
        {
            if self.active[i] == txn_id {
                return Some(i);
            }
            i += 1;
        }
        None
    }

    /// Marks `txn_id` active.
    pub fn register_transaction(&mut self, txn_id: TransactionId)
        requires
            old(self).wf(),
        ensures
            final(self).wf(),
            final(self).active_set() == old(self).active_set().insert(txn_id),
            final(self).active_set().finite(),
            final(self).active_set().len() == old(self).active_set().len() + if old(self).active_set().contains(txn_id) {
                0int
            } else {
                1int
            },
            final(self).committed_seq() == old(self).committed_seq(),
            final(self).aborted_seq() == old(self).aborted_seq(),
            final(self).spec_max_history() == old(self).spec_max_history(),
    {
        proof {
            self.lemma_active_finite();
        }
        if self.position(txn_id).is_none() {
            let ghost before = self.active@;
            self.active.push(txn_id);
            proof {
                assert(self.active@ == before.push(txn_id));
                assert(self.active@.to_set() =~= before.to_set().insert(txn_id)) by {
                    assert forall|x: TransactionId| before.to_set().insert(txn_id).contains(x) implies self.active@.contains(x) by {
                        if x == txn_id {
                            assert(self.active@[before.len() as int] == x);
                        } else {
                            let k = choose|k: int| 0 <= k < before.len() && before[k] == x;
                            assert(self.active@[k] == x);
                        }
                    }
                    assert forall|x: TransactionId| self.active@.contains(x) implies before.to_set().insert(txn_id).contains(x) by {
                        let k = choose|k: int| 0 <= k < self.active@.len() && self.active@[k] == x;
                        if k < before.len() {
                            assert(before[k] == x);
                        }
                    }
                }
                assert(self.active@.no_duplicates()) by {
                    assert forall|i: int, j: int| 0 <= i < self.active@.len() && 0 <= j < self.active@.len() && i != j implies self.active@[i] != self.active@[j] by {
                        if i < before.len() && j < before.len() {
                            assert(before[i] != before[j]);
                        } else if i < before.len() {
                            assert(before.contains(before[i]));
                        } else {
                            assert(before.contains(before[j]));
                        }
                    }
                }
            }
        } else {
            assert(self.active@.to_set() =~= self.active@.to_set().insert(txn_id));
        }
    }

    fn deactivate(&mut self, txn_id: TransactionId)
        requires
            old(self).wf(),
        ensures
            final(self).wf(),
            final(self).active_set() == old(self).active_set().remove(txn_id),
            final(self).committed_seq() == old(self).committed_seq(),
            final(self).aborted_seq() == old(self).aborted_seq(),
            final(self).spec_max_history() == old(self).spec_max_history(),
    {
        match self.position(txn_id) {
            Some(i) => {
                let ghost before = self.active@;
                self.active.remove(i);
                proof {
                    assert(self.active@ == before.remove(i as int));
                    assert(self.active@.to_set() =~= before.to_set().remove(txn_id)) by {
                        assert forall|x: TransactionId| before.to_set().remove(txn_id).contains(x) implies self.active@.contains(x) by {
                            let k = choose|k: int| 0 <= k < before.len() && before[k] == x;
                            if k < i {
                                assert(self.active@[k] == x);
                            } else {
                                assert(k != i);
                                assert(self.active@[k - 1] == x);
                            }
                        }
                        assert forall|x: TransactionId| self.active@.contains(x) implies before.to_set().remove(txn_id).contains(x) by {
                            let k = choose|k: int| 0 <= k < self.active@.len() && self.active@[k] == x;
                            if k < i {
                                assert(before[k] == x);
                                assert(before[k] != before[i as int]);
                            } else {
                                assert(before[k + 1] == x);
                                assert(before[k + 1] != before[i as int]);
                            }
                        }
                    }
                    assert(self.active@.no_duplicates()) by {
                        assert forall|a: int, b: int| 0 <= a < self.active@.len() && 0 <= b < self.active@.len() && a != b implies self.active@[a] != self.active@[b] by {
                            let a2 = if a < i { a } else { a + 1 };
                            let b2 = if b < i { b } else { b + 1 };
                            assert(self.active@[a] == before[a2] && self.active@[b] == before[b2]);
                        }
                    }
                }
            },
            None => {
                assert(self.active@.to_set() =~= self.active@.to_set().remove(txn_id));
            },
        }
    }

    /// Removes `txn_id` from the active set and appends it to the committed
    /// history, dropping the oldest entry when the history grows beyond
    /// `max_history`.
    pub fn commit_transaction(&mut self, txn_id: TransactionId)
        requires
            old(self).wf(),
        ensures
            final(self).wf(),
            final(self).active_set() == old(self).active_set().remove(txn_id),
            final(self).committed_seq() == push_bounded(old(self).committed_seq(), txn_id, old(self).spec_max_history() as nat),
            final(self).aborted_seq() == old(self).aborted_seq(),
            final(self).spec_max_history() == old(self).spec_max_history(),
    {
        self.deactivate(txn_id);
        self.committed.push(txn_id);
        if self.committed.len() > self.max_history {
            self.committed.remove(0);
            assert(self.committed@ =~= push_bounded(old(self).committed@, txn_id, old(self).spec_max_history() as nat));
        }
    }

    /// Removes `txn_id` from the active set and appends it to the aborted
    /// history, dropping the oldest entry when the history grows beyond
    /// `max_history`.
    pub fn abort_transaction(&mut self, txn_id: TransactionId)
        requires
            old(self).wf(),
        ensures
            final(self).wf(),
            final(self).active_set() == old(self).active_set().remove(txn_id),
            final(self).aborted_seq() == push_bounded(old(self).aborted_seq(), txn_id, old(self).spec_max_history() as nat),
            final(self).committed_seq() == old(self).committed_seq(),
            final(self).spec_max_history() == old(self).spec_max_history(),
    {
        self.deactivate(txn_id);
        self.aborted.push(txn_id);
        if self.aborted.len() > self.max_history {
            self.aborted.remove(0);
            assert(self.aborted@ =~= push_bounded(old(self).aborted@, txn_id, old(self).spec_max_history() as nat));
        }
    }

    /// Whether `txn_id` is active.
    pub fn is_active(&self, txn_id: TransactionId) -> (r: bool)
        ensures
            r == self.active_set().contains(txn_id),
    {
        self.position(txn_id).is_some()
    }

    /// The active transaction ids, each once.
    pub fn get_active_transactions(&self) -> (r: Vec<TransactionId>)
        requires
            self.wf(),
        ensures
            r@.to_set() == self.active_set(),
            r@.no_duplicates(),
    {
        let mut r: Vec<TransactionId> = Vec::new();
        let mut i: usize = 0;
        while i < self.active.len()
            invariant
                i <= self.active@.len(),
                r@ == self.active@.subrange(0, i as int),
            decreases self.active@.len() - i,
        {
            r.push(self.active[i]);
            i += 1;
        }
        assert(r@ =~= self.active@);
        r
    }

    /// Committed ids, oldest first.
    pub fn get_committed_transactions(&self) -> (r: &[TransactionId])
        ensures
            r@ == self.committed_seq(),
    {
        self.committed.as_slice()
    }

    /// Aborted ids, oldest first.
    pub fn get_aborted_transactions(&self) -> (r: &[TransactionId])
        ensures
            r@ == self.aborted_seq(),
    {
        self.aborted.as_slice()
    }

    /// Number of active transactions.
    pub fn active_count(&self) -> (n: usize)
        requires
            self.wf(),
        ensures
            n == self.active_set().len(),
    {
        proof {
            self.active@.unique_seq_to_set();
        }
        self.active.len()
    }

    /// Empties both histories.
    pub fn clear_history(&mut self)
        requires
            old(self).wf(),
        ensures
            final(self).wf(),
            final(self).active_set() == old(self).active_set(),
            final(self).committed_seq() == Seq::<TransactionId>::empty(),
            final(self).aborted_seq() == Seq::<TransactionId>::empty(),
            final(self).spec_max_history() == old(self).spec_max_history(),
    {
        self.committed.clear();
        self.aborted.clear();
    }
}

impl Default for TransactionManager {
    fn default() -> (m: Self)
        ensures
            m.wf(),
            m.active_set() == Set::<TransactionId>::empty(),
            m.committed_seq() == Seq::<TransactionId>::empty(),
            m.aborted_seq() == Seq::<TransactionId>::empty(),
            m.spec_max_history() == 1000,
    {
        Self::new()
    }
}

} // verus!
