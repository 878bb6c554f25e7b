//! Per-key version chains: every write adds a version at the head, readers
//! take the newest version their visibility rule accepts, and garbage
//! collection keeps a bounded number of recent versions.
use vstd::prelude::*;
use crate::clock::unix_millis;
use crate::mvcc::transaction::TransactionId;
use crate::mvcc::MvccStats;
use vstd::string::StringExecFns;
use dashmap::DashMap;

verus! {

/// One version of a key.
pub struct Version {
    /// Transaction that wrote this version.
    pub txn_id: TransactionId,
    /// The value (`None` for a delete).
    pub value: Option<Vec<u8>>,
    /// Whether this version is a tombstone.
    pub deleted: bool,
    /// Creation time in milliseconds since the Unix epoch.
    pub timestamp: u64,
}

/// Copies a byte vector.
fn copy_bytes(v: &Vec<u8>) -> (r: Vec<u8>)
    ensures
        r@ == v@,
{
    let mut r: Vec<u8> = Vec::new();
    let mut i: usize = 0;
    while i < v.len()
        invariant
            i <= v@.len(),
            r@ == v@.subrange(0, i as int),
        decreases v@.len() - i,
    {
        r.push(v[i]);
        i += 1;
    }
    assert(r@ =~= v@);
    r
}

impl Version {
    /// A version stamped with the current clock time.
    pub fn new(txn_id: TransactionId, value: Option<Vec<u8>>, deleted: bool) -> (v: Self)
        ensures
            v.txn_id == txn_id,
            v.value == value,
            v.deleted == deleted,
    {
        Version { txn_id, value, deleted, timestamp: unix_millis() }
    }

    /// A version with the given timestamp.
    pub fn with_timestamp(txn_id: TransactionId, value: Option<Vec<u8>>, deleted: bool, timestamp: u64) -> (v: Self)
        ensures
            v.txn_id == txn_id,
            v.value == value,
            v.deleted == deleted,
            v.timestamp == timestamp,
    {
        Version { txn_id, value, deleted, timestamp }
    }

    /// Whether this version carries a value (it is no tombstone).
    pub fn has_value(&self) -> (r: bool)
        ensures
            r == (!self.deleted && self.value is Some),
    {
        !self.deleted && self.value.is_some()
    }

    /// The value's bytes, if any.
    pub fn value_bytes(&self) -> (r: Option<&[u8]>)
        ensures
            match self.value {
                Some(v) => r is Some && r->0@ == v@,
                None => r is None,
            },
    {
        match &self.value {
            Some(v) => Some(v.as_slice()),
            None => None,
        }
    }

    /// A copy of this version.
    pub fn duplicate(&self) -> (r: Version)
        ensures
            r.txn_id == self.txn_id,
            r.deleted == self.deleted,
            r.timestamp == self.timestamp,
            r.value is Some <==> self.value is Some,
            r.value is Some ==> r.value->0@ == self.value->0@,
    {
        let value = match &self.value {
            Some(v) => Some(copy_bytes(v)),
            None => None,
        };
        Version { txn_id: self.txn_id, value, deleted: self.deleted, timestamp: self.timestamp }
    }
}

/// Size of a version's value in bytes (0 when it has none).
pub open spec fn value_size_of(v: Version) -> nat {
    match v.value {
        Some(b) => b@.len(),
        None => 0,
    }
}

/// A light handle on a version.
#[derive(Debug, Clone, Copy)]
pub struct VersionRef {
    pub txn_id: TransactionId,
    pub deleted: bool,
    /// Size of the value (0 when there is none).
    pub value_size: usize,
    pub timestamp: u64,
}

impl VersionRef {
    /// The handle of `version`.
    pub fn from_version(version: &Version) -> (r: VersionRef)
        ensures
            r.txn_id == version.txn_id,
            r.deleted == version.deleted,
            r.value_size == value_size_of(*version),
            r.timestamp == version.timestamp,
    {
        let value_size = match &version.value {
            Some(b) => b.len(),
            None => 0,
        };
        VersionRef { txn_id: version.txn_id, deleted: version.deleted, value_size, timestamp: version.timestamp }
    }
}

/// The versions of `v` (stored oldest first), newest first.
pub open spec fn newest_first(v: Seq<Version>) -> Seq<Version> {
    Seq::new(v.len(), |i: int| v[v.len() - 1 - i])
}

/// What garbage collection keeps of a newest-first chain: the first `max`
/// versions written by transactions at or above `min`.
pub open spec fn gc_keep(s: Seq<Version>, min: TransactionId, max: nat) -> Seq<Version>
    decreases s.len(),
{
    if s.len() == 0 || max == 0 {
        Seq::empty()
    } else if s[0].txn_id >= min {
        seq![s[0]] + gc_keep(s.drop_first(), min, (max - 1) as nat)
    } else {
        gc_keep(s.drop_first(), min, max)
    }
}

/// What garbage collection keeps of a newest-first chain: the latest
/// version always, then, of the older ones, the first `max - 1` written by
/// transactions at or above `min`.
pub open spec fn gc_result(s: Seq<Version>, min: TransactionId, max: nat) -> Seq<Version> {
    if s.len() == 0 {
        Seq::empty()
    } else {
        seq![s[0]] + gc_keep(s.drop_first(), min, if max > 0 { (max - 1) as nat } else { 0 })
    }
}

/// Garbage collection keeps at most `max` versions, and never more than
/// the chain held.
pub proof fn lemma_gc_keep_len(s: Seq<Version>, min: TransactionId, max: nat)
    ensures
        gc_keep(s, min, max).len() <= max,
        gc_keep(s, min, max).len() <= s.len(),
    decreases s.len(),
{
    if s.len() == 0 || max == 0 {
    } else if s[0].txn_id >= min {
        lemma_gc_keep_len(s.drop_first(), min, (max - 1) as nat);
    } else {
        lemma_gc_keep_len(s.drop_first(), min, max);
    }
}

/// What a version holds, its bytes as a sequence.
pub struct VersionView {
    pub txn_id: TransactionId,
    pub value: Option<Seq<u8>>,
    pub deleted: bool,
    pub timestamp: u64,
}

impl View for Version {
    type V = VersionView;

    open spec fn view(&self) -> VersionView {
        VersionView {
            txn_id: self.txn_id,
            value: match self.value {
                Some(v) => Some(v@),
                None => None,
            },
            deleted: self.deleted,
            timestamp: self.timestamp,
        }
    }
}

/// The bytes of `value`, if any.
pub open spec fn bytes_view(value: Option<Vec<u8>>) -> Option<Seq<u8>> {
    match value {
        Some(v) => Some(v@),
        None => None,
    }
}

/// The view of a version written by `txn_id` with `value` at `timestamp`.
pub open spec fn version_view(txn_id: TransactionId, value: Option<Seq<u8>>, deleted: bool, timestamp: u64) -> VersionView {
    VersionView { txn_id, value, deleted, timestamp }
}

/// What a chain holds: its key and its versions, newest first.
pub struct ChainView {
    pub key: Seq<char>,
    pub versions: Seq<VersionView>,
}

/// The views of the versions `s`.
pub open spec fn version_views(s: Seq<Version>) -> Seq<VersionView> {
    s.map_values(|v: Version| v@)
}

/// `gc_keep` on version views.
pub open spec fn gc_keep_views(s: Seq<VersionView>, min: TransactionId, max: nat) -> Seq<VersionView>
    decreases s.len(),
{
    if s.len() == 0 || max == 0 {
        Seq::empty()
    } else if s[0].txn_id >= min {
        seq![s[0]] + gc_keep_views(s.drop_first(), min, (max - 1) as nat)
    } else {
        gc_keep_views(s.drop_first(), min, max)
    }
}

/// `gc_result` on version views.
pub open spec fn gc_result_views(s: Seq<VersionView>, min: TransactionId, max: nat) -> Seq<VersionView> {
    if s.len() == 0 {
        Seq::empty()
    } else {
        seq![s[0]] + gc_keep_views(s.drop_first(), min, if max > 0 { (max - 1) as nat } else { 0 })
    }
}

proof fn lemma_gc_keep_views(s: Seq<Version>, min: TransactionId, max: nat)
    ensures
        version_views(gc_keep(s, min, max)) == gc_keep_views(version_views(s), min, max),
    decreases s.len(),
{
    if s.len() > 0 {
        assert(version_views(s).drop_first() =~= version_views(s.drop_first()));
    }
    if s.len() == 0 || max == 0 {
        assert(version_views(Seq::<Version>::empty()) =~= Seq::<VersionView>::empty());
    } else if s[0].txn_id >= min {
        lemma_gc_keep_views(s.drop_first(), min, (max - 1) as nat);
        assert(version_views(seq![s[0]] + gc_keep(s.drop_first(), min, (max - 1) as nat)) =~= seq![s[0]@]
            + version_views(gc_keep(s.drop_first(), min, (max - 1) as nat)));
    } else {
        lemma_gc_keep_views(s.drop_first(), min, max);
    }
}

proof fn lemma_gc_result_views(s: Seq<Version>, min: TransactionId, max: nat)
    ensures
        version_views(gc_result(s, min, max)) == gc_result_views(version_views(s), min, max),
{
    if s.len() == 0 {
        assert(version_views(Seq::<Version>::empty()) =~= Seq::<VersionView>::empty());
    } else {
        let m = if max > 0 { (max - 1) as nat } else { 0 };
        lemma_gc_keep_views(s.drop_first(), min, m);
        assert(version_views(s).drop_first() =~= version_views(s.drop_first()));
        assert(version_views(seq![s[0]] + gc_keep(s.drop_first(), min, m)) =~= seq![s[0]@] + version_views(
            gc_keep(s.drop_first(), min, m),
        ));
    }
}

/// The versions of one key, newest at the head.
pub struct VersionChain {
    key: String,
    versions: Vec<Version>,
    stats: Option<MvccStats>,
}

impl View for VersionChain {
    type V = ChainView;

    open spec fn view(&self) -> ChainView {
        ChainView { key: self.spec_key(), versions: version_views(self.chain()) }
    }
}

impl VersionChain {
    /// The chain, newest version first.
    pub closed spec fn chain(&self) -> Seq<Version> {
        newest_first(self.versions@)
    }

    pub closed spec fn spec_key(&self) -> Seq<char> {
        self.key@
    }

    pub closed spec fn spec_stats(&self) -> Option<MvccStats> {
        self.stats
    }

    /// A copy of this chain.
    pub fn duplicate(&self) -> (r: Self)
        ensures
            r@ == self@,
            r.spec_stats() == self.spec_stats(),
    {
        let mut versions: Vec<Version> = Vec::new();
        let mut i: usize = 0;
        while i < self.versions.len()
            invariant
                i <= self.versions@.len(),
                versions@.len() == i,
                forall|j: int| 0 <= j < i ==> (#[trigger] versions@[j])@ == self.versions@[j]@,
            decreases self.versions@.len() - i,
        {
            versions.push(self.versions[i].duplicate());
            i += 1;
        }
        let r = VersionChain { key: String::from_str(self.key.as_str()), versions, stats: self.stats };
        proof {
            assert(version_views(r.chain()) =~= version_views(self.chain()));
        }
        r
    }

    /// An empty chain for `key`, counting into `stats` when given.
    pub fn new(key: String, stats: Option<MvccStats>) -> (c: Self)
        ensures
            c.chain() == Seq::<Version>::empty(),
            c.spec_key() == key@,
            c.spec_stats() == stats,
    {
        let c = VersionChain { key, versions: Vec::new(), stats };
        assert(c.chain() =~= Seq::<Version>::empty());
        c
    }

    /// Adds `version` at the head and counts it.
    pub fn append(&mut self, version: Version)
        ensures
            final(self).chain() == seq![version] + old(self).chain(),
            final(self).spec_key() == old(self).spec_key(),
            match (old(self).spec_stats(), final(self).spec_stats()) {
                (Some(a), Some(b)) => b == (MvccStats {
                    versions_created: a.versions_created.wrapping_add(1),
                    ..a
                }),
                (None, None) => true,
                _ => false,
            },
    {
        let ghost before = self.versions@;
        let ghost version_copy = version;
        self.versions.push(version);
        if let Some(s) = &mut self.stats {
            s.versions_created = s.versions_created.wrapping_add(1);
        }
        assert(self.chain() =~= seq![version_copy] + newest_first(before));
    }

    /// Adds a version with `value` written by `txn_id`.
    pub fn put(&mut self, txn_id: TransactionId, value: Vec<u8>)
        ensures
            final(self).chain().len() == old(self).chain().len() + 1,
            final(self).chain()[0].txn_id == txn_id,
            final(self).chain()[0].value == Some(value),
            !final(self).chain()[0].deleted,
            final(self).chain().drop_first() == old(self).chain(),
            final(self).spec_key() == old(self).spec_key(),
    {
        let version = Version::new(txn_id, Some(value), false);
        self.append(version);
        assert((seq![version] + old(self).chain()).drop_first() =~= old(self).chain());
    }

    /// Adds a tombstone written by `txn_id`.
    pub fn delete(&mut self, txn_id: TransactionId)
        ensures
            final(self).chain().len() == old(self).chain().len() + 1,
            final(self).chain()[0].txn_id == txn_id,
            final(self).chain()[0].value is None,
            final(self).chain()[0].deleted,
            final(self).chain().drop_first() == old(self).chain(),
            final(self).spec_key() == old(self).spec_key(),
    {
        let version = Version::new(txn_id, None, true);
        self.append(version);
        assert((seq![version] + old(self).chain()).drop_first() =~= old(self).chain());
    }

    /// The newest version whose writer `is_visible` accepts.
    pub fn get_visible<F: Fn(TransactionId) -> bool>(&self, is_visible: F) -> (r: Option<&Version>)
        requires
            forall|t: TransactionId| call_requires(is_visible, (t,)),
        ensures
            match r {
                Some(v) => exists|k: int|
                    0 <= k < self.chain().len() && *v == self.chain()[k] && call_ensures(is_visible, (self.chain()[k].txn_id,), true)
                        && forall|j: int| 0 <= j < k ==> call_ensures(is_visible, (#[trigger] self.chain()[j].txn_id,), false),
                None => forall|j: int| 0 <= j < self.chain().len() ==> call_ensures(is_visible, (#[trigger] self.chain()[j].txn_id,), false),
            },
    {
        let n = self.versions.len();
        let mut i: usize = n;
        while i > 0
            invariant
                n == self.versions@.len(),
                i <= n,
                forall|t: TransactionId| call_requires(is_visible, (t,)),
                forall|j: int| 0 <= j < n - i ==> call_ensures(is_visible, (#[trigger] self.chain()[j].txn_id,), false),
            decreases i,
        {
            let v = &self.versions[i - 1];
            let ok = is_visible(v.txn_id);
            proof {
                assert(self.chain()[n - i] == self.versions@[i - 1]);
            }
            if ok {
                return Some(v);
            }
            i -= 1;
        }
        None
    }

    /// The newest version.
    pub fn get_latest(&self) -> (r: Option<&Version>)
        ensures
            match r {
                Some(v) => self.chain().len() > 0 && *v == self.chain()[0],
                None => self.chain().len() == 0,
            },
    {
        let n = self.versions.len();
        if n == 0 {
            None
        } else {
            Some(&self.versions[n - 1])
        }
    }

    /// All versions, newest first.
    pub fn get_all_versions(&self) -> (r: Vec<&Version>)
        ensures
            r@.len() == self.chain().len(),
            forall|k: int| 0 <= k < r@.len() ==> *r@[k] == self.chain()[k],
    {
        let n = self.versions.len();
        let mut r: Vec<&Version> = Vec::new();
        let mut i: usize = n;
        while i > 0
            invariant
                n == self.versions@.len(),
                i <= n,
                r@.len() == n - i,
                forall|k: int| 0 <= k < r@.len() ==> *r@[k] == self.chain()[k],
            decreases i,
        {
            r.push(&self.versions[i - 1]);
            i -= 1;
        }
        r
    }

    /// Number of versions.
    pub fn version_count(&self) -> (n: usize)
        ensures
            n == self.chain().len(),
    {
        self.versions.len()
    }

    /// Handles on all versions, newest first.
    pub fn get_version_refs(&self) -> (r: Vec<VersionRef>)
        ensures
            r@.len() == self.chain().len(),
            forall|k: int| 0 <= k < r@.len() ==> {
                &&& (#[trigger] r@[k]).txn_id == self.chain()[k].txn_id
                &&& r@[k].deleted == self.chain()[k].deleted
                &&& r@[k].value_size == value_size_of(self.chain()[k])
                &&& r@[k].timestamp == self.chain()[k].timestamp
            },
    {
        let n = self.versions.len();
        let mut r: Vec<VersionRef> = Vec::new();
        let mut i: usize = n;
        while i > 0
            invariant
                n == self.versions@.len(),
                i <= n,
                r@.len() == n - i,
                forall|k: int| 0 <= k < r@.len() ==> {
                    &&& (#[trigger] r@[k]).txn_id == self.chain()[k].txn_id
                    &&& r@[k].deleted == self.chain()[k].deleted
                    &&& r@[k].value_size == value_size_of(self.chain()[k])
                    &&& r@[k].timestamp == self.chain()[k].timestamp
                },
            decreases i,
        {
            r.push(VersionRef::from_version(&self.versions[i - 1]));
            i -= 1;
        }
        r
    }

    /// Keeps the latest version and, newest first, at most
    /// `max_versions - 1` older versions written by transactions at or
    /// above `min_visible_txn_id`; drops the rest, and returns how many
    /// were dropped (also added to the collected counter).
    pub fn garbage_collect(&mut self, min_visible_txn_id: TransactionId, max_versions: usize) -> (collected: usize)
        ensures
            final(self).chain() == gc_result(old(self).chain(), min_visible_txn_id, max_versions as nat),
            collected == old(self).chain().len() - final(self).chain().len(),
            final(self).spec_key() == old(self).spec_key(),
            match (old(self).spec_stats(), final(self).spec_stats()) {
                (Some(a), Some(b)) => b == (MvccStats {
                    versions_gc_collected: a.versions_gc_collected.wrapping_add(collected as u64),
                    ..a
                }),
                (None, None) => true,
                _ => false,
            },
    {
        let ghost chain0 = self.chain();
        let mut old_versions: Vec<Version> = Vec::new();
        std::mem::swap(&mut old_versions, &mut self.versions);
        let original_count = old_versions.len();
        let mut kept: Vec<Version> = Vec::new();
        proof {
            assert(newest_first(old_versions@) =~= chain0);
        }
        if old_versions.len() == 0 {
            proof {
                assert(self.chain() =~= Seq::<Version>::empty());
                assert(gc_result(chain0, min_visible_txn_id, max_versions as nat) =~= Seq::<Version>::empty());
            }
            return 0;
        }
        let latest = old_versions.pop().unwrap();
        let ghost rest0 = newest_first(old_versions@);
        proof {
            assert(chain0[0] == latest);
            assert(chain0.drop_first() =~= rest0);
        }
        let limit: usize = if max_versions > 0 { max_versions - 1 } else { 0 };
        while old_versions.len() > 0
            invariant
                kept@.len() <= limit,
                original_count == chain0.len(),
                kept@ + gc_keep(newest_first(old_versions@), min_visible_txn_id, (limit - kept@.len()) as nat)
                    == gc_keep(rest0, min_visible_txn_id, limit as nat),
            decreases old_versions@.len(),
        {
            let ghost rest = newest_first(old_versions@);
            let ghost m2 = (limit - kept@.len()) as nat;
            let v = old_versions.pop().unwrap();
            proof {
                assert(rest[0] == v);
                assert(rest.drop_first() =~= newest_first(old_versions@));
            }
            if kept.len() < limit && v.txn_id >= min_visible_txn_id {
                let ghost before = kept@;
                kept.push(v);
                proof {
                    assert(gc_keep(rest, min_visible_txn_id, m2) == seq![v] + gc_keep(rest.drop_first(), min_visible_txn_id, (m2 - 1) as nat));
                    assert(kept@ + gc_keep(rest.drop_first(), min_visible_txn_id, (m2 - 1) as nat) =~= before + (seq![v] + gc_keep(rest.drop_first(), min_visible_txn_id, (m2 - 1) as nat)));
                }
            } else {
                proof {
                    if m2 == 0 {
                        assert(gc_keep(rest.drop_first(), min_visible_txn_id, 0) =~= Seq::<Version>::empty());
                    }
                }
            }
        }
        proof {
            assert(newest_first(old_versions@) =~= Seq::<Version>::empty());
            assert(gc_keep(Seq::<Version>::empty(), min_visible_txn_id, (limit - kept@.len()) as nat) =~= Seq::<Version>::empty());
            assert(kept@ =~= gc_keep(rest0, min_visible_txn_id, limit as nat));
            lemma_gc_keep_len(rest0, min_visible_txn_id, limit as nat);
        }
        kept.insert(0, latest);
        proof {
            assert(kept@ =~= gc_result(chain0, min_visible_txn_id, max_versions as nat));
        }
        let kept_count = kept.len();
        let ghost kept_seq = kept@;
        let mut rebuilt: Vec<Version> = Vec::new();
        while kept.len() > 0
            invariant
                kept_seq.len() == kept@.len() + rebuilt@.len(),
                forall|i: int| 0 <= i < kept@.len() ==> kept@[i] == kept_seq[i],
                forall|i: int| 0 <= i < rebuilt@.len() ==> rebuilt@[i] == kept_seq[kept_seq.len() - 1 - i],
            decreases kept@.len(),
        {
            let v = kept.pop().unwrap();
            rebuilt.push(v);
        }
        self.versions = rebuilt;
        proof {
            assert(self.chain() =~= kept_seq);
        }
        let collected = original_count - kept_count;
        if let Some(s) = &mut self.stats {
            s.versions_gc_collected = s.versions_gc_collected.wrapping_add(collected as u64);
        }
        collected
    }

    /// The key of this chain.
    pub fn key(&self) -> (r: &str)
        ensures
            r@ == self.spec_key(),
    {
        self.key.as_str()
    }

    /// Whether the chain has no versions.
    pub fn is_empty(&self) -> (r: bool)
        ensures
            r == (self.chain().len() == 0),
    {
        self.versions.len() == 0
    }

    /// Drops every version.
    pub fn clear(&mut self)
        ensures
            final(self).chain() == Seq::<Version>::empty(),
            final(self).spec_key() == old(self).spec_key(),
            final(self).spec_stats() == old(self).spec_stats(),
    {
        self.versions = Vec::new();
        assert(self.chain() =~= Seq::<Version>::empty());
    }

    /// The counters, if this chain keeps them.
    pub fn stats(&self) -> (r: Option<&MvccStats>)
        ensures
            match self.spec_stats() {
                Some(s) => r is Some && *r->0 == s,
                None => r is None,
            },
    {
        match &self.stats {
            Some(s) => Some(s),
            None => None,
        }
    }
}


/// The chains of a registry's concurrent map, by key.
pub uninterp spec fn registry_chains(m: DashMap<String, VersionChain>) -> Map<Seq<char>, ChainView>;

/// `DashMap::new`: an empty map.
#[verifier::external_body]
fn chains_new() -> (m: DashMap<String, VersionChain>)
    ensures
        registry_chains(m).dom() == Set::<Seq<char>>::empty(),
{
    DashMap::new()
}

/// `DashMap::get`, with the chain found copied out.
#[verifier::external_body]
fn chains_get(m: &DashMap<String, VersionChain>, key: &str) -> (r: Option<VersionChain>)
    ensures
        r matches Some(c) ==> registry_chains(*m).dom().contains(key@) && c@ == registry_chains(*m)[key@],
        r is None ==> !registry_chains(*m).dom().contains(key@),
{
    m.get(key).map(|r| r.value().duplicate())
}

/// `DashMap::insert`: maps `key` to `c`, replacing the chain it had.
#[verifier::external_body]
fn chains_insert(m: &mut DashMap<String, VersionChain>, key: String, c: VersionChain)
    ensures
        registry_chains(*final(m)) == registry_chains(*old(m)).insert(key@, c@),
{
    m.insert(key, c);
}

/// `DashMap::len`: the number of keys.
#[verifier::external_body]
fn chains_len(m: &DashMap<String, VersionChain>) -> (n: usize)
    ensures
        n == registry_chains(*m).dom().len(),
{
    m.len()
}

/// `DashMap::clear`: removes every chain.
#[verifier::external_body]
fn chains_clear(m: &mut DashMap<String, VersionChain>)
    ensures
        registry_chains(*final(m)).dom() == Set::<Seq<char>>::empty(),
{
    m.clear()
}

/// `DashMap::iter`, with each key and chain copied out: every chain once,
/// in an order that the map does not fix.
#[verifier::external_body]
fn chains_list(m: &DashMap<String, VersionChain>) -> (v: Vec<(String, VersionChain)>)
    ensures
        v@.len() == registry_chains(*m).dom().len(),
        forall|i: int| 0 <= i < v@.len() ==> registry_chains(*m).dom().contains(#[trigger] v@[i].0@)
            && registry_chains(*m)[v@[i].0@] == v@[i].1@,
        forall|i: int, j: int| 0 <= i < j < v@.len() ==> (#[trigger] v@[i]).0@ != (#[trigger] v@[j]).0@,
{
    m.iter().map(|r| (r.key().clone(), r.value().duplicate())).collect()
}

/// Whether `ks` lists the keys of `m`, each once.
pub open spec fn listing(m: Map<Seq<char>, ChainView>, ks: Seq<Seq<char>>) -> bool {
    &&& ks.no_duplicates()
    &&& ks.len() == m.dom().len()
    &&& forall|i: int| 0 <= i < ks.len() ==> m.dom().contains(#[trigger] ks[i])
}

/// The number of versions of the keys `ks` in `m`.
pub open spec fn versions_total(m: Map<Seq<char>, ChainView>, ks: Seq<Seq<char>>) -> nat
    decreases ks.len(),
{
    if ks.len() == 0 {
        0
    } else {
        versions_total(m, ks.drop_last()) + m[ks.last()].versions.len()
    }
}

proof fn lemma_total_agree(m1: Map<Seq<char>, ChainView>, m2: Map<Seq<char>, ChainView>, ks: Seq<Seq<char>>)
    requires
        forall|i: int| 0 <= i < ks.len() ==> m1[#[trigger] ks[i]].versions.len() == m2[ks[i]].versions.len(),
    ensures
        versions_total(m1, ks) == versions_total(m2, ks),
    decreases ks.len(),
{
    if ks.len() > 0 {
        assert forall|i: int| 0 <= i < ks.drop_last().len() implies m1[#[trigger] ks.drop_last()[i]].versions.len()
            == m2[ks.drop_last()[i]].versions.len() by {
            assert(ks.drop_last()[i] == ks[i]);
        }
        lemma_total_agree(m1, m2, ks.drop_last());
        assert(m1[ks[ks.len() - 1]].versions.len() == m2[ks[ks.len() - 1]].versions.len());
    }
}

proof fn lemma_total_mono(m: Map<Seq<char>, ChainView>, ks: Seq<Seq<char>>, k: int)
    requires
        0 <= k <= ks.len(),
    ensures
        versions_total(m, ks.take(k)) <= versions_total(m, ks),
    decreases ks.len() - k,
{
    if k < ks.len() {
        lemma_total_mono(m, ks, k + 1);
        assert(ks.take(k + 1).drop_last() =~= ks.take(k));
    } else {
        assert(ks.take(k) =~= ks);
    }
}

/// A listing of a finite map's keys names every key.
proof fn lemma_listing_covers(m: Map<Seq<char>, ChainView>, ks: Seq<Seq<char>>, k: Seq<char>)
    requires
        m.dom().finite(),
        listing(m, ks),
        m.dom().contains(k),
    ensures
        exists|j: int| 0 <= j < ks.len() && ks[j] == k,
{
    let s = ks.to_set();
    assert forall|x: Seq<char>| s.contains(x) implies m.dom().contains(x) by {
        let j = choose|j: int| 0 <= j < ks.len() && ks[j] == x;
    }
    ks.unique_seq_to_set();
    assert(s.len() == m.dom().len());
    vstd::set_lib::lemma_subset_equality(s, m.dom());
    assert(s.contains(k));
}

/// The version chains of all keys, one per key, in a concurrent map.
pub struct VersionChainRegistry {
    chains: DashMap<String, VersionChain>,
}

impl VersionChainRegistry {
    /// The chains, by key.
    pub closed spec fn chain_map(&self) -> Map<Seq<char>, ChainView> {
        registry_chains(self.chains)
    }

    /// Finitely many chains, each under its own key.
    pub open spec fn wf(&self) -> bool {
        &&& self.chain_map().dom().finite()
        &&& forall|k: Seq<char>| #[trigger] self.chain_map().dom().contains(k) ==> self.chain_map()[k].key == k
    }

    /// Whether `key` has a chain.
    pub open spec fn has(&self, key: Seq<char>) -> bool {
        self.chain_map().dom().contains(key)
    }

    /// The versions of `key`, newest first; none where it has no chain.
    pub open spec fn versions_of(&self, key: Seq<char>) -> Seq<VersionView> {
        if self.has(key) {
            self.chain_map()[key].versions
        } else {
            Seq::empty()
        }
    }

    /// An empty registry.
    pub fn new() -> (r: Self)
        ensures
            r.wf(),
            r.chain_map().dom() == Set::<Seq<char>>::empty(),
    {
        VersionChainRegistry { chains: chains_new() }
    }

    /// Gives `key` a chain, empty where it had none.
    pub fn get_or_create(&mut self, key: &str)
        requires
            old(self).wf(),
        ensures
            final(self).wf(),
            final(self).has(key@),
            old(self).has(key@) ==> final(self).chain_map() == old(self).chain_map(),
            !old(self).has(key@) ==> final(self).chain_map() == old(self).chain_map().insert(
                key@,
                ChainView { key: key@, versions: Seq::empty() },
            ),
    {
        match chains_get(&self.chains, key) {
            Some(_) => {},
            None => {
                let c = VersionChain::new(String::from_str(key), None);
                proof {
                    assert(c@ == ChainView { key: key@, versions: Seq::<VersionView>::empty() }) by {
                        assert(version_views(c.chain()) =~= Seq::<VersionView>::empty());
                    }
                }
                chains_insert(&mut self.chains, String::from_str(key), c);
            },
        }
    }

    /// A copy of the chain of `key`, if it has one.
    pub fn get(&self, key: &str) -> (r: Option<VersionChain>)
        ensures
            r matches Some(c) ==> self.has(key@) && c@ == self.chain_map()[key@],
            r is None ==> !self.has(key@),
    {
        chains_get(&self.chains, key)
    }

    fn add_version(&mut self, key: &str, txn_id: TransactionId, value: Option<Vec<u8>>)
        requires
            old(self).wf(),
        ensures
            final(self).wf(),
            exists|t: u64|
                final(self).chain_map() == old(self).chain_map().insert(
                    key@,
                    ChainView {
                        key: key@,
                        versions: seq![
                            #[trigger] version_view(txn_id, bytes_view(value), value is None, t),
                        ] + old(self).versions_of(key@),
                    },
                ),
    {
        let mut c = match chains_get(&self.chains, key) {
            Some(c) => c,
            None => {
                let c = VersionChain::new(String::from_str(key), None);
                proof {
                    assert(version_views(c.chain()) =~= Seq::<VersionView>::empty());
                }
                c
            },
        };
        let ghost c0 = c;
        let ghost vv = value;
        match value {
            Some(v) => c.put(txn_id, v),
            None => c.delete(txn_id),
        }
        proof {
            let t = c.chain()[0].timestamp;
            let nv = version_view(txn_id, bytes_view(vv), vv is None, t);
            assert(c.chain() =~= seq![c.chain()[0]] + c0.chain());
            assert(c.chain()[0]@ == nv);
            assert(version_views(c.chain()) =~= seq![nv] + version_views(c0.chain()));
            assert(c@ == ChainView { key: key@, versions: seq![nv] + old(self).versions_of(key@) });
        }
        chains_insert(&mut self.chains, String::from_str(key), c);
    }

    /// Adds to the chain of `key`, created where it had none, a version
    /// with `value` written by `txn_id`, stamped with the clock's time.
    pub fn put(&mut self, key: &str, txn_id: TransactionId, value: Vec<u8>)
        requires
            old(self).wf(),
        ensures
            final(self).wf(),
            exists|t: u64|
                final(self).chain_map() == old(self).chain_map().insert(
                    key@,
                    ChainView {
                        key: key@,
                        versions: seq![#[trigger] version_view(txn_id, Some(value@), false, t)]
                            + old(self).versions_of(key@),
                    },
                ),
    {
        self.add_version(key, txn_id, Some(value));
    }

    /// Adds to the chain of `key`, created where it had none, a tombstone
    /// written by `txn_id`, stamped with the clock's time.
    pub fn delete(&mut self, key: &str, txn_id: TransactionId)
        requires
            old(self).wf(),
        ensures
            final(self).wf(),
            exists|t: u64|
                final(self).chain_map() == old(self).chain_map().insert(
                    key@,
                    ChainView {
                        key: key@,
                        versions: seq![#[trigger] version_view(txn_id, None, true, t)]
                            + old(self).versions_of(key@),
                    },
                ),
    {
        self.add_version(key, txn_id, None);
    }

    /// The keys, each once, in no fixed order.
    pub fn get_all_keys(&self) -> (ks: Vec<String>)
        ensures
            ks@.len() == self.chain_map().dom().len(),
            forall|i: int| 0 <= i < ks@.len() ==> self.has(#[trigger] ks@[i]@),
            forall|i: int, j: int| 0 <= i < j < ks@.len() ==> (#[trigger] ks@[i])@ != (#[trigger] ks@[j])@,
    {
        let list = chains_list(&self.chains);
        let mut ks: Vec<String> = Vec::new();
        let mut i: usize = 0;
        while i < list.len()
            invariant
                i <= list@.len(),
                ks@.len() == i,
                forall|j: int| 0 <= j < i ==> (#[trigger] ks@[j])@ == list@[j].0@,
            decreases list@.len() - i,
        {
            ks.push(String::from_str(list[i].0.as_str()));
            i += 1;
        }
        proof {
            assert forall|a: int, b: int| 0 <= a < b < ks@.len() implies (#[trigger] ks@[a])@ != (#[trigger] ks@[b])@ by {
                assert(list@[a].0@ != list@[b].0@);
            }
            assert forall|a: int| 0 <= a < ks@.len() implies self.has(#[trigger] ks@[a]@) by {
                assert(self.chain_map().dom().contains(list@[a].0@));
            }
        }
        ks
    }

    /// The number of keys.
    pub fn key_count(&self) -> (n: usize)
        ensures
            n == self.chain_map().dom().len(),
    {
        chains_len(&self.chains)
    }

    /// The number of versions of all keys.
    pub fn total_version_count(&self) -> (n: usize)
        requires
            forall|ks: Seq<Seq<char>>| listing(self.chain_map(), ks) ==> versions_total(self.chain_map(), ks) <= usize::MAX,
        ensures
            exists|ks: Seq<Seq<char>>| listing(self.chain_map(), ks) && n == versions_total(self.chain_map(), ks),
    {
        let list = chains_list(&self.chains);
        let ghost m = self.chain_map();
        let ghost ks = list@.map_values(|p: (String, VersionChain)| p.0@);
        proof {
            assert forall|a: int, b: int| 0 <= a < ks.len() && 0 <= b < ks.len() && a != b implies ks[a] != ks[b] by {
                if a < b {
                    assert(list@[a].0@ != list@[b].0@);
                } else {
                    assert(list@[b].0@ != list@[a].0@);
                }
            }
            assert forall|a: int| 0 <= a < ks.len() implies m.dom().contains(#[trigger] ks[a]) by {
                assert(m.dom().contains(list@[a].0@));
            }
            assert(listing(m, ks));
        }
        let mut n: usize = 0;
        let mut i: usize = 0;
        while i < list.len()
            invariant
                i <= list@.len(),
                ks == list@.map_values(|p: (String, VersionChain)| p.0@),
                listing(m, ks),
                m == self.chain_map(),
                forall|k: Seq<Seq<char>>| listing(m, k) ==> versions_total(m, k) <= usize::MAX,
                forall|j: int| 0 <= j < list@.len() ==> m[(#[trigger] list@[j]).0@] == list@[j].1@,
                n == versions_total(m, ks.take(i as int)),
            decreases list@.len() - i,
        {
            proof {
                assert(ks.take(i + 1).drop_last() =~= ks.take(i as int));
                lemma_total_mono(m, ks, i + 1);
                assert(m[list@[i as int].0@] == list@[i as int].1@);
            }
            n = n + list[i].1.version_count();
            i += 1;
        }
        proof {
            assert(ks.take(i as int) =~= ks);
        }
        n
    }

    /// Collects the garbage of every chain and gives the number of versions
    /// dropped.
    pub fn garbage_collect_all(&mut self, min_visible_txn_id: TransactionId, max_versions: usize) -> (collected: usize)
        requires
            old(self).wf(),
            forall|ks: Seq<Seq<char>>| listing(old(self).chain_map(), ks) ==> versions_total(old(self).chain_map(), ks)
                <= usize::MAX,
        ensures
            final(self).wf(),
            final(self).chain_map().dom() == old(self).chain_map().dom(),
            forall|k: Seq<char>| #[trigger] old(self).has(k) ==> final(self).chain_map()[k] == (ChainView {
                key: k,
                versions: gc_result_views(old(self).chain_map()[k].versions, min_visible_txn_id, max_versions as nat),
            }),
            exists|ks: Seq<Seq<char>>|
                listing(old(self).chain_map(), ks) && collected == versions_total(old(self).chain_map(), ks)
                    - versions_total(final(self).chain_map(), ks),
    {
        let list = chains_list(&self.chains);
        let ghost m0 = self.chain_map();
        let ghost ks = list@.map_values(|p: (String, VersionChain)| p.0@);
        proof {
            assert forall|a: int, b: int| 0 <= a < ks.len() && 0 <= b < ks.len() && a != b implies ks[a] != ks[b] by {
                if a < b {
                    assert(list@[a].0@ != list@[b].0@);
                } else {
                    assert(list@[b].0@ != list@[a].0@);
                }
            }
            assert forall|a: int| 0 <= a < ks.len() implies m0.dom().contains(#[trigger] ks[a]) by {
                assert(m0.dom().contains(list@[a].0@));
            }
            assert(listing(m0, ks));
        }
        let ghost list0 = list@;
        let mut collected: usize = 0;
        let mut i: usize = 0;
        while i < list.len()
            invariant
                i <= list@.len(),
                list@ == list0,
                ks == list0.map_values(|p: (String, VersionChain)| p.0@),
                listing(m0, ks),
                forall|k: Seq<Seq<char>>| listing(m0, k) ==> versions_total(m0, k) <= usize::MAX,
                forall|j: int| 0 <= j < list0.len() ==> m0[(#[trigger] list0[j]).0@] == list0[j].1@,
                forall|k: Seq<char>| #[trigger] m0.dom().contains(k) ==> m0[k].key == k,
                m0.dom().finite(),
                self.chain_map().dom() == m0.dom(),
                forall|j: int| 0 <= j < i ==> self.chain_map()[#[trigger] ks[j]] == (ChainView {
                    key: ks[j],
                    versions: gc_result_views(m0[ks[j]].versions, min_visible_txn_id, max_versions as nat),
                }),
                forall|j: int| i <= j < ks.len() ==> self.chain_map()[#[trigger] ks[j]] == m0[ks[j]],
                collected == versions_total(m0, ks.take(i as int)) - versions_total(self.chain_map(), ks.take(i as int)),
                versions_total(self.chain_map(), ks.take(i as int)) <= versions_total(m0, ks.take(i as int)),
            decreases list@.len() - i,
        {
            let ghost before = self.chain_map();
            let ghost k = ks[i as int];
            let mut c = list[i].1.duplicate();
            let ghost c0 = c;
            let n = c.garbage_collect(min_visible_txn_id, max_versions);
            proof {
                assert(list0[i as int].0@ == k);
                assert(m0[k] == list0[i as int].1@);
                lemma_gc_result_views(c0.chain(), min_visible_txn_id, max_versions as nat);
                assert(c@ == ChainView {
                    key: k,
                    versions: gc_result_views(m0[k].versions, min_visible_txn_id, max_versions as nat),
                });
                assert(before[k] == m0[k]);
                assert(m0[k].versions.len() == c0.chain().len());
            }
            chains_insert(&mut self.chains, String::from_str(list[i].0.as_str()), c);
            proof {
                let after = self.chain_map();
                assert(after == before.insert(k, c@));
                assert(ks.take(i + 1).drop_last() =~= ks.take(i as int));
                assert(ks.take(i + 1).last() == k);
                assert forall|j: int| 0 <= j < ks.take(i as int).len() implies after[#[trigger] ks.take(i as int)[j]].versions.len()
                    == before[ks.take(i as int)[j]].versions.len() by {
                    assert(ks.take(i as int)[j] == ks[j]);
                    assert(ks[j] != k);
                }
                lemma_total_agree(after, before, ks.take(i as int));
                lemma_total_mono(m0, ks, i + 1);
                assert(after.dom() =~= m0.dom());
                assert forall|j: int| 0 <= j < i + 1 implies after[#[trigger] ks[j]] == (ChainView {
                    key: ks[j],
                    versions: gc_result_views(m0[ks[j]].versions, min_visible_txn_id, max_versions as nat),
                }) by {
                    if j < i {
                        assert(ks[j] != k);
                    }
                }
                assert forall|j: int| i + 1 <= j < ks.len() implies after[#[trigger] ks[j]] == m0[ks[j]] by {
                    assert(ks[j] != k);
                }
            }
            collected = collected + n;
            i += 1;
        }
        proof {
            assert(ks.take(i as int) =~= ks);
            assert forall|k: Seq<char>| #[trigger] m0.dom().contains(k) implies self.chain_map()[k] == (ChainView {
                key: k,
                versions: gc_result_views(m0[k].versions, min_visible_txn_id, max_versions as nat),
            }) by {
                assert(ks.len() == m0.dom().len());
                lemma_listing_covers(m0, ks, k);
                let j = choose|j: int| 0 <= j < ks.len() && ks[j] == k;
            }
            assert forall|k: Seq<char>| #[trigger] self.chain_map().dom().contains(k) implies self.chain_map()[k].key == k by {
                lemma_listing_covers(m0, ks, k);
                let j = choose|j: int| 0 <= j < ks.len() && ks[j] == k;
            }
        }
        collected
    }

    /// Removes every chain.
    pub fn clear(&mut self)
        ensures
            final(self).wf(),
            final(self).chain_map().dom() == Set::<Seq<char>>::empty(),
    {
        chains_clear(&mut self.chains);
    }
}

} // verus!
