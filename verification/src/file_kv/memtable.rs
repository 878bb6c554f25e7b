//! The in-memory table of recent writes.
use vstd::prelude::*;
use dashmap::DashMap;
use crate::file_kv::types::ValuePointer;

verus! {

/// Limits of the in-memory table.
#[derive(Debug, Clone, Copy, PartialEq, Eq, Structural)]
pub struct MemTableConfig {
    /// Size in bytes at which the table is flushed.
    pub flush_threshold_bytes: usize,
    /// Number of entries at which the table is flushed.
    pub max_entries: usize,
    /// Memory limit in bytes at which writers are held back.
    pub max_memory_bytes: usize,
}

impl MemTableConfig {
    /// The default limits: 4 MiB, 100 000 entries, 64 MiB.
    pub open spec fn default_spec() -> Self {
        MemTableConfig {
            flush_threshold_bytes: 4194304,
            max_entries: 100_000,
            max_memory_bytes: 67108864,
        }
    }
}

impl Default for MemTableConfig {
    fn default() -> (c: Self)
        ensures
            c == Self::default_spec(),
    {
        MemTableConfig {
            flush_threshold_bytes: 4 * 1024 * 1024,
            max_entries: 100_000,
            max_memory_bytes: 64 * 1024 * 1024,
        }
    }
}

/// An entry of the in-memory table.
#[derive(Debug, Clone)]
pub struct MemTableEntry {
    /// The value, while it is held in memory.
    pub value: Option<Vec<u8>>,
    /// Where the value lies once it is flushed.
    pub pointer: Option<ValuePointer>,
    /// Sequence number of the last change.
    pub seq_num: u64,
    /// Whether the key was deleted.
    pub deleted: bool,
}

/// What an entry holds, as plain values.
pub struct EntryView {
    pub value: Option<Seq<u8>>,
    pub pointer: Option<ValuePointer>,
    pub seq_num: u64,
    pub deleted: bool,
}

impl View for MemTableEntry {
    type V = EntryView;

    open spec fn view(&self) -> EntryView {
        EntryView {
            value: match self.value {
                Some(v) => Some(v@),
                None => None,
            },
            pointer: self.pointer,
            seq_num: self.seq_num,
            deleted: self.deleted,
        }
    }
}

impl MemTableEntry {
    /// A copy of this entry.
    pub fn duplicate(&self) -> (e: Self)
        ensures
            e@ == self@,
    {
        let value = match &self.value {
            Some(v) => Some(vstd::slice::slice_to_vec(v.as_slice())),
            None => None,
        };
        MemTableEntry { value, pointer: self.pointer, seq_num: self.seq_num, deleted: self.deleted }
    }
}

/// Length of the value held by an entry, zero where none is held.
pub open spec fn held_len(e: EntryView) -> nat {
    match e.value {
        Some(v) => v.len(),
        None => 0,
    }
}

#[verifier::external_type_specification]
#[verifier::external_body]
#[verifier::reject_recursive_types(K)]
#[verifier::reject_recursive_types(V)]
#[verifier::reject_recursive_types(S)]
pub struct ExDashMap<K, V, S>(DashMap<K, V, S>);

/// The entries of a table map, by key.
pub uninterp spec fn table_entries(m: DashMap<String, MemTableEntry>) -> Map<Seq<char>, EntryView>;

/// `DashMap::new`: an empty map.
#[verifier::external_body]
fn table_new() -> (t: DashMap<String, MemTableEntry>)
    ensures
        table_entries(t).dom().len() == 0,
        table_entries(t).dom().finite(),
{
    DashMap::new()
}

/// `DashMap::insert`: maps `key` to `e` and hands back the entry that the
/// key had before, if any.
#[verifier::external_body]
fn table_insert(m: &mut DashMap<String, MemTableEntry>, key: String, e: MemTableEntry) -> (prev: Option<MemTableEntry>)
    ensures
        table_entries(*final(m)) == table_entries(*old(m)).insert(key@, e@),
        prev matches Some(p) ==> table_entries(*old(m)).dom().contains(key@) && p@ == table_entries(*old(m))[key@],
        prev is None ==> !table_entries(*old(m)).dom().contains(key@),
{
    m.insert(key, e)
}

/// `DashMap::get`, with the entry found copied out.
#[verifier::external_body]
fn table_get(m: &DashMap<String, MemTableEntry>, key: &str) -> (r: Option<MemTableEntry>)
    ensures
        r matches Some(e) ==> table_entries(*m).dom().contains(key@) && e@ == table_entries(*m)[key@],
        r is None ==> !table_entries(*m).dom().contains(key@),
{
    m.get(key).map(|r| r.value().duplicate())
}

/// `DashMap::clear`: removes every entry.
#[verifier::external_body]
fn table_clear(m: &mut DashMap<String, MemTableEntry>)
    ensures
        table_entries(*final(m)).dom().len() == 0,
        table_entries(*final(m)).dom().finite(),
{
    m.clear()
}

/// `DashMap::iter`, with each key and entry copied out: every entry once,
/// in an order that the map does not fix.
#[verifier::external_body]
fn table_list(m: &DashMap<String, MemTableEntry>) -> (v: Vec<(String, MemTableEntry)>)
    ensures
        v@.len() == table_entries(*m).dom().len(),
        forall|i: int| 0 <= i < v@.len() ==> table_entries(*m).dom().contains(#[trigger] v@[i].0@)
            && table_entries(*m)[v@[i].0@] == v@[i].1@,
        forall|i: int, j: int| 0 <= i < j < v@.len() ==> (#[trigger] v@[i]).0@ != (#[trigger] v@[j]).0@,
{
    m.iter().map(|r| (r.key().clone(), r.value().duplicate())).collect()
}

/// Sum of the held value lengths over the entries of `m`.
pub open spec fn total_held(m: Map<Seq<char>, EntryView>) -> nat
    decreases m.dom().len(),
    when m.dom().finite()
{
    if m.dom().len() == 0 {
        0
    } else {
        let k = m.dom().choose();
        held_len(m[k]) + total_held(m.remove(k))
    }
}

proof fn lemma_total_remove(m: Map<Seq<char>, EntryView>, k: Seq<char>)
    requires
        m.dom().finite(),
        m.dom().contains(k),
    ensures
        total_held(m) == held_len(m[k]) + total_held(m.remove(k)),
    decreases m.dom().len(),
{
    let c = m.dom().choose();
    assert(m.dom().len() > 0);
    if c != k {
        lemma_total_remove(m.remove(c), k);
        lemma_total_remove(m.remove(k), c);
        assert(m.remove(c).remove(k) =~= m.remove(k).remove(c));
    }
}

proof fn lemma_total_empty(m: Map<Seq<char>, EntryView>)
    requires
        m.dom().finite(),
        m.dom().len() == 0,
    ensures
        total_held(m) == 0,
{
}

proof fn lemma_total_insert(m: Map<Seq<char>, EntryView>, k: Seq<char>, e: EntryView)
    requires
        m.dom().finite(),
    ensures
        total_held(m.insert(k, e)) == held_len(e) + total_held(m.remove(k)),
        m.dom().contains(k) ==> total_held(m) == held_len(m[k]) + total_held(m.remove(k)),
        !m.dom().contains(k) ==> m.remove(k) == m,
{
    lemma_total_remove(m.insert(k, e), k);
    assert(m.insert(k, e).remove(k) =~= m.remove(k));
    if m.dom().contains(k) {
        lemma_total_remove(m, k);
    } else {
        assert(m.remove(k) =~= m);
    }
}

/// The in-memory table of recent writes.
pub struct MemTable {
    data: DashMap<String, MemTableEntry>,
    size_bytes: usize,
    entry_count: usize,
    config: MemTableConfig,
    seq_num: u64,
}

impl MemTable {
    /// The entries of the table, by key.
    pub closed spec fn entries(&self) -> Map<Seq<char>, EntryView> {
        table_entries(self.data)
    }

    /// The limits of the table.
    pub closed spec fn config_spec(&self) -> MemTableConfig {
        self.config
    }

    /// The next sequence number to hand out.
    pub closed spec fn next_seq(&self) -> u64 {
        self.seq_num
    }

    /// Bytes of the values held in memory.
    pub closed spec fn held_bytes(&self) -> nat {
        total_held(self.entries())
    }

    /// The table's own bookkeeping agrees with its entries.
    pub closed spec fn wf(&self) -> bool {
        &&& self.entries().dom().finite()
        &&& self.entry_count == self.entries().dom().len()
        &&& self.size_bytes == total_held(self.entries())
    }

    /// An empty table with the given limits.
    pub fn new(config: MemTableConfig) -> (t: Self)
        ensures
            t.wf(),
            t.entries() == Map::<Seq<char>, EntryView>::empty(),
            t.config_spec() == config,
            t.next_seq() == 0,
    {
        let data = table_new();
        proof {
            lemma_total_empty(table_entries(data));
        }
        MemTable { data, size_bytes: 0, entry_count: 0, config, seq_num: 0 }
    }

    /// Maps `key` to a copy of `value`, held in memory, with the next
    /// sequence number. Returns the bytes held after the write and the
    /// sequence number used.
    pub fn insert(&mut self, key: String, value: &[u8]) -> (r: (usize, u64))
        requires
            old(self).wf(),
            old(self).held_bytes() + value@.len() <= usize::MAX,
            old(self).entries().dom().len() < usize::MAX,
        ensures
            final(self).wf(),
            final(self).entries() == old(self).entries().insert(key@, EntryView {
                value: Some(value@),
                pointer: None,
                seq_num: old(self).next_seq(),
                deleted: false,
            }),
            final(self).next_seq() == old(self).next_seq().wrapping_add(1),
            final(self).config_spec() == old(self).config_spec(),
            r.0 == final(self).held_bytes(),
            r.1 == old(self).next_seq(),
    {
        let seq = self.seq_num;
        self.seq_num = self.seq_num.wrapping_add(1);
        let bytes = vstd::slice::slice_to_vec(value);
        let value_len = bytes.len();
        let entry = MemTableEntry { value: Some(bytes), pointer: None, seq_num: seq, deleted: false };
        let ghost before = table_entries(self.data);
        let ghost k = key@;
        let ghost ev = entry@;
        let prev = table_insert(&mut self.data, key, entry);
        proof {
            lemma_total_insert(before, k, ev);
        }
        let old_len: usize = match &prev {
            Some(p) => match &p.value {
                Some(v) => v.len(),
                None => 0,
            },
            None => 0,
        };
        self.size_bytes = self.size_bytes - old_len + value_len;
        if prev.is_none() {
            self.entry_count = self.entry_count + 1;
        }
        (self.size_bytes, seq)
    }

    /// Marks `key` deleted with the next sequence number, where it has an
    /// entry; the sequence number is used either way. Returns it where the
    /// key had an entry.
    pub fn delete(&mut self, key: &str) -> (r: Option<u64>)
        requires
            old(self).wf(),
        ensures
            final(self).wf(),
            final(self).next_seq() == old(self).next_seq().wrapping_add(1),
            final(self).config_spec() == old(self).config_spec(),
            old(self).entries().dom().contains(key@) ==> r == Some(old(self).next_seq())
                && final(self).entries() == old(self).entries().insert(key@, EntryView {
                    deleted: true,
                    seq_num: old(self).next_seq(),
                    ..old(self).entries()[key@]
                }),
            !old(self).entries().dom().contains(key@) ==> r is None && final(self).entries()
                == old(self).entries(),
    {
        let seq = self.seq_num;
        self.seq_num = self.seq_num.wrapping_add(1);
        match table_get(&self.data, key) {
            Some(e) => {
                let entry = MemTableEntry { deleted: true, seq_num: seq, ..e };
                let ghost before = table_entries(self.data);
                let ghost ev = entry@;
                proof {
                    lemma_total_insert(before, key@, ev);
                }
                let k = String::from_str(key);
                let _ = table_insert(&mut self.data, k, entry);
                Some(seq)
            },
            None => None,
        }
    }

    /// The value, pointer and deletion mark of `key`'s entry, if it has one.
    pub fn get(&self, key: &str) -> (r: Option<(Option<Vec<u8>>, Option<ValuePointer>, bool)>)
        ensures
            r is Some <==> self.entries().dom().contains(key@),
            r matches Some(t) ==> {
                let e = self.entries()[key@];
                &&& (t.0 matches Some(v) ==> e.value == Some(v@))
                &&& (t.0 is None ==> e.value is None)
                &&& t.1 == e.pointer
                &&& t.2 == e.deleted
            },
    {
        match table_get(&self.data, key) {
            Some(e) => Some((e.value, e.pointer, e.deleted)),
            None => None,
        }
    }

    /// Whether the table should be flushed: its held bytes or its entry
    /// count reached the configured limit.
    pub fn should_flush(&self) -> (r: bool)
        requires
            self.wf(),
        ensures
            r == (self.held_bytes() >= self.config_spec().flush_threshold_bytes
                || self.entries().dom().len() >= self.config_spec().max_entries),
    {
        self.size_bytes >= self.config.flush_threshold_bytes || self.entry_count >= self.config.max_entries
    }

    /// Whether writers should be held back: the held bytes reached the
    /// memory limit.
    pub fn should_apply_backpressure(&self) -> (r: bool)
        requires
            self.wf(),
        ensures
            r == (self.held_bytes() >= self.config_spec().max_memory_bytes),
    {
        self.size_bytes >= self.config.max_memory_bytes
    }

    /// Bytes that can still be written before the memory limit, zero where
    /// it is reached.
    pub fn memory_headroom(&self) -> (r: usize)
        requires
            self.wf(),
        ensures
            r == (if self.held_bytes() >= self.config_spec().max_memory_bytes { 0 } else {
                self.config_spec().max_memory_bytes - self.held_bytes()
            }),
    {
        self.config.max_memory_bytes.saturating_sub(self.size_bytes)
    }

    /// Bytes of the values held in memory.
    pub fn size_bytes(&self) -> (r: usize)
        requires
            self.wf(),
        ensures
            r == self.held_bytes(),
    {
        self.size_bytes
    }

    /// Number of entries.
    pub fn entry_count(&self) -> (r: usize)
        requires
            self.wf(),
        ensures
            r == self.entries().dom().len(),
    {
        self.entry_count
    }

    /// The memory limit in bytes.
    pub fn max_memory_bytes(&self) -> (r: usize)
        ensures
            r == self.config_spec().max_memory_bytes,
    {
        self.config.max_memory_bytes
    }

    /// Removes every entry.
    pub fn clear(&mut self)
        requires
            old(self).wf(),
        ensures
            final(self).wf(),
            final(self).entries() == Map::<Seq<char>, EntryView>::empty(),
            final(self).next_seq() == old(self).next_seq(),
            final(self).config_spec() == old(self).config_spec(),
    {
        table_clear(&mut self.data);
        proof {
            assert(table_entries(self.data) =~= Map::<Seq<char>, EntryView>::empty());
            lemma_total_empty(table_entries(self.data));
        }
        self.size_bytes = 0;
        self.entry_count = 0;
    }

    /// The key-entry pairs, each key once, in no fixed order: the entries
    /// are copied out, as an iterator over a concurrent map cannot stand
    /// here.
    pub fn iter(&self) -> (v: Vec<(String, MemTableEntry)>)
        ensures
            v@.len() == self.entries().dom().len(),
            forall|i: int| 0 <= i < v@.len() ==> self.entries().dom().contains(#[trigger] v@[i].0@)
                && self.entries()[v@[i].0@] == v@[i].1@,
            forall|i: int, j: int| 0 <= i < j < v@.len() ==> (#[trigger] v@[i]).0@ != (#[trigger] v@[j]).0@,
    {
        table_list(&self.data)
    }

    /// Every key with a copy of its entry, each once, in no fixed order.
    pub fn get_entries(&self) -> (v: Vec<(String, MemTableEntry)>)
        ensures
            v@.len() == self.entries().dom().len(),
            forall|i: int| 0 <= i < v@.len() ==> self.entries().dom().contains(#[trigger] v@[i].0@)
                && self.entries()[v@[i].0@] == v@[i].1@,
            forall|i: int, j: int| 0 <= i < j < v@.len() ==> (#[trigger] v@[i]).0@ != (#[trigger] v@[j]).0@,
    {
        table_list(&self.data)
    }

    /// Sets the pointer of `key`'s entry, if it has one; tells whether it had.
    pub fn update_pointer(&mut self, key: &str, pointer: ValuePointer) -> (r: bool)
        requires
            old(self).wf(),
        ensures
            final(self).wf(),
            r == old(self).entries().dom().contains(key@),
            r ==> final(self).entries() == old(self).entries().insert(key@, EntryView {
                pointer: Some(pointer),
                ..old(self).entries()[key@]
            }),
            !r ==> final(self).entries() == old(self).entries(),
            final(self).next_seq() == old(self).next_seq(),
            final(self).config_spec() == old(self).config_spec(),
    {
        match table_get(&self.data, key) {
            Some(e) => {
                let entry = MemTableEntry { pointer: Some(pointer), ..e };
                let ghost before = table_entries(self.data);
                let ghost ev = entry@;
                proof {
                    lemma_total_insert(before, key@, ev);
                }
                let k = String::from_str(key);
                let _ = table_insert(&mut self.data, k, entry);
                true
            },
            None => false,
        }
    }

    /// The smallest sequence number among the entries, none where there
    /// are no entries.
    pub fn min_seq_num(&self) -> (r: Option<u64>)
        requires
            self.wf(),
        ensures
            r is None <==> self.entries().dom().len() == 0,
            r matches Some(m) ==> (exists|k: Seq<char>| #[trigger] self.entries().dom().contains(k)
                && self.entries()[k].seq_num == m) && (forall|k: Seq<char>| #[trigger] self.entries().dom().contains(k)
                ==> m <= self.entries()[k].seq_num),
    {
        let all = table_list(&self.data);
        let mut best: Option<u64> = None;
        let mut i: usize = 0;
        while i < all.len()
            invariant
                i <= all@.len(),
                all@.len() == self.entries().dom().len(),
                forall|j: int| 0 <= j < all@.len() ==> self.entries().dom().contains(#[trigger] all@[j].0@)
                    && self.entries()[all@[j].0@] == all@[j].1@,
                best is None <==> i == 0,
                best matches Some(m) ==> (exists|j: int| 0 <= j < i && #[trigger] all@[j].1.seq_num == m)
                    && (forall|j: int| 0 <= j < i ==> m <= #[trigger] all@[j].1.seq_num),
            decreases all@.len() - i,
        {
            let s = all[i].1.seq_num;
            match best {
                Some(m) => {
                    if s < m {
                        best = Some(s);
                    }
                },
                None => {
                    best = Some(s);
                },
            }
            i += 1;
        }
        proof {
            if let Some(m) = best {
                let j = choose|j: int| 0 <= j < i && #[trigger] all@[j].1.seq_num == m;
                assert(self.entries().dom().contains(all@[j].0@));
                assert forall|k: Seq<char>| #[trigger] self.entries().dom().contains(k) implies m <= self.entries()[k].seq_num by {
                    lemma_list_covers(self.entries(), all@, k);
                }
            }
        }
        best
    }
}

proof fn lemma_list_covers(m: Map<Seq<char>, EntryView>, v: Seq<(String, MemTableEntry)>, k: Seq<char>)
    requires
        m.dom().finite(),
        v.len() == m.dom().len(),
        forall|j: int| 0 <= j < v.len() ==> m.dom().contains(#[trigger] v[j].0@) && m[v[j].0@] == v[j].1@,
        forall|i: int, j: int| 0 <= i < j < v.len() ==> (#[trigger] v[i]).0@ != (#[trigger] v[j]).0@,
        m.dom().contains(k),
    ensures
        exists|j: int| 0 <= j < v.len() && (#[trigger] v[j]).0@ == k,
{
    let keys = v.map_values(|p: (String, MemTableEntry)| p.0@);
    assert(keys.no_duplicates()) by {
        assert forall|i: int, j: int| 0 <= i < keys.len() && 0 <= j < keys.len() && i != j implies keys[i] != keys[j] by {
            if i < j {
                assert(v[i].0@ != v[j].0@);
            } else {
                assert(v[j].0@ != v[i].0@);
            }
        }
    }
    keys.unique_seq_to_set();
    assert(keys.to_set().subset_of(m.dom())) by {
        assert forall|x: Seq<char>| keys.to_set().contains(x) implies m.dom().contains(x) by {
            let j = choose|j: int| 0 <= j < keys.len() && keys[j] == x;
            assert(m.dom().contains(v[j].0@));
        }
    }
    vstd::set_lib::lemma_subset_equality(keys.to_set(), m.dom());
    assert(keys.to_set().contains(k));
    let j = choose|j: int| 0 <= j < keys.len() && keys[j] == k;
    assert(v[j].0@ == k);
}

} // verus!
