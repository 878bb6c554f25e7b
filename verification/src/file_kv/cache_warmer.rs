//! Choosing what to load into the block cache when the store starts.
//!
//! Each segment is read from its first entry (from near its end for the
//! `Recent` strategy) to collect candidates; the candidates, once ranked,
//! are loaded in order within the limits on entries, memory and entry size,
//! where the entry still reads back under its key.
use vstd::prelude::*;
use vstd::utf8::encode_utf8;
use crate::file_kv::segment::{entry_read, read_entry_at, EntryRead};
use crate::text::same_text;

verus! {

/// Cache warming strategy.
#[derive(Debug, Clone, Copy, PartialEq, Eq, Structural)]
pub enum WarmingStrategy {
    /// Load most recently written entries
    Recent,
    /// Load entries from high-density segments
    Frequent,
    /// Load entries within optimal size range
    SizeBased,
    /// Combination of all strategies
    Hybrid,
}

/// Statistics from a cache warming run.
#[derive(Debug, Clone)]
pub struct CacheWarmingStats {
    /// Number of segments analyzed
    pub segments_analyzed: usize,
    /// Number of entries considered for warming
    pub entries_scanned: usize,
    /// Number of entries actually loaded into cache
    pub entries_loaded: usize,
    /// Number of entries skipped (too small/large)
    pub entries_skipped: usize,
    /// Total memory used by warmed entries (bytes)
    pub memory_used: usize,
    /// Time taken for warming (milliseconds)
    pub warming_time_ms: u64,
    /// Whether warming completed successfully
    pub completed: bool,
}

impl Default for CacheWarmingStats {
    fn default() -> (s: Self)
        ensures
            s.segments_analyzed == 0 && s.entries_scanned == 0 && s.entries_loaded == 0
                && s.entries_skipped == 0 && s.memory_used == 0 && s.warming_time_ms == 0
                && !s.completed,
    {
        CacheWarmingStats {
            segments_analyzed: 0,
            entries_scanned: 0,
            entries_loaded: 0,
            entries_skipped: 0,
            memory_used: 0,
            warming_time_ms: 0,
            completed: false,
        }
    }
}

/// The integer settings of cache warming.
#[derive(Debug, Clone, Copy)]
pub struct WarmingLimits {
    /// Enable cache warming on startup
    pub enabled: bool,
    /// Maximum number of entries to warm
    pub max_entries: usize,
    /// Maximum memory to use for warming (bytes)
    pub max_memory_bytes: usize,
    /// Minimum entry size to cache
    pub min_entry_size: usize,
    /// Maximum entry size to cache
    pub max_entry_size: usize,
    /// Warming strategy
    pub strategy: WarmingStrategy,
    /// Number of recent entries per segment to warm (for `Recent`)
    pub recent_entries_per_segment: usize,
}

/// A segment as the warmer reads it: its id, its bytes, and the size and
/// entry count that the store keeps for it.
pub struct WarmSegment {
    pub id: u64,
    pub data: Vec<u8>,
    pub size: u64,
    pub entry_count: u64,
}

/// An entry that may be loaded into the cache.
#[derive(Debug, Clone)]
pub struct CandidateEntry {
    pub segment_id: u64,
    pub offset: u64,
    pub key: String,
    pub value_len: usize,
    /// Position of the segment in the list that was scanned.
    pub segment_index: usize,
}

/// A candidate as the contracts speak of it: segment id, offset, key,
/// value length and segment index.
pub type CandidateView = (u64, u64, Seq<char>, nat, int);

/// The view of a candidate.
pub open spec fn candidate_view(c: CandidateEntry) -> CandidateView {
    (c.segment_id, c.offset, c.key@, c.value_len as nat, c.segment_index as int)
}

/// Whether `v` holds the views of `cs`.
pub open spec fn candidates_are(cs: Seq<CandidateEntry>, v: Seq<CandidateView>) -> bool {
    cs.len() == v.len() && forall|i: int| 0 <= i < cs.len() ==> #[trigger] candidate_view(cs[i]) == v[i]
}

/// How many entries of a segment with `entry_count` entries are read.
pub open spec fn scan_budget(limits: WarmingLimits, entry_count: u64) -> int {
    if limits.strategy == WarmingStrategy::Recent {
        limits.recent_entries_per_segment * 2
    } else {
        (entry_count as usize) * 2
    }
}

/// Where reading a segment of `size` bytes and `entry_count` entries
/// starts: after the header, or near the end for `Recent`.
pub open spec fn scan_start(limits: WarmingLimits, size: u64, entry_count: u64) -> int {
    if limits.strategy == WarmingStrategy::Recent {
        if size >= entry_count * 100 { size - entry_count * 100 } else { 0 }
    } else {
        8
    }
}

/// The entries read from `offset` on, no more than `budget` of them, until
/// one does not read back or the offset reaches `size`.
pub open spec fn entries_from(
    data: Seq<u8>,
    id: u64,
    index: int,
    size: int,
    offset: int,
    budget: nat,
) -> Seq<CandidateView>
    decreases budget,
{
    if budget == 0 || offset >= size {
        Seq::empty()
    } else {
        match entry_read(data, offset) {
            EntryRead::Entry { key, value, .. } => {
                let c = (id, offset as u64, key, value.len(), index);
                let next = offset + 8 + encode_utf8(key).len() + value.len() + 4;
                if next > u64::MAX {
                    seq![c]
                } else {
                    seq![c] + entries_from(data, id, index, size, next, (budget - 1) as nat)
                }
            },
            _ => Seq::empty(),
        }
    }
}

/// The candidates of one segment.
pub open spec fn segment_candidates(limits: WarmingLimits, s: WarmSegment, index: int) -> Seq<
    CandidateView,
> {
    if s.entry_count == 0 || s.size <= 8 {
        Seq::empty()
    } else {
        entries_from(
            s.data@,
            s.id,
            index,
            s.size as int,
            scan_start(limits, s.size, s.entry_count),
            scan_budget(limits, s.entry_count) as nat,
        )
    }
}

/// Whether reading segment `s` stays within machine limits.
pub open spec fn scannable(limits: WarmingLimits, s: WarmSegment) -> bool {
    &&& limits.recent_entries_per_segment * 2 <= usize::MAX
    &&& (s.entry_count as usize) * 2 <= usize::MAX
    &&& (limits.strategy == WarmingStrategy::Recent ==> s.entry_count * 100 <= u64::MAX)
}

/// Reads a segment for candidates.
pub fn scan_segment_for_candidates(limits: WarmingLimits, segment: &WarmSegment, segment_index: usize) -> (r: Vec<CandidateEntry>)
    requires
        scannable(limits, *segment),
    ensures
        candidates_are(r@, segment_candidates(limits, *segment, segment_index as int)),
{
    let mut out: Vec<CandidateEntry> = Vec::new();
    let entry_count = segment.entry_count;
    let size = segment.size;
    if entry_count == 0 || size <= 8 {
        return out;
    }
    let max_scan: usize = match limits.strategy {
        WarmingStrategy::Recent => limits.recent_entries_per_segment * 2,
        _ => (entry_count as usize) * 2,
    };
    let mut offset: u64 = 8;
    if limits.strategy == WarmingStrategy::Recent {
        offset = size.saturating_sub(entry_count * 100);
    }
    let mut scanned: usize = 0;
    let ghost data = segment.data@;
    let ghost id = segment.id;
    let ghost whole = segment_candidates(limits, *segment, segment_index as int);
    assert(whole == entries_from(data, id, segment_index as int, size as int, offset as int, max_scan as nat));
    while scanned < max_scan && offset < size
        invariant
            scanned <= max_scan,
            data == segment.data@,
            id == segment.id,
            size == segment.size,
            whole == segment_candidates(limits, *segment, segment_index as int),
            whole == out@.map_values(|c: CandidateEntry| candidate_view(c)) + entries_from(
                data,
                id,
                segment_index as int,
                size as int,
                offset as int,
                (max_scan - scanned) as nat,
            ),
        decreases max_scan - scanned,
    {
        let ghost before = out@;
        match read_entry_at(segment.data.as_slice(), offset) {
            Ok((key, value, _checksum)) => {
                let value_len = value.len();
                let key_len = key.as_str().as_bytes().len();
                let ghost c = (id, offset, key@, value_len as nat, segment_index as int);
                let ghost b = (max_scan - scanned) as nat;
                out.push(CandidateEntry { segment_id: segment.id, offset, key, value_len, segment_index });
                assert(out@.map_values(|c: CandidateEntry| candidate_view(c)) =~= before.map_values(
                    |c: CandidateEntry| candidate_view(c),
                ).push(c));
                scanned += 1;
                let step = (key_len as u64).checked_add(value_len as u64);
                let next = match step {
                    Some(s) => match s.checked_add(12) {
                        Some(s2) => offset.checked_add(s2),
                        None => None,
                    },
                    None => None,
                };
                match next {
                    Some(n) => {
                        offset = n;
                    },
                    None => {
                        assert(entries_from(data, id, segment_index as int, size as int, offset as int, b) =~= seq![c]);
                        assert(whole =~= out@.map_values(|c: CandidateEntry| candidate_view(c)));
                        return out;
                    },
                }
            },
            Err(_) => {
                assert(whole =~= out@.map_values(|c: CandidateEntry| candidate_view(c)));
                return out;
            },
        }
    }
    assert(whole =~= out@.map_values(|c: CandidateEntry| candidate_view(c)));
    proof {
        assert forall|i: int| 0 <= i < out@.len() implies #[trigger] candidate_view(out@[i]) == whole[i] by {
            assert(out@.map_values(|c: CandidateEntry| candidate_view(c))[i] == candidate_view(out@[i]));
        }
    }
    out
}


/// The candidates gathered from the segments from `i` on, after `acc`;
/// gathering stops once twice the entry limit is reached.
pub open spec fn gathered_from(limits: WarmingLimits, segs: Seq<WarmSegment>, i: int, acc: Seq<CandidateView>) -> Seq<CandidateView>
    decreases segs.len() - i,
{
    if i < 0 || i >= segs.len() {
        acc
    } else {
        let next = acc + segment_candidates(limits, segs[i], i);
        if next.len() >= limits.max_entries * 2 {
            next
        } else {
            gathered_from(limits, segs, i + 1, next)
        }
    }
}

/// Gathers the candidates of the segments, in order, until twice the
/// entry limit is reached.
pub fn collect_candidates(limits: WarmingLimits, segments: &Vec<WarmSegment>) -> (r: Vec<CandidateEntry>)
    requires
        limits.max_entries * 2 <= usize::MAX,
        forall|i: int| 0 <= i < segments@.len() ==> scannable(limits, #[trigger] segments@[i]),
    ensures
        candidates_are(r@, gathered_from(limits, segments@, 0, Seq::empty())),
{
    let mut out: Vec<CandidateEntry> = Vec::new();
    let mut i: usize = 0;
    while i < segments.len()
        invariant
            i <= segments@.len(),
            limits.max_entries * 2 <= usize::MAX,
            forall|j: int| 0 <= j < segments@.len() ==> scannable(limits, #[trigger] segments@[j]),
            candidates_are(out@, out@.map_values(|c: CandidateEntry| candidate_view(c))),
            gathered_from(limits, segments@, 0, Seq::empty()) == gathered_from(
                limits,
                segments@,
                i as int,
                out@.map_values(|c: CandidateEntry| candidate_view(c)),
            ),
        decreases segments@.len() - i,
    {
        let ghost before = out@.map_values(|c: CandidateEntry| candidate_view(c));
        let mut more = scan_segment_for_candidates(limits, &segments[i], i);
        let ghost added = more@;
        out.append(&mut more);
        assert(out@.map_values(|c: CandidateEntry| candidate_view(c)) =~= before + segment_candidates(
            limits,
            segments@[i as int],
            i as int,
        )) by {
            assert forall|k: int| 0 <= k < added.len() implies #[trigger] candidate_view(added[k])
                == segment_candidates(limits, segments@[i as int], i as int)[k] by {}
        }
        if out.len() >= limits.max_entries * 2 {
            return out;
        }
        i += 1;
    }
    out
}

/// The index of the first segment with id `id`, from `i` on.
pub open spec fn first_segment_from(segs: Seq<WarmSegment>, id: u64, i: int) -> Option<int>
    decreases segs.len() - i,
{
    if i < 0 || i >= segs.len() {
        None
    } else if segs[i].id == id {
        Some(i)
    } else {
        first_segment_from(segs, id, i + 1)
    }
}

/// The value that candidate `c` loads: the entry at its offset in the
/// first segment with its id, where that entry reads back under its key.
pub open spec fn fetched(segs: Seq<WarmSegment>, c: CandidateView) -> Option<Seq<u8>> {
    match first_segment_from(segs, c.0, 0) {
        Some(j) => match entry_read(segs[j].data@, c.1 as int) {
            EntryRead::Entry { key, value, .. } => if key == c.2 {
                Some(value)
            } else {
                None
            },
            _ => None,
        },
        None => None,
    }
}

/// What loading the ranked candidates from `i` on gives, after `loads`
/// with `loaded` entries, `memory` bytes and `skipped` skips: the loads made
/// (segment id, offset, value) and the final counts.
pub open spec fn planned(
    limits: WarmingLimits,
    cands: Seq<CandidateView>,
    segs: Seq<WarmSegment>,
    i: int,
    loads: Seq<(u64, u64, Seq<u8>)>,
    loaded: nat,
    memory: nat,
    skipped: nat,
) -> (Seq<(u64, u64, Seq<u8>)>, nat, nat, nat)
    decreases cands.len() - i,
{
    if i < 0 || i >= cands.len() || loaded >= limits.max_entries || memory + cands[i].3
        > limits.max_memory_bytes {
        (loads, loaded, memory, skipped)
    } else if cands[i].3 < limits.min_entry_size || cands[i].3 > limits.max_entry_size {
        planned(limits, cands, segs, i + 1, loads, loaded, memory, skipped + 1)
    } else {
        match fetched(segs, cands[i]) {
            Some(v) => planned(
                limits,
                cands,
                segs,
                i + 1,
                loads.push((cands[i].0, cands[i].1, v)),
                loaded + 1,
                memory + cands[i].3,
                skipped,
            ),
            None => planned(limits, cands, segs, i + 1, loads, loaded, memory, skipped + 1),
        }
    }
}

/// A value to put into the block cache.
pub struct WarmLoad {
    pub segment_id: u64,
    pub offset: u64,
    pub value: Vec<u8>,
}

/// The view of a load.
pub open spec fn load_view(l: WarmLoad) -> (u64, u64, Seq<u8>) {
    (l.segment_id, l.offset, l.value@)
}

fn find_segment(segments: &Vec<WarmSegment>, id: u64) -> (r: Option<usize>)
    ensures
        r matches Some(j) ==> j < segments@.len() && first_segment_from(segments@, id, 0) == Some(j as int),
        match first_segment_from(segments@, id, 0) {
            Some(j) => r == Some(j as usize),
            None => r is None,
        },
{
    let mut i: usize = 0;
    while i < segments.len()
        invariant
            i <= segments@.len(),
            first_segment_from(segments@, id, 0) == first_segment_from(segments@, id, i as int),
        decreases segments@.len() - i,
    {
        if segments[i].id == id {
            return Some(i);
        }
        i += 1;
    }
    None
}

fn fetch(segments: &Vec<WarmSegment>, c: &CandidateEntry) -> (r: Option<Vec<u8>>)
    ensures
        match fetched(segments@, candidate_view(*c)) {
            Some(v) => r matches Some(x) && x@ == v,
            None => r is None,
        },
{
    match find_segment(segments, c.segment_id) {
        None => None,
        Some(j) => {
            let data = segments[j].data.as_slice();
            assert(data@ == segments@[j as int].data@);
            let ghost er = entry_read(data@, c.offset as int);
            assert(first_segment_from(segments@, c.segment_id, 0) == Some(j as int));
            match read_entry_at(data, c.offset) {
                Ok((key, value, _checksum)) => {
                    assert(er is Entry);
                    if same_text(key.as_str(), c.key.as_str()) {
                        assert(fetched(segments@, candidate_view(*c)) == Some(value@));
                        Some(value)
                    } else {
                        assert(fetched(segments@, candidate_view(*c)) is None);
                        None
                    }
                },
                Err(_) => {
                    assert(!(er is Entry));
                    None
                },
            }
        },
    }
}

/// Loads the ranked candidates in order: it stops at the entry limit or
/// where the next value would pass the memory limit, skips values outside
/// the size range and entries that do not read back under their key, and
/// gives the loads with the numbers of entries loaded, bytes used and
/// entries skipped.
pub fn load_candidates(limits: WarmingLimits, ranked: &Vec<CandidateEntry>, segments: &Vec<WarmSegment>) -> (r: (Vec<WarmLoad>, usize, usize, usize))
    ensures
        ({
            let p = planned(
                limits,
                ranked@.map_values(|c: CandidateEntry| candidate_view(c)),
                segments@,
                0,
                Seq::empty(),
                0,
                0,
                0,
            );
            &&& r.0@.map_values(|l: WarmLoad| load_view(l)) == p.0
            &&& r.1 == p.1
            &&& r.2 == p.2
            &&& r.3 == p.3
        }),
        r.1 <= limits.max_entries,
        r.2 <= limits.max_memory_bytes,
        r.0@.len() == r.1,
{
    let ghost cands = ranked@.map_values(|c: CandidateEntry| candidate_view(c));
    let ghost want = planned(limits, cands, segments@, 0, Seq::empty(), 0, 0, 0);
    let mut loads: Vec<WarmLoad> = Vec::new();
    let mut loaded: usize = 0;
    let mut memory: usize = 0;
    let mut skipped: usize = 0;
    let mut i: usize = 0;
    assert(loads@.map_values(|l: WarmLoad| load_view(l)) =~= Seq::<(u64, u64, Seq<u8>)>::empty());
    while i < ranked.len()
        invariant
            i <= ranked@.len(),
            cands == ranked@.map_values(|c: CandidateEntry| candidate_view(c)),
            loaded <= limits.max_entries,
            memory <= limits.max_memory_bytes,
            skipped <= i,
            loads@.len() == loaded,
            want == planned(limits, cands, segments@, 0, Seq::empty(), 0, 0, 0),
            want == planned(
                limits,
                cands,
                segments@,
                i as int,
                loads@.map_values(|l: WarmLoad| load_view(l)),
                loaded as nat,
                memory as nat,
                skipped as nat,
            ),
        decreases ranked@.len() - i,
    {
        let c = &ranked[i];
        assert(cands[i as int] == candidate_view(*c));
        if loaded >= limits.max_entries || c.value_len > limits.max_memory_bytes - memory {
            assert(want == (loads@.map_values(|l: WarmLoad| load_view(l)), loaded as nat, memory as nat, skipped as nat));
            return (loads, loaded, memory, skipped);
        }
        if c.value_len < limits.min_entry_size || c.value_len > limits.max_entry_size {
            skipped += 1;
        } else {
            match fetch(segments, c) {
                Some(v) => {
                    let ghost before = loads@.map_values(|l: WarmLoad| load_view(l));
                    let l = WarmLoad { segment_id: c.segment_id, offset: c.offset, value: v };
                    let ghost lv = load_view(l);
                    loads.push(l);
                    assert(loads@.map_values(|l: WarmLoad| load_view(l)) =~= before.push(lv));
                    loaded += 1;
                    memory += c.value_len;
                },
                None => {
                    skipped += 1;
                },
            }
        }
        i += 1;
    }
    assert(want == (loads@.map_values(|l: WarmLoad| load_view(l)), loaded as nat, memory as nat, skipped as nat));
    (loads, loaded, memory, skipped)
}

} // verus!
