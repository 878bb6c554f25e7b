//! Counters of store operations: writes, reads, storage, memory and the
//! write-ahead log. Counters wrap around on overflow.
use std::time::Duration;
use vstd::prelude::*;
use vstd::string::StringExecFns;
use crate::text::{decimal, decimal_text};

verus! {

/// Kind of an exported metric.
#[derive(Debug, Clone, Copy, PartialEq, Eq, Structural)]
pub enum MetricType {
    Counter,
    Gauge,
    Histogram,
}

/// The whole microseconds of `d`, as `Duration::as_micros` counts them,
/// truncated to 64 bits.
pub uninterp spec fn micros_of(d: Duration) -> u64;

/// `Duration::as_micros`, truncated to 64 bits. The contract names the
/// result.
#[verifier::external_body]
fn micros(d: Duration) -> (m: u64)
    ensures
        m == micros_of(d),
{
    d.as_micros() as u64
}

/// Counters of write operations.
#[derive(Debug, Clone, Copy, PartialEq, Eq, Structural)]
pub struct WriteMetrics {
    /// Write operations.
    pub write_count: u64,
    /// Bytes written.
    pub write_bytes: u64,
    /// Summed write latency in microseconds.
    pub write_latency_us: u64,
    /// Failed writes.
    pub write_errors: u64,
}

impl WriteMetrics {
    /// All counters at zero.
    pub fn new() -> (m: Self)
        ensures
            m == (WriteMetrics { write_count: 0, write_bytes: 0, write_latency_us: 0, write_errors: 0 }),
    {
        WriteMetrics { write_count: 0, write_bytes: 0, write_latency_us: 0, write_errors: 0 }
    }

    /// Counts a write of `bytes` bytes that took `latency`.
    pub fn record(&mut self, bytes: usize, latency: Duration)
        ensures
            final(self).write_count == old(self).write_count.wrapping_add(1),
            final(self).write_bytes == old(self).write_bytes.wrapping_add(bytes as u64),
            final(self).write_latency_us == old(self).write_latency_us.wrapping_add(micros_of(latency)),
            final(self).write_errors == old(self).write_errors,
    {
        self.write_count = self.write_count.wrapping_add(1);
        self.write_bytes = self.write_bytes.wrapping_add(bytes as u64);
        self.write_latency_us = self.write_latency_us.wrapping_add(micros(latency));
    }

    /// Counts a failed write.
    pub fn record_error(&mut self)
        ensures
            *final(self) == (WriteMetrics { write_errors: old(self).write_errors.wrapping_add(1), ..*old(self) }),
    {
        self.write_errors = self.write_errors.wrapping_add(1);
    }
}

/// Counters of read operations.
#[derive(Debug, Clone, Copy, PartialEq, Eq, Structural)]
pub struct ReadMetrics {
    /// Read operations.
    pub read_count: u64,
    /// Reads served from the cache.
    pub cache_hits: u64,
    /// Reads that missed the cache.
    pub cache_misses: u64,
    /// Summed read latency in microseconds.
    pub read_latency_us: u64,
    /// Failed reads.
    pub read_errors: u64,
}

impl ReadMetrics {
    /// All counters at zero.
    pub fn new() -> (m: Self)
        ensures
            m == (ReadMetrics { read_count: 0, cache_hits: 0, cache_misses: 0, read_latency_us: 0, read_errors: 0 }),
    {
        ReadMetrics { read_count: 0, cache_hits: 0, cache_misses: 0, read_latency_us: 0, read_errors: 0 }
    }

    /// Counts a read served from the cache that took `latency`.
    pub fn record_hit(&mut self, latency: Duration)
        ensures
            *final(self) == (ReadMetrics {
                read_count: old(self).read_count.wrapping_add(1),
                cache_hits: old(self).cache_hits.wrapping_add(1),
                read_latency_us: old(self).read_latency_us.wrapping_add(micros_of(latency)),
                ..*old(self)
            }),
    {
        self.read_count = self.read_count.wrapping_add(1);
        self.cache_hits = self.cache_hits.wrapping_add(1);
        self.read_latency_us = self.read_latency_us.wrapping_add(micros(latency));
    }

    /// Counts a read that missed the cache and took `latency`.
    pub fn record_miss(&mut self, latency: Duration)
        ensures
            *final(self) == (ReadMetrics {
                read_count: old(self).read_count.wrapping_add(1),
                cache_misses: old(self).cache_misses.wrapping_add(1),
                read_latency_us: old(self).read_latency_us.wrapping_add(micros_of(latency)),
                ..*old(self)
            }),
    {
        self.read_count = self.read_count.wrapping_add(1);
        self.cache_misses = self.cache_misses.wrapping_add(1);
        self.read_latency_us = self.read_latency_us.wrapping_add(micros(latency));
    }

    /// Counts a failed read.
    pub fn record_error(&mut self)
        ensures
            *final(self) == (ReadMetrics { read_errors: old(self).read_errors.wrapping_add(1), ..*old(self) }),
    {
        self.read_errors = self.read_errors.wrapping_add(1);
    }
}

/// Figures of the stored data.
#[derive(Debug, Clone, Copy, PartialEq, Eq, Structural)]
pub struct StorageMetrics {
    /// Segment files.
    pub segment_count: u64,
    /// Stored bytes.
    pub total_size_bytes: u64,
    /// Stored entries.
    pub total_entries: u64,
    /// Compactions run.
    pub compaction_count: u64,
}

impl StorageMetrics {
    /// All figures at zero.
    pub fn new() -> (m: Self)
        ensures
            m == (StorageMetrics { segment_count: 0, total_size_bytes: 0, total_entries: 0, compaction_count: 0 }),
    {
        StorageMetrics { segment_count: 0, total_size_bytes: 0, total_entries: 0, compaction_count: 0 }
    }

    /// Sets the segment count.
    pub fn set_segment_count(&mut self, count: u64)
        ensures
            *final(self) == (StorageMetrics { segment_count: count, ..*old(self) }),
    {
        self.segment_count = count;
    }

    /// Sets the stored size.
    pub fn set_total_size(&mut self, size: u64)
        ensures
            *final(self) == (StorageMetrics { total_size_bytes: size, ..*old(self) }),
    {
        self.total_size_bytes = size;
    }

    /// Sets the entry count.
    pub fn set_total_entries(&mut self, entries: u64)
        ensures
            *final(self) == (StorageMetrics { total_entries: entries, ..*old(self) }),
    {
        self.total_entries = entries;
    }

    /// Counts a compaction.
    pub fn record_compaction(&mut self)
        ensures
            *final(self) == (StorageMetrics { compaction_count: old(self).compaction_count.wrapping_add(1), ..*old(self) }),
    {
        self.compaction_count = self.compaction_count.wrapping_add(1);
    }
}

/// Figures of memory use.
#[derive(Debug, Clone, Copy, PartialEq, Eq, Structural)]
pub struct MemoryMetrics {
    /// Bytes held by the in-memory table.
    pub memtable_size_bytes: u64,
    /// Entries of the in-memory table.
    pub memtable_entries: u64,
    /// Bytes held by the block cache.
    pub cache_size_bytes: u64,
    /// Items of the block cache.
    pub cache_items: u64,
}

impl MemoryMetrics {
    /// All figures at zero.
    pub fn new() -> (m: Self)
        ensures
            m == (MemoryMetrics { memtable_size_bytes: 0, memtable_entries: 0, cache_size_bytes: 0, cache_items: 0 }),
    {
        MemoryMetrics { memtable_size_bytes: 0, memtable_entries: 0, cache_size_bytes: 0, cache_items: 0 }
    }

    /// Sets the in-memory table figures.
    pub fn set_memtable(&mut self, size: u64, entries: u64)
        ensures
            *final(self) == (MemoryMetrics { memtable_size_bytes: size, memtable_entries: entries, ..*old(self) }),
    {
        self.memtable_size_bytes = size;
        self.memtable_entries = entries;
    }

    /// Sets the block cache figures.
    pub fn set_cache(&mut self, size: u64, items: u64)
        ensures
            *final(self) == (MemoryMetrics { cache_size_bytes: size, cache_items: items, ..*old(self) }),
    {
        self.cache_size_bytes = size;
        self.cache_items = items;
    }
}

/// Counters of the write-ahead log.
#[derive(Debug, Clone, Copy, PartialEq, Eq, Structural)]
pub struct WalMetrics {
    /// Log writes.
    pub wal_writes: u64,
    /// Bytes logged.
    pub wal_bytes: u64,
    /// Log rotations.
    pub wal_rotations: u64,
    /// Current log size.
    pub wal_size_bytes: u64,
}

impl WalMetrics {
    /// All counters at zero.
    pub fn new() -> (m: Self)
        ensures
            m == (WalMetrics { wal_writes: 0, wal_bytes: 0, wal_rotations: 0, wal_size_bytes: 0 }),
    {
        WalMetrics { wal_writes: 0, wal_bytes: 0, wal_rotations: 0, wal_size_bytes: 0 }
    }

    /// Counts a log write of `bytes` bytes.
    pub fn record_write(&mut self, bytes: usize)
        ensures
            *final(self) == (WalMetrics {
                wal_writes: old(self).wal_writes.wrapping_add(1),
                wal_bytes: old(self).wal_bytes.wrapping_add(bytes as u64),
                ..*old(self)
            }),
    {
        self.wal_writes = self.wal_writes.wrapping_add(1);
        self.wal_bytes = self.wal_bytes.wrapping_add(bytes as u64);
    }

    /// Counts a log rotation.
    pub fn record_rotation(&mut self)
        ensures
            *final(self) == (WalMetrics { wal_rotations: old(self).wal_rotations.wrapping_add(1), ..*old(self) }),
    {
        self.wal_rotations = self.wal_rotations.wrapping_add(1);
    }

    /// Sets the current log size.
    pub fn set_size(&mut self, size: u64)
        ensures
            *final(self) == (WalMetrics { wal_size_bytes: size, ..*old(self) }),
    {
        self.wal_size_bytes = size;
    }
}


/// One metric in the Prometheus text format: its help line, its type line
/// and its sample line, then an empty line.
pub open spec fn metric_block(name: Seq<char>, help: Seq<char>, kind: Seq<char>, value: Seq<char>) -> Seq<char> {
    "# HELP "@ + name + " "@ + help + "\n# TYPE "@ + name + " "@ + kind + "\n"@ + name + " "@ + value + "\n\n"@
}

/// The texts `cs`, each followed by a line break.
pub open spec fn lines_text(cs: Seq<Seq<char>>) -> Seq<char>
    decreases cs.len(),
{
    if cs.len() == 0 {
        Seq::empty()
    } else {
        lines_text(cs.drop_last()) + cs.last() + "\n"@
    }
}

/// The Prometheus text of the counters `w`, `r`, `s`, `m` and `l`, with an
/// uptime of `uptime_secs` seconds and the given renderings of the
/// average write latency, the cache hit rate and the average read
/// latency, followed by the custom metrics' texts `custom`: the integers
/// in decimal.
pub open spec fn prometheus_text_spec(
    w: WriteMetrics,
    r: ReadMetrics,
    s: StorageMetrics,
    m: MemoryMetrics,
    l: WalMetrics,
    uptime_secs: u64,
    write_latency_avg: Seq<char>,
    hit_rate: Seq<char>,
    read_latency_avg: Seq<char>,
    custom: Seq<Seq<char>>,
) -> Seq<char> {
    metric_block("tokitai_uptime_seconds"@, "Uptime in seconds"@, "gauge"@, decimal(uptime_secs as nat)) + metric_block("tokitai_write_count"@, "Total write operations"@, "counter"@, decimal(w.write_count as nat)) + metric_block("tokitai_write_bytes_total"@, "Total bytes written"@, "counter"@, decimal(w.write_bytes as nat)) + metric_block("tokitai_write_latency_us_avg"@, "Average write latency (microseconds)"@, "gauge"@, write_latency_avg) + metric_block("tokitai_write_errors_total"@, "Total write errors"@, "counter"@, decimal(w.write_errors as nat)) + metric_block("tokitai_read_count"@, "Total read operations"@, "counter"@, decimal(r.read_count as nat)) + metric_block("tokitai_cache_hit_rate"@, "Cache hit rate (0.0-1.0)"@, "gauge"@, hit_rate) + metric_block("tokitai_read_latency_us_avg"@, "Average read latency (microseconds)"@, "gauge"@, read_latency_avg) + metric_block("tokitai_segment_count"@, "Current segment count"@, "gauge"@, decimal(s.segment_count as nat)) + metric_block("tokitai_storage_size_bytes"@, "Total storage size in bytes"@, "gauge"@, decimal(s.total_size_bytes as nat)) + metric_block("tokitai_total_entries"@, "Total entries stored"@, "gauge"@, decimal(s.total_entries as nat)) + metric_block("tokitai_compaction_count"@, "Total compactions performed"@, "counter"@, decimal(s.compaction_count as nat)) + metric_block("tokitai_memtable_size_bytes"@, "Current MemTable size in bytes"@, "gauge"@, decimal(m.memtable_size_bytes as nat)) + metric_block("tokitai_memtable_entries"@, "Current MemTable entries"@, "gauge"@, decimal(m.memtable_entries as nat)) + metric_block("tokitai_cache_size_bytes"@, "Current cache size in bytes"@, "gauge"@, decimal(m.cache_size_bytes as nat)) + metric_block("tokitai_wal_writes_total"@, "Total WAL writes"@, "counter"@, decimal(l.wal_writes as nat)) + metric_block("tokitai_wal_rotations_total"@, "Total WAL rotations"@, "counter"@, decimal(l.wal_rotations as nat)) + lines_text(custom)
}

/// The name of a metric type in the Prometheus text format.
pub open spec fn metric_kind_text(t: MetricType) -> Seq<char> {
    match t {
        MetricType::Counter => "counter"@,
        MetricType::Gauge => "gauge"@,
        MetricType::Histogram => "histogram"@,
    }
}

/// The labels `ls` as `key="value"` pairs separated by commas.
pub open spec fn labels_text(ls: Seq<(Seq<char>, Seq<char>)>) -> Seq<char>
    decreases ls.len(),
{
    if ls.len() == 0 {
        Seq::empty()
    } else if ls.len() == 1 {
        ls[0].0 + "=\""@ + ls[0].1 + "\""@
    } else {
        labels_text(ls.drop_last()) + ","@ + ls.last().0 + "=\""@ + ls.last().1 + "\""@
    }
}

/// A custom metric in the Prometheus text format: help and type lines, then
/// the sample line, with the labels in braces where there are any.
pub open spec fn metric_value_spec(
    name: Seq<char>,
    help: Seq<char>,
    t: MetricType,
    labels: Seq<(Seq<char>, Seq<char>)>,
    value: Seq<char>,
) -> Seq<char> {
    "# HELP "@ + name + " "@ + help + "\n"@ + "# TYPE "@ + name + " "@ + metric_kind_text(t) + "\n"@ + name + (if labels.len()
        == 0 {
        Seq::empty()
    } else {
        "{"@ + labels_text(labels) + "}"@
    }) + " "@ + value + "\n"@
}

fn push_block(out: &mut String, name: &str, help: &str, kind: &str, value: &str)
    ensures
        final(out)@ == old(out)@ + metric_block(name@, help@, kind@, value@),
{
    out.append("# HELP ");
    out.append(name);
    out.append(" ");
    out.append(help);
    out.append("\n# TYPE ");
    out.append(name);
    out.append(" ");
    out.append(kind);
    out.append("\n");
    out.append(name);
    out.append(" ");
    out.append(value);
    out.append("\n\n");
    assert(final(out)@ =~= old(out)@ + metric_block(name@, help@, kind@, value@));
}

/// The Prometheus text of the counters, the uptime, the rendered averages
/// and hit rate, and the rendered custom metrics.
pub fn prometheus_text(
    w: &WriteMetrics,
    r: &ReadMetrics,
    s: &StorageMetrics,
    m: &MemoryMetrics,
    l: &WalMetrics,
    uptime_secs: u64,
    write_latency_avg: &str,
    hit_rate: &str,
    read_latency_avg: &str,
    custom: &Vec<String>,
) -> (t: String)
    ensures
        t@ == prometheus_text_spec(
            *w,
            *r,
            *s,
            *m,
            *l,
            uptime_secs,
            write_latency_avg@,
            hit_rate@,
            read_latency_avg@,
            custom@.map_values(|c: String| c@),
        ),
{
    let mut out = String::from_str("");
    proof {
        reveal_strlit("");
        assert(out@.len() == 0);
    }
    push_block(&mut out, "tokitai_uptime_seconds", "Uptime in seconds", "gauge", decimal_text(uptime_secs).as_str());
    push_block(&mut out, "tokitai_write_count", "Total write operations", "counter", decimal_text(w.write_count).as_str());
    push_block(&mut out, "tokitai_write_bytes_total", "Total bytes written", "counter", decimal_text(w.write_bytes).as_str());
    push_block(&mut out, "tokitai_write_latency_us_avg", "Average write latency (microseconds)", "gauge", write_latency_avg);
    push_block(&mut out, "tokitai_write_errors_total", "Total write errors", "counter", decimal_text(w.write_errors).as_str());
    push_block(&mut out, "tokitai_read_count", "Total read operations", "counter", decimal_text(r.read_count).as_str());
    push_block(&mut out, "tokitai_cache_hit_rate", "Cache hit rate (0.0-1.0)", "gauge", hit_rate);
    push_block(&mut out, "tokitai_read_latency_us_avg", "Average read latency (microseconds)", "gauge", read_latency_avg);
    push_block(&mut out, "tokitai_segment_count", "Current segment count", "gauge", decimal_text(s.segment_count).as_str());
    push_block(&mut out, "tokitai_storage_size_bytes", "Total storage size in bytes", "gauge", decimal_text(s.total_size_bytes).as_str());
    push_block(&mut out, "tokitai_total_entries", "Total entries stored", "gauge", decimal_text(s.total_entries).as_str());
    push_block(&mut out, "tokitai_compaction_count", "Total compactions performed", "counter", decimal_text(s.compaction_count).as_str());
    push_block(&mut out, "tokitai_memtable_size_bytes", "Current MemTable size in bytes", "gauge", decimal_text(m.memtable_size_bytes).as_str());
    push_block(&mut out, "tokitai_memtable_entries", "Current MemTable entries", "gauge", decimal_text(m.memtable_entries).as_str());
    push_block(&mut out, "tokitai_cache_size_bytes", "Current cache size in bytes", "gauge", decimal_text(m.cache_size_bytes).as_str());
    push_block(&mut out, "tokitai_wal_writes_total", "Total WAL writes", "counter", decimal_text(l.wal_writes).as_str());
    push_block(&mut out, "tokitai_wal_rotations_total", "Total WAL rotations", "counter", decimal_text(l.wal_rotations).as_str());
    proof {
        let none = Seq::<Seq<char>>::empty();
        assert(lines_text(none) =~= Seq::<char>::empty());
        assert(out@ =~= prometheus_text_spec(*w, *r, *s, *m, *l, uptime_secs, write_latency_avg@, hit_rate@, read_latency_avg@, none));
    }
    let ghost head = out@;
    let mut i: usize = 0;
    while i < custom.len()
        invariant
            i <= custom@.len(),
            out@ == head + lines_text(custom@.map_values(|c: String| c@).take(i as int)),
        decreases custom@.len() - i,
    {
        out.append(custom[i].as_str());
        out.append("\n");
        proof {
            let cs = custom@.map_values(|c: String| c@);
            assert(cs.take(i + 1).drop_last() =~= cs.take(i as int));
            assert(out@ =~= head + lines_text(cs.take(i + 1)));
        }
        i += 1;
    }
    proof {
        let cs = custom@.map_values(|c: String| c@);
        assert(cs.take(i as int) =~= cs);
        assert(out@ =~= prometheus_text_spec(
            *w,
            *r,
            *s,
            *m,
            *l,
            uptime_secs,
            write_latency_avg@,
            hit_rate@,
            read_latency_avg@,
            cs,
        ));
    }
    out
}

/// A custom metric `name` of type `t` with labels `labels` and the rendered
/// value `value`, in the Prometheus text format.
pub fn metric_value_text(name: &str, help: &str, t: MetricType, labels: &Vec<(String, String)>, value: &str) -> (r: String)
    ensures
        r@ == metric_value_spec(name@, help@, t, labels@.map_values(|p: (String, String)| (p.0@, p.1@)), value@),
{
    let ghost ls = labels@.map_values(|p: (String, String)| (p.0@, p.1@));
    let mut out = String::from_str("# HELP ");
    out.append(name);
    out.append(" ");
    out.append(help);
    out.append("\n");
    out.append("# TYPE ");
    out.append(name);
    out.append(" ");
    match t {
        MetricType::Counter => out.append("counter"),
        MetricType::Gauge => out.append("gauge"),
        MetricType::Histogram => out.append("histogram"),
    }
    out.append("\n");
    out.append(name);
    let ghost before = out@;
    if labels.len() > 0 {
        out.append("{");
        let ghost open = out@;
        let mut i: usize = 0;
        while i < labels.len()
            invariant
                i <= labels@.len(),
                ls == labels@.map_values(|p: (String, String)| (p.0@, p.1@)),
                out@ == open + labels_text(ls.take(i as int)),
            decreases labels@.len() - i,
        {
            if i > 0 {
                out.append(",");
            }
            out.append(labels[i].0.as_str());
            out.append("=\"");
            out.append(labels[i].1.as_str());
            out.append("\"");
            proof {
                assert(ls.take(i + 1).drop_last() =~= ls.take(i as int));
                if i == 0 {
                    assert(ls.take(0) =~= Seq::<(Seq<char>, Seq<char>)>::empty());
                }
                assert(out@ =~= open + labels_text(ls.take(i + 1)));
            }
            i += 1;
        }
        out.append("}");
        proof {
            assert(ls.take(i as int) =~= ls);
        }
    }
    out.append(" ");
    out.append(value);
    out.append("\n");
    proof {
        assert(out@ =~= metric_value_spec(name@, help@, t, ls, value@));
    }
    out
}

} // verus!
