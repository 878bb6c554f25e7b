use std::time::Duration;
use tokitai_context::metrics::{
    metric_value_text, prometheus_text, MemoryMetrics, MetricType, ReadMetrics, StorageMetrics, WalMetrics, WriteMetrics,
};

#[test]
fn test_write_metrics() {
    let mut write = WriteMetrics::new();

    write.record(1024, Duration::from_micros(50));
    write.record(2048, Duration::from_micros(100));

    assert_eq!(write.write_count, 2);
    assert_eq!(write.write_bytes, 3072);
    let avg = write.write_latency_us as f64 / write.write_count as f64;
    assert!((avg - 75.0).abs() < 0.1);
}

#[test]
fn test_read_metrics() {
    let mut read = ReadMetrics::new();

    read.record_hit(Duration::from_micros(5));
    read.record_hit(Duration::from_micros(5));
    read.record_hit(Duration::from_micros(5));
    read.record_miss(Duration::from_micros(100));

    assert_eq!(read.cache_hits, 3);
    assert_eq!(read.cache_misses, 1);
    let rate = read.cache_hits as f64 / (read.cache_hits + read.cache_misses) as f64;
    assert!((rate - 0.75).abs() < 0.01);
    assert_eq!(read.read_count, 4);
    assert_eq!(read.read_latency_us, 115);
}

#[test]
fn test_storage_metrics() {
    let mut storage = StorageMetrics::new();

    storage.set_segment_count(10);
    storage.set_total_size(1024 * 1024);
    storage.set_total_entries(1000);

    assert_eq!(storage.segment_count, 10);
    assert_eq!(storage.total_size_bytes, 1024 * 1024);
    assert_eq!(storage.total_entries, 1000);

    storage.record_compaction();
    assert_eq!(storage.compaction_count, 1);
}

#[test]
fn test_wal_metrics() {
    let mut wal = WalMetrics::new();

    wal.record_write(100);
    wal.record_write(200);
    wal.record_rotation();

    assert_eq!(wal.wal_writes, 2);
    assert_eq!(wal.wal_bytes, 300);
    assert_eq!(wal.wal_rotations, 1);
    wal.set_size(77);
    assert_eq!(wal.wal_size_bytes, 77);
}

#[test]
fn errors_and_memory_are_counted() {
    let mut write = WriteMetrics::new();
    write.record_error();
    assert_eq!(write.write_errors, 1);
    assert_eq!(write.write_count, 0);
    let mut read = ReadMetrics::new();
    read.record_error();
    assert_eq!(read.read_errors, 1);
    let mut mem = MemoryMetrics::new();
    mem.set_memtable(10, 2);
    mem.set_cache(30, 4);
    assert_eq!(mem.memtable_size_bytes, 10);
    assert_eq!(mem.memtable_entries, 2);
    assert_eq!(mem.cache_size_bytes, 30);
    assert_eq!(mem.cache_items, 4);
}

#[test]
fn test_gather_metrics() {
    let mut w = WriteMetrics::new();
    let mut r = ReadMetrics::new();
    w.record(1024, Duration::from_micros(50));
    r.record_hit(Duration::from_micros(5));
    let output = prometheus_text(
        &w,
        &r,
        &StorageMetrics::new(),
        &MemoryMetrics::new(),
        &WalMetrics::new(),
        0,
        "50.00",
        "1.0000",
        "5.00",
        &Vec::new(),
    );
    assert!(output.contains("tokitai_write_count"));
    assert!(output.contains("tokitai_read_count"));
    assert!(output.contains("tokitai_cache_hit_rate"));
    assert!(output.contains("tokitai_uptime_seconds"));
}

#[test]
fn prometheus_text_lists_every_metric_in_order() {
    let mut w = WriteMetrics::new();
    w.record(1024, Duration::from_micros(50));
    w.record(2048, Duration::from_micros(50));
    let custom = vec!["# HELP x y\n# TYPE x gauge\nx 1\n".to_string()];
    let out = prometheus_text(
        &w,
        &ReadMetrics::new(),
        &StorageMetrics::new(),
        &MemoryMetrics::new(),
        &WalMetrics::new(),
        42,
        "50.00",
        "0.0000",
        "0.00",
        &custom,
    );
    assert!(out.starts_with(
        "# HELP tokitai_uptime_seconds Uptime in seconds\n# TYPE tokitai_uptime_seconds gauge\ntokitai_uptime_seconds 42\n\n# HELP tokitai_write_count Total write operations\n# TYPE tokitai_write_count counter\ntokitai_write_count 2\n\n# HELP tokitai_write_bytes_total Total bytes written\n# TYPE tokitai_write_bytes_total counter\ntokitai_write_bytes_total 3072\n\n"
    ));
    assert!(out.contains("tokitai_write_latency_us_avg 50.00\n\n"));
    assert!(out.ends_with("tokitai_wal_rotations_total 0\n\n# HELP x y\n# TYPE x gauge\nx 1\n\n"));
    assert_eq!(out.matches("# HELP ").count(), 18);
}

#[test]
fn custom_metric_text_with_and_without_labels() {
    assert_eq!(
        metric_value_text("jobs", "Jobs run", MetricType::Counter, &Vec::new(), "3"),
        "# HELP jobs Jobs run\n# TYPE jobs counter\njobs 3\n"
    );
    let labels = vec![("a".to_string(), "1".to_string()), ("b".to_string(), "x".to_string())];
    assert_eq!(
        metric_value_text("q", "Queue", MetricType::Histogram, &labels, "2.5"),
        "# HELP q Queue\n# TYPE q histogram\nq{a=\"1\",b=\"x\"} 2.5\n"
    );
}
