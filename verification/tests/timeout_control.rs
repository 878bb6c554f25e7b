use std::time::Duration;
use tokitai_context::error::{ContextError, IoErrorKind};
use tokitai_context::file_kv::timeout_control::{
    execute_with_timeout, is_timeout_error, OperationType, TimeoutConfig, TimeoutStats, BACKOFF_BASE_MS,
    DEFAULT_COMPACTION_TIMEOUT_MS, DEFAULT_READ_TIMEOUT_MS, DEFAULT_WRITE_TIMEOUT_MS, MAX_RETRY_ATTEMPTS,
};

#[test]
fn test_timeout_config_default() {
    let config = TimeoutConfig::default();
    assert_eq!(config.read_timeout_ms, DEFAULT_READ_TIMEOUT_MS);
    assert_eq!(config.write_timeout_ms, DEFAULT_WRITE_TIMEOUT_MS);
    assert!(config.enable_retry);
    assert!(config.enable_backoff);
}

#[test]
fn test_timeout_config_builder() {
    let config = TimeoutConfig::new()
        .with_read_timeout(1000)
        .with_write_timeout(2000)
        .with_delete_timeout(3000);

    assert_eq!(config.read_timeout_ms, 1000);
    assert_eq!(config.write_timeout_ms, 2000);
    assert_eq!(config.delete_timeout_ms, 3000);
}

#[test]
fn test_get_timeout() {
    let config = TimeoutConfig::default();

    assert_eq!(config.get_timeout(OperationType::Read), Duration::from_millis(DEFAULT_READ_TIMEOUT_MS));
    assert_eq!(config.get_timeout(OperationType::Write), Duration::from_millis(DEFAULT_WRITE_TIMEOUT_MS));
    assert_eq!(config.get_timeout(OperationType::Compaction), Duration::from_millis(DEFAULT_COMPACTION_TIMEOUT_MS));
}

#[test]
fn test_calculate_backoff() {
    let config = TimeoutConfig::default();

    let config_no_backoff = TimeoutConfig { enable_backoff: false, ..Default::default() };
    assert_eq!(config_no_backoff.calculate_backoff(0), Duration::from_millis(0));

    assert_eq!(config.calculate_backoff(0), Duration::from_millis(BACKOFF_BASE_MS));
    assert_eq!(config.calculate_backoff(1), Duration::from_millis(BACKOFF_BASE_MS * 2));
    assert_eq!(config.calculate_backoff(2), Duration::from_millis(BACKOFF_BASE_MS * 4));
}

#[test]
fn test_timeout_stats() {
    let mut stats = TimeoutStats::new();

    stats.record_timeout();
    stats.record_timeout();
    stats.record_retry(true, 100);
    stats.record_retry(false, 200);

    assert_eq!(stats.timeout_count, 2);
    assert_eq!(stats.retry_count, 2);
    assert_eq!(stats.successful_retries, 1);
    assert_eq!(stats.failed_retries, 1);
    assert_eq!(stats.total_retry_time_us, 300);
}

#[test]
fn test_execute_with_timeout_success() {
    let config = TimeoutConfig::default();
    let mut stats = TimeoutStats::new();

    let result = execute_with_timeout(
        OperationType::Read,
        &config,
        Some(&mut stats),
        |_timeout| Ok("success".to_string()),
        |_| {},
    );

    assert!(result.is_ok());
    assert_eq!(result.unwrap(), "success");
    assert_eq!(stats.timeout_count, 0);
    assert_eq!(stats.retry_count, 0);
}

#[test]
fn test_execute_with_timeout_error() {
    let config = TimeoutConfig { enable_retry: false, ..Default::default() };

    let result = execute_with_timeout::<(), _, _>(
        OperationType::Read,
        &config,
        None,
        |_timeout| Err(ContextError::OperationFailed("test error".to_string())),
        |_| {},
    );

    assert!(result.is_err());
}

#[test]
fn test_is_timeout_error() {
    let timeout_err = ContextError::OperationFailed("operation timeout".to_string());
    assert!(is_timeout_error(&timeout_err));

    let io_timeout = ContextError::Io(IoErrorKind::TimedOut);
    assert!(is_timeout_error(&io_timeout));

    let other_err = ContextError::OperationFailed("some other error".to_string());
    assert!(!is_timeout_error(&other_err));
}

#[test]
fn timeout_retries_until_attempts_run_out() {
    let config = TimeoutConfig::default();
    let mut stats = TimeoutStats::new();
    let calls = std::cell::Cell::new(0u32);
    let pauses = std::cell::RefCell::new(Vec::new());
    let result = execute_with_timeout::<(), _, _>(
        OperationType::Write,
        &config,
        Some(&mut stats),
        |t| {
            assert_eq!(t, Duration::from_millis(DEFAULT_WRITE_TIMEOUT_MS));
            calls.set(calls.get() + 1);
            Err(ContextError::Io(IoErrorKind::TimedOut))
        },
        |d| pauses.borrow_mut().push(d),
    );
    assert!(result.is_err());
    assert_eq!(calls.get(), MAX_RETRY_ATTEMPTS);
    assert_eq!(stats.timeout_count, MAX_RETRY_ATTEMPTS as u64);
    assert_eq!(stats.retry_count, MAX_RETRY_ATTEMPTS as u64);
    assert_eq!(stats.failed_retries, MAX_RETRY_ATTEMPTS as u64);
    assert_eq!(
        *pauses.borrow(),
        vec![Duration::from_millis(BACKOFF_BASE_MS * 2), Duration::from_millis(BACKOFF_BASE_MS * 4)]
    );
}

#[test]
fn timeout_then_success_counts_a_successful_retry() {
    let config = TimeoutConfig::default();
    let mut stats = TimeoutStats::new();
    let calls = std::cell::Cell::new(0u32);
    let result = execute_with_timeout(
        OperationType::Read,
        &config,
        Some(&mut stats),
        |_| {
            calls.set(calls.get() + 1);
            if calls.get() == 1 {
                Err(ContextError::OperationFailed("request timeout".to_string()))
            } else {
                Ok(7u8)
            }
        },
        |_| {},
    );
    assert_eq!(result.unwrap(), 7);
    assert_eq!(stats.timeout_count, 1);
    assert_eq!(stats.retry_count, 2);
    assert_eq!(stats.successful_retries, 1);
    assert_eq!(stats.failed_retries, 1);
}

#[test]
fn other_errors_are_not_retried() {
    let config = TimeoutConfig::default();
    let calls = std::cell::Cell::new(0u32);
    let result = execute_with_timeout::<(), _, _>(
        OperationType::Delete,
        &config,
        None,
        |_| {
            calls.set(calls.get() + 1);
            Err(ContextError::Io(IoErrorKind::NotFound))
        },
        |_| {},
    );
    assert!(result.is_err());
    assert_eq!(calls.get(), 1);
}
