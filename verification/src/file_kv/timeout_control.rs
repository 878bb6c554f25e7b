//! Timeout control for store operations: per-operation timeouts, retry on
//! timeout with exponential backoff, and counters of what happened.
use std::time::Duration;
use vstd::prelude::*;
use crate::error::{ContextError, ContextResult, IoErrorKind};
use crate::text::{contains_text, lowercase, lowercase_of, occurs_in};

verus! {

/// Default timeout values in milliseconds.
pub const DEFAULT_READ_TIMEOUT_MS: u64 = 5000;
pub const DEFAULT_WRITE_TIMEOUT_MS: u64 = 10000;
pub const DEFAULT_DELETE_TIMEOUT_MS: u64 = 10000;
pub const DEFAULT_COMPACTION_TIMEOUT_MS: u64 = 300000;
pub const DEFAULT_FLUSH_TIMEOUT_MS: u64 = 60000;
pub const DEFAULT_CHECKPOINT_TIMEOUT_MS: u64 = 120000;

/// Maximum retry attempts for timed-out operations.
pub const MAX_RETRY_ATTEMPTS: u32 = 3;

/// Exponential backoff base in milliseconds.
pub const BACKOFF_BASE_MS: u64 = 100;

/// The span of `ms` milliseconds, as `Duration::from_millis` makes it.
pub uninterp spec fn duration_of_millis(ms: u64) -> Duration;

/// `Duration::from_millis(ms)`: the span of `ms` milliseconds. The contract
/// names the result and says no more of it.
#[verifier::external_body]
pub(crate) fn millis(ms: u64) -> (d: Duration)
    ensures
        d == duration_of_millis(ms),
{
    Duration::from_millis(ms)
}

/// Timeout configuration for store operations.
#[derive(Debug, Clone, Copy)]
pub struct TimeoutConfig {
    /// Timeout for read operations (get, retrieve).
    pub read_timeout_ms: u64,
    /// Timeout for write operations (put, store).
    pub write_timeout_ms: u64,
    /// Timeout for delete operations.
    pub delete_timeout_ms: u64,
    /// Timeout for compaction operations.
    pub compaction_timeout_ms: u64,
    /// Timeout for flush operations.
    pub flush_timeout_ms: u64,
    /// Timeout for checkpoint operations.
    pub checkpoint_timeout_ms: u64,
    /// Retry an operation that timed out.
    pub enable_retry: bool,
    /// Maximum number of attempts, the first one included.
    pub max_retry_attempts: u32,
    /// Wait with exponential backoff before a retry.
    pub enable_backoff: bool,
}

/// Types of operations that have a timeout.
#[derive(Debug, Clone, Copy, PartialEq, Eq, Structural)]
pub enum OperationType {
    Read,
    Write,
    Delete,
    Compaction,
    Flush,
    Checkpoint,
}

impl TimeoutConfig {
    /// The configuration with every default value.
    pub open spec fn default_spec() -> Self {
        TimeoutConfig {
            read_timeout_ms: DEFAULT_READ_TIMEOUT_MS,
            write_timeout_ms: DEFAULT_WRITE_TIMEOUT_MS,
            delete_timeout_ms: DEFAULT_DELETE_TIMEOUT_MS,
            compaction_timeout_ms: DEFAULT_COMPACTION_TIMEOUT_MS,
            flush_timeout_ms: DEFAULT_FLUSH_TIMEOUT_MS,
            checkpoint_timeout_ms: DEFAULT_CHECKPOINT_TIMEOUT_MS,
            enable_retry: true,
            max_retry_attempts: MAX_RETRY_ATTEMPTS,
            enable_backoff: true,
        }
    }

    /// The timeout in milliseconds configured for `op`.
    pub open spec fn timeout_ms(self, op: OperationType) -> u64 {
        match op {
            OperationType::Read => self.read_timeout_ms,
            OperationType::Write => self.write_timeout_ms,
            OperationType::Delete => self.delete_timeout_ms,
            OperationType::Compaction => self.compaction_timeout_ms,
            OperationType::Flush => self.flush_timeout_ms,
            OperationType::Checkpoint => self.checkpoint_timeout_ms,
        }
    }

    /// The wait in milliseconds before retry `attempt`: none without backoff,
    /// else the base times two to the attempt, the exponent capped at ten.
    pub open spec fn backoff_ms(self, attempt: u32) -> nat {
        if !self.enable_backoff {
            0
        } else {
            (BACKOFF_BASE_MS * vstd::arithmetic::power2::pow2(if attempt < 10 { attempt as nat } else { 10 })) as nat
        }
    }

    /// A configuration with default values.
    pub fn new() -> (c: Self)
        ensures
            c == Self::default_spec(),
    {
        Self::default()
    }

    /// This configuration with the read timeout set to `timeout_ms`.
    pub fn with_read_timeout(self, timeout_ms: u64) -> (c: Self)
        ensures
            c == (TimeoutConfig { read_timeout_ms: timeout_ms, ..self }),
    {
        let mut c = self;
        c.read_timeout_ms = timeout_ms;
        c
    }

    /// This configuration with the write timeout set to `timeout_ms`.
    pub fn with_write_timeout(self, timeout_ms: u64) -> (c: Self)
        ensures
            c == (TimeoutConfig { write_timeout_ms: timeout_ms, ..self }),
    {
        let mut c = self;
        c.write_timeout_ms = timeout_ms;
        c
    }

    /// This configuration with the delete timeout set to `timeout_ms`.
    pub fn with_delete_timeout(self, timeout_ms: u64) -> (c: Self)
        ensures
            c == (TimeoutConfig { delete_timeout_ms: timeout_ms, ..self }),
    {
        let mut c = self;
        c.delete_timeout_ms = timeout_ms;
        c
    }

    /// The timeout configured for `op`.
    pub fn get_timeout(&self, op: OperationType) -> (d: Duration)
        ensures
            d == duration_of_millis(self.timeout_ms(op)),
    {
        let ms = match op {
            OperationType::Read => self.read_timeout_ms,
            OperationType::Write => self.write_timeout_ms,
            OperationType::Delete => self.delete_timeout_ms,
            OperationType::Compaction => self.compaction_timeout_ms,
            OperationType::Flush => self.flush_timeout_ms,
            OperationType::Checkpoint => self.checkpoint_timeout_ms,
        };
        millis(ms)
    }

    /// The wait in milliseconds before retry `attempt`.
    pub fn backoff_millis(&self, attempt: u32) -> (ms: u64)
        ensures
            ms == self.backoff_ms(attempt),
    {
        if !self.enable_backoff {
            return 0;
        }
        let shift: u32 = if attempt < 10 { attempt } else { 10 };
        proof {
            vstd::arithmetic::power2::lemma2_to64();
            if shift < 10 {
                vstd::arithmetic::power2::lemma_pow2_strictly_increases(shift as nat, 10);
            }
            vstd::bits::lemma_u64_shl_is_mul(1, shift as u64);
        }
        let factor: u64 = 1u64 << (shift as u64);
        BACKOFF_BASE_MS * factor
    }

    /// The wait before retry `attempt`.
    pub fn calculate_backoff(&self, attempt: u32) -> (d: Duration)
        ensures
            d == duration_of_millis(self.backoff_ms(attempt) as u64),
    {
        let ms = self.backoff_millis(attempt);
        millis(ms)
    }
}

impl Default for TimeoutConfig {
    fn default() -> (c: Self)
        ensures
            c == Self::default_spec(),
    {
        TimeoutConfig {
            read_timeout_ms: DEFAULT_READ_TIMEOUT_MS,
            write_timeout_ms: DEFAULT_WRITE_TIMEOUT_MS,
            delete_timeout_ms: DEFAULT_DELETE_TIMEOUT_MS,
            compaction_timeout_ms: DEFAULT_COMPACTION_TIMEOUT_MS,
            flush_timeout_ms: DEFAULT_FLUSH_TIMEOUT_MS,
            checkpoint_timeout_ms: DEFAULT_CHECKPOINT_TIMEOUT_MS,
            enable_retry: true,
            max_retry_attempts: MAX_RETRY_ATTEMPTS,
            enable_backoff: true,
        }
    }
}

/// Counters of timeouts and retries.
#[derive(Debug, Clone, Copy)]
pub struct TimeoutStats {
    /// Number of timeout events.
    pub timeout_count: u64,
    /// Number of retry records.
    pub retry_count: u64,
    /// Number of operations that succeeded after a retry.
    pub successful_retries: u64,
    /// Number of failed retry records.
    pub failed_retries: u64,
    /// Time spent in retries, in microseconds.
    pub total_retry_time_us: u64,
}

impl TimeoutStats {
    /// All counters at zero.
    pub open spec fn zero() -> Self {
        TimeoutStats {
            timeout_count: 0,
            retry_count: 0,
            successful_retries: 0,
            failed_retries: 0,
            total_retry_time_us: 0,
        }
    }

    /// These counters after one timeout event.
    pub open spec fn after_timeout(self) -> Self {
        TimeoutStats { timeout_count: (self.timeout_count + 1) as u64, ..self }
    }

    /// These counters after a retry record with the given outcome and time.
    pub open spec fn after_retry(self, success: bool, duration_us: u64) -> Self {
        TimeoutStats {
            retry_count: (self.retry_count + 1) as u64,
            total_retry_time_us: (self.total_retry_time_us + duration_us) as u64,
            successful_retries: if success { (self.successful_retries + 1) as u64 } else { self.successful_retries },
            failed_retries: if success { self.failed_retries } else { (self.failed_retries + 1) as u64 },
            ..self
        }
    }

    /// Stats with every counter at zero.
    pub fn new() -> (s: Self)
        ensures
            s == Self::zero(),
    {
        Self::default()
    }

    /// Records a timeout event.
    pub fn record_timeout(&mut self)
        requires
            old(self).timeout_count < u64::MAX,
        ensures
            *final(self) == old(self).after_timeout(),
    {
        self.timeout_count += 1;
    }

    /// Records a retry attempt that took `duration_us` microseconds.
    pub fn record_retry(&mut self, success: bool, duration_us: u64)
        requires
            old(self).retry_count < u64::MAX,
            old(self).total_retry_time_us + duration_us <= u64::MAX,
            success ==> old(self).successful_retries < u64::MAX,
            !success ==> old(self).failed_retries < u64::MAX,
        ensures
            *final(self) == old(self).after_retry(success, duration_us),
    {
        self.retry_count += 1;
        self.total_retry_time_us += duration_us;
        if success {
            self.successful_retries += 1;
        } else {
            self.failed_retries += 1;
        }
    }
}

impl Default for TimeoutStats {
    fn default() -> (s: Self)
        ensures
            s == Self::zero(),
    {
        TimeoutStats {
            timeout_count: 0,
            retry_count: 0,
            successful_retries: 0,
            failed_retries: 0,
            total_retry_time_us: 0,
        }
    }
}

/// The word that marks a failure message as a timeout.
pub open spec fn timeout_word() -> Seq<char> {
    seq!['t', 'i', 'm', 'e', 'o', 'u', 't']
}

/// Whether `err` reports a timeout: a failure message that holds the word
/// "timeout" in any case, or an I/O failure of kind `TimedOut`.
pub open spec fn is_timeout(err: ContextError) -> bool {
    match err {
        ContextError::OperationFailed(msg) => occurs_in(lowercase_of(msg@), timeout_word()),
        ContextError::Io(kind) => kind == IoErrorKind::TimedOut,
        ContextError::InvalidState(_) => false,
    }
}

/// Whether an error is a timeout error.
pub fn is_timeout_error(err: &ContextError) -> (r: bool)
    ensures
        r == is_timeout(*err),
{
    match err {
        ContextError::OperationFailed(msg) => {
            let low = lowercase(msg.as_str());
            let word = "timeout";
            proof {
                reveal_strlit("timeout");
                assert(word@ =~= timeout_word());
            }
            contains_text(low.as_str(), word)
        },
        ContextError::Io(kind) => {
            match kind {
                IoErrorKind::TimedOut => true,
                _ => false,
            }
        },
        ContextError::InvalidState(_) => false,
    }
}

/// Whether `n` attempts are allowed by `config`: one always, more only with
/// retry enabled and no more than the configured maximum.
pub open spec fn attempts_allowed(config: TimeoutConfig, n: nat) -> bool {
    1 <= n && (n == 1 || (config.enable_retry && n <= config.max_retry_attempts))
}

/// Whether an attempt that failed with `err` after `n` attempts is retried.
pub open spec fn retried(config: TimeoutConfig, n: nat, err: ContextError) -> bool {
    is_timeout(err) && config.enable_retry && n < config.max_retry_attempts
}

/// The counters after `k` attempts that timed out and were retried.
pub open spec fn after_retried(s: TimeoutStats, k: nat) -> TimeoutStats {
    TimeoutStats {
        timeout_count: (s.timeout_count + k) as u64,
        retry_count: (s.retry_count + k) as u64,
        failed_retries: (s.failed_retries + k) as u64,
        ..s
    }
}

/// The counters after `n` attempts of which all but the last timed out and
/// were retried; `ok` tells whether the last one succeeded and
/// `last_timed_out` whether it failed with a timeout.
pub open spec fn stats_after_attempts(s: TimeoutStats, n: nat, ok: bool, last_timed_out: bool) -> TimeoutStats {
    let t = after_retried(s, (n - 1) as nat);
    let t = if !ok && last_timed_out { t.after_timeout() } else { t };
    if n > 1 { t.after_retry(ok, 0) } else { t }
}

/// Whether a run that returned `r` after `n` attempts keeps to `config`:
/// the number of attempts is allowed and a last failure was not one to retry.
pub open spec fn run_ends<T>(config: TimeoutConfig, n: nat, r: ContextResult<T>) -> bool {
    &&& attempts_allowed(config, n)
    &&& (r matches Err(e) ==> !retried(config, n, e))
}

/// Whether `x` is a failure that reports a timeout.
pub open spec fn timed_out<T>(x: ContextResult<T>) -> bool {
    x matches Err(e) && is_timeout(e)
}

/// Whether `rs` are the results of the attempts of a run that returned
/// `r`, each a result of `f` given `d`: every attempt but the last timed
/// out, and the last returned `r`.
pub open spec fn attempt_results<T, F: Fn(Duration) -> ContextResult<T>>(
    f: F,
    d: Duration,
    rs: Seq<ContextResult<T>>,
    r: ContextResult<T>,
) -> bool {
    &&& rs.len() >= 1
    &&& rs.last() == r
    &&& forall|k: int| 0 <= k < rs.len() ==> f.ensures((d,), #[trigger] rs[k])
    &&& forall|k: int| 0 <= k < rs.len() - 1 ==> timed_out(#[trigger] rs[k])
}

/// Whether the counters `s` have room for the records of any run allowed
/// by `config`.
pub open spec fn stats_have_room(config: TimeoutConfig, s: TimeoutStats) -> bool {
    let m: int = if config.max_retry_attempts > 1 { config.max_retry_attempts as int } else { 1 };
    &&& s.timeout_count + m <= u64::MAX
    &&& s.retry_count + m <= u64::MAX
    &&& s.failed_retries + m <= u64::MAX
    &&& s.successful_retries + 1 <= u64::MAX
}

/// Runs `f` with the timeout configured for `op`. An attempt that fails
/// with a timeout is retried while retry is enabled and fewer than the
/// configured maximum of attempts were made; with backoff enabled, `pause`
/// is given the wait before each retry. Timeouts and retries are counted in
/// `stats` where it is given. Returns what the last attempt returned.
#[verifier::loop_isolation(false)]
pub fn execute_with_timeout<T, F, S>(
    op: OperationType,
    config: &TimeoutConfig,
    mut stats: Option<&mut TimeoutStats>,
    f: F,
    pause: S,
) -> (r: ContextResult<T>) where F: Fn(Duration) -> ContextResult<T>, S: Fn(Duration)
    requires
        forall|d: Duration| #[trigger] f.requires((d,)),
        forall|d: Duration| #[trigger] pause.requires((d,)),
        stats matches Some(s) ==> stats_have_room(*config, *s),
    ensures
        f.ensures((duration_of_millis(config.timeout_ms(op)),), r),
        exists|rs: Seq<ContextResult<T>>|
            #[trigger] attempt_results(f, duration_of_millis(config.timeout_ms(op)), rs, r) && run_ends(
                *config,
                rs.len(),
                r,
            ) && (stats matches Some(s) ==> *final(s) == stats_after_attempts(
                *s,
                rs.len(),
                r is Ok,
                r matches Err(e) && is_timeout(e),
            )),
{
    let timeout = config.get_timeout(op);
    let ghost init: Option<TimeoutStats> = if stats is Some { Some(*stats->0) } else { None };
    let ghost fin: Option<TimeoutStats> = if stats is Some { Some(*final(stats->0)) } else { None };
    let mut attempts: u32 = 0;
    let ghost mut rs: Seq<ContextResult<T>> = Seq::empty();
    loop
        invariant
            attempts == 0 || (config.enable_retry && attempts < config.max_retry_attempts),
            timeout == duration_of_millis(config.timeout_ms(op)),
            rs.len() == attempts,
            forall|k: int| 0 <= k < rs.len() ==> f.ensures((timeout,), #[trigger] rs[k]),
            forall|k: int| 0 <= k < rs.len() ==> timed_out(#[trigger] rs[k]),
            stats is Some <==> init is Some,
            stats matches Some(c) ==> fin == Some(*final(c)) && *c == after_retried(init->0, attempts as nat),
        decreases u32::MAX - attempts,
    {
        attempts += 1;
        let result = f(timeout);
        let ghost this = result;
        let ghost all = rs.push(this);
        proof {
            assert forall|k: int| 0 <= k < all.len() implies f.ensures((timeout,), #[trigger] all[k]) by {
                if k < rs.len() {
                    assert(all[k] == rs[k]);
                }
            }
            assert forall|k: int| 0 <= k < all.len() - 1 implies timed_out(#[trigger] all[k]) by {
                assert(all[k] == rs[k]);
            }
        }
        match result {
            Ok(value) => {
                if attempts > 1 {
                    if let Some(s) = &mut stats {
                        s.record_retry(true, 0);
                    }
                }
                let r: ContextResult<T> = Ok(value);
                proof {
                    assert(run_ends(*config, attempts as nat, r));
                    assert(attempt_results(f, timeout, all, r));
                    if init is Some {
                        assert(*final(stats->0) == *stats->0);
                    }
                }
                return r;
            },
            Err(e) => {
                if is_timeout_error(&e) {
                    if let Some(s) = &mut stats {
                        s.record_timeout();
                    }
                    if config.enable_retry && attempts < config.max_retry_attempts {
                        if let Some(s) = &mut stats {
                            s.record_retry(false, 0);
                        }
                        if config.enable_backoff {
                            let backoff = config.calculate_backoff(attempts);
                            pause(backoff);
                        }
                        proof {
                            rs = all;
                            assert(timed_out(this));
                            assert forall|k: int| 0 <= k < rs.len() implies timed_out(#[trigger] rs[k]) by {
                                if k < rs.len() - 1 {
                                } else {
                                    assert(rs[k] == this);
                                }
                            }
                        }
                        continue;
                    }
                }
                if attempts > 1 {
                    if let Some(s) = &mut stats {
                        s.record_retry(false, 0);
                    }
                }
                let ghost timed_out = is_timeout(e);
                let r: ContextResult<T> = Err(e);
                proof {
                    assert(run_ends(*config, attempts as nat, r));
                    assert(attempt_results(f, timeout, all, r));
                    if init is Some {
                        assert(*stats->0 == stats_after_attempts(init->0, attempts as nat, false, timed_out));
                        assert(*final(stats->0) == *stats->0);
                    }
                }
                return r;
            },
        }
    }
}

} // verus!
