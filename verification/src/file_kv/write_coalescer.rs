//! Write coalescing: writes that arrive within a short window are buffered
//! and flushed together, or at once where the buffer grows large.
use vstd::prelude::*;
use vstd::utf8::encode_utf8;
use vstd::string::StringSliceAdditionalSpecFns;
use crate::clock::unix_micros;

verus! {

/// Configuration of write coalescing.
#[derive(Debug, Clone, Copy)]
pub struct WriteCoalescerConfig {
    /// Window in microseconds within which writes are buffered together.
    pub time_window_us: u64,
    /// Buffer size in bytes at which a flush is due.
    pub size_threshold_bytes: usize,
    /// Whether writes are buffered at all.
    pub enabled: bool,
}

impl Default for WriteCoalescerConfig {
    fn default() -> (c: Self)
        ensures
            c.time_window_us == 100,
            c.size_threshold_bytes == 65536,
            c.enabled,
    {
        WriteCoalescerConfig { time_window_us: 100, size_threshold_bytes: 65536, enabled: true }
    }
}

/// A buffered write.
#[derive(Debug, Clone)]
pub struct PendingWrite {
    pub key: String,
    pub value: Vec<u8>,
    pub timestamp_us: u64,
}

/// The buffer of writes waiting to be flushed.
pub struct WriteCoalescer {
    pending_writes: Vec<PendingWrite>,
    buffer_size: usize,
    has_pending: bool,
    config: WriteCoalescerConfig,
    start_time_us: u64,
}

/// Bytes that a write of `key` and `value` adds to the buffer: the key's
/// UTF-8 length plus the value's length.
pub open spec fn write_size(key: Seq<char>, value: Seq<u8>) -> usize {
    (encode_utf8(key).len() as usize).wrapping_add(value.len() as usize)
}

impl WriteCoalescer {
    /// The buffered writes, oldest first.
    pub closed spec fn pending(&self) -> Seq<PendingWrite> {
        self.pending_writes@
    }

    /// The buffered byte count.
    pub closed spec fn buffered(&self) -> usize {
        self.buffer_size
    }

    /// Whether writes are flagged as pending.
    pub closed spec fn flagged(&self) -> bool {
        self.has_pending
    }

    /// The configuration.
    pub closed spec fn config_spec(&self) -> WriteCoalescerConfig {
        self.config
    }

    /// Whether a write at time `now` comes too late for the buffered ones:
    /// the oldest buffered write is more than the window older. The age
    /// wraps around where the clock reads earlier than the oldest write.
    pub open spec fn window_passed(&self, now: u64) -> bool {
        self.pending().len() > 0 && now.wrapping_sub(self.pending()[0].timestamp_us)
            > self.config_spec().time_window_us
    }

    /// Whether `after` and `flush` are what buffering a write of `key` and
    /// `value` arriving at time `now` makes of this buffer: nothing buffered
    /// and a flush asked for where coalescing is disabled or the window of
    /// the buffered writes has passed; else the write appended, its bytes
    /// counted, the buffer flagged, and a flush asked for where the buffer
    /// reached the size threshold.
    pub open spec fn add_outcome(&self, after: &Self, key: Seq<char>, value: Seq<u8>, now: u64, flush: bool) -> bool {
        &&& after.config_spec() == self.config_spec()
        &&& (!self.config_spec().enabled || self.window_passed(now)) ==> flush && after.pending() == self.pending()
            && after.buffered() == self.buffered() && after.flagged() == self.flagged()
        &&& self.config_spec().enabled && !self.window_passed(now) ==> {
            &&& after.pending().len() == self.pending().len() + 1
            &&& after.pending().drop_last() == self.pending()
            &&& after.pending().last().key@ == key
            &&& after.pending().last().value@ == value
            &&& after.pending().last().timestamp_us == now
            &&& after.buffered() == self.buffered().wrapping_add(write_size(key, value))
            &&& after.flagged()
            &&& flush == (after.buffered() >= self.config_spec().size_threshold_bytes)
        }
    }

    /// An empty buffer with `config`, started at `start_time_us`.
    pub fn with_start(config: WriteCoalescerConfig, start_time_us: u64) -> (c: Self)
        ensures
            c.pending().len() == 0,
            c.buffered() == 0,
            !c.flagged(),
            c.config_spec() == config,
    {
        WriteCoalescer { pending_writes: Vec::new(), buffer_size: 0, has_pending: false, config, start_time_us }
    }

    /// An empty buffer with `config`, started now.
    pub fn new(config: WriteCoalescerConfig) -> (c: Self)
        ensures
            c.pending().len() == 0,
            c.buffered() == 0,
            !c.flagged(),
            c.config_spec() == config,
    {
        Self::with_start(config, unix_micros())
    }

    /// Buffers a write of `key` and `value` arriving at time `now` (in
    /// microseconds). Returns true where the caller should flush: always
    /// where coalescing is disabled (nothing is buffered then); where the
    /// window of the buffered writes has passed (the write is not
    /// buffered); and where the buffer, with the write, reached the size
    /// threshold.
    pub fn add_at(&mut self, key: String, value: Vec<u8>, now: u64) -> (flush: bool)
        ensures
            final(self).config_spec() == old(self).config_spec(),
            !old(self).config_spec().enabled ==> flush && final(self).pending() == old(self).pending()
                && final(self).buffered() == old(self).buffered() && final(self).flagged() == old(self).flagged(),
            old(self).config_spec().enabled && old(self).window_passed(now) ==> flush && final(self).pending()
                == old(self).pending() && final(self).buffered() == old(self).buffered()
                && final(self).flagged() == old(self).flagged(),
            old(self).config_spec().enabled && !old(self).window_passed(now) ==> {
                &&& final(self).pending().len() == old(self).pending().len() + 1
                &&& final(self).pending().drop_last() == old(self).pending()
                &&& final(self).pending().last().key@ == key@
                &&& final(self).pending().last().value@ == value@
                &&& final(self).pending().last().timestamp_us == now
                &&& final(self).buffered() == old(self).buffered().wrapping_add(write_size(key@, value@))
                &&& final(self).flagged()
                &&& flush == (final(self).buffered() >= old(self).config_spec().size_threshold_bytes)
            },
    {
        if !self.config.enabled {
            return true;
        }
        let size = key.as_str().len().wrapping_add(value.len());
        if self.pending_writes.len() > 0 {
            let oldest = self.pending_writes[0].timestamp_us;
            if now.wrapping_sub(oldest) > self.config.time_window_us {
                return true;
            }
        }
        let ghost before = self.pending_writes@;
        self.pending_writes.push(PendingWrite { key, value, timestamp_us: now });
        proof {
            assert(self.pending_writes@.drop_last() =~= before);
        }
        self.buffer_size = self.buffer_size.wrapping_add(size);
        self.has_pending = true;
        self.buffer_size >= self.config.size_threshold_bytes
    }

    /// Buffers a write arriving now, at the time the system clock reads;
    /// see `add_at`.
    pub fn add(&mut self, key: String, value: Vec<u8>) -> (flush: bool)
        ensures
            exists|now: u64| #[trigger] old(self).add_outcome(&*final(self), key@, value@, now, flush),
    {
        let now = unix_micros();
        let ghost k = key@;
        let ghost v = value@;
        let flush = self.add_at(key, value, now);
        assert(old(self).add_outcome(&*self, k, v, now, flush));
        flush
    }

    /// Hands out the buffered writes, oldest first, and empties the buffer.
    pub fn drain(&mut self) -> (w: Vec<PendingWrite>)
        ensures
            w@ == old(self).pending(),
            final(self).pending().len() == 0,
            final(self).buffered() == 0,
            !final(self).flagged(),
            final(self).config_spec() == old(self).config_spec(),
    {
        let mut w: Vec<PendingWrite> = Vec::new();
        std::mem::swap(&mut w, &mut self.pending_writes);
        self.buffer_size = 0;
        self.has_pending = false;
        w
    }

    /// Whether writes are flagged as pending.
    pub fn has_pending(&self) -> (b: bool)
        ensures
            b == self.flagged(),
    {
        self.has_pending
    }

    /// Number of buffered writes.
    pub fn pending_count(&self) -> (n: usize)
        ensures
            n == self.pending().len(),
    {
        self.pending_writes.len()
    }

    /// The buffered byte count.
    pub fn buffer_size(&self) -> (n: usize)
        ensures
            n == self.buffered(),
    {
        self.buffer_size
    }

    /// Hands out the buffered writes and empties the buffer, as `drain`.
    pub fn force_flush(&mut self) -> (w: Vec<PendingWrite>)
        ensures
            w@ == old(self).pending(),
            final(self).pending().len() == 0,
            final(self).buffered() == 0,
            !final(self).flagged(),
            final(self).config_spec() == old(self).config_spec(),
    {
        self.drain()
    }
}

} // verus!
