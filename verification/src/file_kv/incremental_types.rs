//! Types of incremental checkpoints.
use std::collections::HashMap;
use vstd::prelude::*;

verus! {

/// Checkpoint id.
pub type CheckpointId = String;

/// Checkpoint sequence number.
pub type CheckpointSeq = u64;

/// Kind of a checkpoint.
#[derive(Debug, Clone, PartialEq, Eq)]
pub enum CheckpointType {
    /// A complete snapshot of the state.
    Full,
    /// The changes since the base checkpoint.
    Incremental {
        /// Id of the checkpoint this one builds on.
        base_checkpoint: CheckpointId,
    },
}

/// One change recorded in a checkpoint.
#[derive(Debug, Clone, PartialEq, Eq)]
pub enum CheckpointEntry {
    /// A new entry.
    Put { key: String, value: Vec<u8>, timestamp: u64 },
    /// A deleted entry.
    Delete { key: String, timestamp: u64 },
    /// A changed value.
    Modify { key: String, old_value_hash: String, new_value: Vec<u8>, timestamp: u64 },
}

impl CheckpointEntry {
    /// The key that the change affects.
    pub open spec fn key_spec(&self) -> Seq<char> {
        match self {
            CheckpointEntry::Put { key, .. } => key@,
            CheckpointEntry::Delete { key, .. } => key@,
            CheckpointEntry::Modify { key, .. } => key@,
        }
    }

    /// The time of the change.
    pub open spec fn timestamp_spec(&self) -> u64 {
        match self {
            CheckpointEntry::Put { timestamp, .. } => *timestamp,
            CheckpointEntry::Delete { timestamp, .. } => *timestamp,
            CheckpointEntry::Modify { timestamp, .. } => *timestamp,
        }
    }

    /// The key that the change affects.
    pub fn key(&self) -> (k: &str)
        ensures
            k@ == self.key_spec(),
    {
        match self {
            CheckpointEntry::Put { key, .. } => key.as_str(),
            CheckpointEntry::Delete { key, .. } => key.as_str(),
            CheckpointEntry::Modify { key, .. } => key.as_str(),
        }
    }

    /// The time of the change.
    pub fn timestamp(&self) -> (t: u64)
        ensures
            t == self.timestamp_spec(),
    {
        match self {
            CheckpointEntry::Put { timestamp, .. } => *timestamp,
            CheckpointEntry::Delete { timestamp, .. } => *timestamp,
            CheckpointEntry::Modify { timestamp, .. } => *timestamp,
        }
    }
}

/// Figures of a checkpoint.
#[derive(Debug, Clone)]
pub struct CheckpointMetadata {
    /// Optional description.
    pub description: Option<String>,
    /// Number of entries.
    pub total_entries: usize,
    /// Number of puts.
    pub put_count: usize,
    /// Number of deletes.
    pub delete_count: usize,
    /// Number of modifications.
    pub modify_count: usize,
    /// Size of the checkpoint data in bytes.
    pub size_bytes: u64,
    /// Time taken to create the checkpoint, in microseconds.
    pub creation_time_us: u64,
}

impl Default for CheckpointMetadata {
    fn default() -> (m: Self)
        ensures
            m.description is None,
            m.total_entries == 0,
            m.put_count == 0,
            m.delete_count == 0,
            m.modify_count == 0,
            m.size_bytes == 0,
            m.creation_time_us == 0,
    {
        CheckpointMetadata {
            description: None,
            total_entries: 0,
            put_count: 0,
            delete_count: 0,
            modify_count: 0,
            size_bytes: 0,
            creation_time_us: 0,
        }
    }
}

/// An incremental checkpoint.
#[derive(Debug, Clone)]
pub struct IncrementalCheckpoint {
    /// Unique id.
    pub checkpoint_id: CheckpointId,
    /// Sequence number, increasing.
    pub sequence: CheckpointSeq,
    /// Kind of checkpoint.
    pub checkpoint_type: CheckpointType,
    /// Creation time.
    pub created_at: u64,
    /// The recorded changes.
    pub entries: Vec<CheckpointEntry>,
    /// Figures.
    pub metadata: CheckpointMetadata,
    /// Hash of the content, for integrity checks.
    pub content_hash: String,
}

/// The chain of checkpoints.
#[derive(Debug, Clone)]
pub struct CheckpointChain {
    /// Checkpoint ids in order.
    pub checkpoint_ids: Vec<CheckpointId>,
    /// Sequence number of each checkpoint.
    pub sequence_map: HashMap<CheckpointId, CheckpointSeq>,
    /// Kind of each checkpoint.
    pub type_map: HashMap<CheckpointId, CheckpointType>,
    /// Latest full checkpoint.
    pub latest_full: Option<CheckpointId>,
}

/// Checkpoint statistics.
#[derive(Debug, Clone, Copy)]
pub struct CheckpointStats {
    pub total_checkpoints: usize,
    pub full_checkpoints: usize,
    pub incremental_checkpoints: usize,
    pub total_size_bytes: u64,
    pub total_entries: usize,
    pub latest_sequence: CheckpointSeq,
}

} // verus!
