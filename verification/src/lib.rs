//! Storage core of a single-node analytic (column-oriented) table engine.
//!
//! Rows are ingested durably through a write-ahead log, made visible in an
//! in-memory sorted write buffer (memtable), persisted as immutable sorted
//! files (SSTs), and reorganized in the background by compaction. A manifest
//! records each table's current file set and sequence watermark, and drives
//! crash recovery together with the write-ahead log.

pub mod compaction;
pub mod config;
pub mod flush;
pub mod manifest;
pub mod memtable;
pub mod recover;
pub mod rows;
pub mod space;
pub mod sst;
pub mod table;
pub mod wal;

use vstd::prelude::*;

verus! {

/// Stable identifier of a table.
pub type TableId = u64;

/// Monotonically increasing per-table counter stamped on every write;
/// totally orders writes and bounds every reader's visibility.
pub type SequenceNumber = u64;

/// Identifier of an immutable on-disk sorted file.
pub type FileId = u64;

} // verus!
