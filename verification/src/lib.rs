//! An embedded, ordered key-value store that keeps values in its own append-only log and
//! keeps the key-to-pointer mapping in an ordered index.
//!
//! The library holds everything that decides: the file formats, the layout of a transaction
//! in the value log, the commit and recovery protocols, the write gate, cursors and the
//! classification of errors. Files, threads and the index engine belong to the caller, which
//! performs the actions that the library asks for and hands the outcomes back.

pub mod batch;
pub mod bytes;
pub mod checksum;
pub mod claims;
pub mod commit;
pub mod cursor;
pub mod db;
pub mod error;
pub mod format;
pub mod index;
pub mod io_failure;
pub mod key_index;
pub mod memory;
pub mod options;
pub mod recovery;
pub mod root;
pub mod runtime;
pub mod shown;
pub mod snapshot;
pub mod stats;
pub mod vlog;

pub use batch::WriteBatch;
pub use cursor::{CursorState, DbIterator, KeyRange, RangeCursor};
pub use error::{
    DestroyFailureContext, DestroyStage, InstanceState, ManagedObject, Operation, ProtocolStage,
    Result, RetryAdvice, StorageError, StorageErrorKind, WriteOutcome,
};
pub use options::{Compression, Options, ReadOptions, WriteOptions};
pub use snapshot::Snapshot;
pub use stats::{DbStats, LatchedErrorSummary, VLogPosition};
