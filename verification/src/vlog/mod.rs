//! The value log: append-only files of pages that hold transaction envelopes.

pub mod chunks;
pub mod decode;
pub mod envelope;
pub mod envelope_crc;
pub mod file_map;
pub mod file_set;
pub mod geometry;
pub mod header;
pub mod layout;
pub mod locate;
pub mod pointer;
pub mod reader;
pub mod record;
pub mod room;
pub mod round_trip;
pub mod scan;
pub mod write_accepts;
pub mod writer;
pub mod writer_error;
pub mod writer_open;
pub mod writer_sync;
