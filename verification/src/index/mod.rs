//! The index: an ordered store of pointers by user key, and of what the system keeps of itself.

use vstd::prelude::*;

pub mod batch;
pub mod engine;
pub mod layout;
pub mod range;

verus! {

#[derive(Clone, Copy, Debug, PartialEq, Eq, Structural)]
pub enum IndexCompression {
    Uncompressed,
    Lz4,
}

/// The index engine's part of the public options.
#[derive(Clone, Copy, Debug)]
pub struct FjallIndexOptions {
    pub write_buffer_size: usize,
    pub max_open_files: usize,
    pub block_cache_size: usize,
    pub block_size: usize,
    pub block_restart_interval: usize,
    pub max_file_size: usize,
    pub compression: IndexCompression,
}

} // verus!
