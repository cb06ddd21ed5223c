//! Database and write options.

use vstd::prelude::*;

use crate::index::{FjallIndexOptions, IndexCompression};
use crate::snapshot::Snapshot;

verus! {

#[derive(Clone, Copy, Debug, PartialEq, Eq, Structural)]
pub enum Compression {
    NoCompression,
    Lz4,
}

#[derive(Clone, Copy, Debug)]
pub struct Options {
    pub create_if_missing: bool,
    pub error_if_exists: bool,
    pub write_buffer_size: usize,
    pub max_open_files: usize,
    pub block_cache_size: usize,
    pub block_size: usize,
    pub block_restart_interval: usize,
    pub max_file_size: usize,
    pub compression: Compression,
    pub vlog_read_handle_cache_capacity: usize,
}

impl Default for Options {
    fn default() -> (options: Self)
        ensures
            options == (Options {
                create_if_missing: false,
                error_if_exists: false,
                write_buffer_size: 4_194_304,
                max_open_files: 1000,
                block_cache_size: 8_388_608,
                block_size: 4096,
                block_restart_interval: 16,
                max_file_size: 2_097_152,
                compression: Compression::NoCompression,
                vlog_read_handle_cache_capacity: 64,
            }),
    {
        Options {
            create_if_missing: false,
            error_if_exists: false,
            write_buffer_size: 4 * 1024 * 1024,
            max_open_files: 1000,
            block_cache_size: 8 * 1024 * 1024,
            block_size: 4 * 1024,
            block_restart_interval: 16,
            max_file_size: 2 * 1024 * 1024,
            compression: Compression::NoCompression,
            vlog_read_handle_cache_capacity: 64,
        }
    }
}

impl Options {
    /// The part of the options that the index engine is configured with.
    pub fn fjall_index_options(&self) -> (index: FjallIndexOptions)
        ensures
            index.write_buffer_size == self.write_buffer_size,
            index.max_open_files == self.max_open_files,
            index.block_cache_size == self.block_cache_size,
            index.block_size == self.block_size,
            index.block_restart_interval == self.block_restart_interval,
            index.max_file_size == self.max_file_size,
            index.compression == (match self.compression {
                Compression::NoCompression => IndexCompression::Uncompressed,
                Compression::Lz4 => IndexCompression::Lz4,
            }),
    {
        FjallIndexOptions {
            write_buffer_size: self.write_buffer_size,
            max_open_files: self.max_open_files,
            block_cache_size: self.block_cache_size,
            block_size: self.block_size,
            block_restart_interval: self.block_restart_interval,
            max_file_size: self.max_file_size,
            compression: match self.compression {
                Compression::NoCompression => IndexCompression::Uncompressed,
                Compression::Lz4 => IndexCompression::Lz4,
            },
        }
    }
}

#[derive(Clone, Copy, Debug)]
pub struct WriteOptions {
    pub sync: bool,
}

impl Default for WriteOptions {
    fn default() -> (options: Self)
        ensures
            !options.sync,
    {
        WriteOptions { sync: false }
    }
}

#[derive(Clone, Copy, Debug)]
pub struct ReadOptions<'a> {
    pub snapshot: Option<&'a Snapshot>,
}

impl<'a> Default for ReadOptions<'a> {
    fn default() -> (options: Self)
        ensures
            options.snapshot is None,
    {
        ReadOptions { snapshot: None }
    }
}

} // verus!
