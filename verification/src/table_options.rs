//! Per-table options: how rows are compressed, updated, laid out on
//! disk, and when memtables are flushed.

use vstd::prelude::*;

verus! {

/// The page compression of a table file.
#[derive(Debug, Clone, Copy, PartialEq, Eq, Structural)]
pub enum Compression {
    Uncompressed,
    Lz4,
    Snappy,
    Zstd,
}

/// What a write under an existing key does.
#[derive(Debug, Clone, Copy, PartialEq, Eq, Structural)]
pub enum UpdateMode {
    /// The newer row replaces the older one.
    Overwrite,
    /// Both rows are kept.
    Append,
}

/// The on-disk layout asked of the table-file builder.
#[derive(Debug, Clone, Copy, PartialEq, Eq, Structural)]
pub enum StorageFormatHint {
    /// Let the builder choose.
    Auto,
    /// One chunk per column.
    Columnar,
    /// Key columns collapsed per tag set and time block.
    Hybrid,
}

/// How often the table expects to be read.
#[derive(Debug, Clone, Copy, PartialEq, Eq, Structural)]
pub enum ReadFrequency {
    Once,
    Frequent,
}

/// One day in milliseconds: the default time partition of table files.
pub const DEFAULT_SEGMENT_DURATION_MS: i64 = 86400000;

/// The default number of rows per row group.
pub const DEFAULT_NUM_ROWS_PER_ROW_GROUP: usize = 8192;

/// The default arena block size in bytes.
pub const DEFAULT_ARENA_BLOCK_SIZE: u32 = 2097152;

/// The default per-table write buffer size in bytes.
pub const DEFAULT_WRITE_BUFFER_SIZE: u32 = 33554432;

/// The options of one table.
#[derive(Debug, Clone, PartialEq, Eq, Structural)]
pub struct TableOptions {
    /// Time partition of the table's files, in milliseconds.
    pub segment_duration_ms: i64,
    /// Whether rows expire.
    pub enable_ttl: bool,
    /// How long rows live, in milliseconds.
    pub ttl_ms: i64,
    /// The allocation block of the memtable arena, in bytes.
    pub arena_block_size: u32,
    /// How many buffered bytes force a flush.
    pub write_buffer_size: u32,
    /// How many rows one row group holds.
    pub num_rows_per_row_group: usize,
    pub compression: Compression,
    pub update_mode: UpdateMode,
    pub storage_format_hint: StorageFormatHint,
}

impl Default for TableOptions {
    /// The defaults: day-wide segments, rows living a week, zstd pages,
    /// overwriting updates, and the layout left to the builder.
    fn default() -> (r: TableOptions)
        ensures
            r.segment_duration_ms == DEFAULT_SEGMENT_DURATION_MS,
            r.enable_ttl,
            r.ttl_ms == 7 * 86400000,
            r.arena_block_size == DEFAULT_ARENA_BLOCK_SIZE,
            r.write_buffer_size == DEFAULT_WRITE_BUFFER_SIZE,
            r.num_rows_per_row_group == DEFAULT_NUM_ROWS_PER_ROW_GROUP,
            r.compression == Compression::Zstd,
            r.update_mode == UpdateMode::Overwrite,
            r.storage_format_hint == StorageFormatHint::Auto,
    {
        TableOptions {
            segment_duration_ms: DEFAULT_SEGMENT_DURATION_MS,
            enable_ttl: true,
            ttl_ms: 604800000,
            arena_block_size: DEFAULT_ARENA_BLOCK_SIZE,
            write_buffer_size: DEFAULT_WRITE_BUFFER_SIZE,
            num_rows_per_row_group: DEFAULT_NUM_ROWS_PER_ROW_GROUP,
            compression: Compression::Zstd,
            update_mode: UpdateMode::Overwrite,
            storage_format_hint: StorageFormatHint::Auto,
        }
    }
}

/// What the table-file builder is asked for.
#[derive(Debug, Clone, Copy, PartialEq, Eq, Structural)]
pub struct SstBuilderOptions {
    pub num_rows_per_row_group: usize,
    pub compression: Compression,
}

impl TableOptions {
    /// The builder options this table's files are written with.
    pub fn sst_builder_options(&self) -> (r: SstBuilderOptions)
        ensures
            r.num_rows_per_row_group == self.num_rows_per_row_group,
            r.compression == self.compression,
    {
        SstBuilderOptions {
            num_rows_per_row_group: self.num_rows_per_row_group,
            compression: self.compression,
        }
    }

    /// Whether the buffered bytes have reached the flush threshold.
    pub fn should_flush(&self, buffered_bytes: u64) -> (r: bool)
        ensures
            r == (buffered_bytes >= self.write_buffer_size),
    {
        buffered_bytes >= self.write_buffer_size as u64
    }
}

} // verus!
