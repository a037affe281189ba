//! Core building blocks of a time-series analytic storage engine:
//! the write-ahead-log encoding, the in-memory ordered buffer of recent
//! writes, the contiguous row codec, the flush scheduling state machine,
//! the manifest of metadata edits, and the recovery path that rebuilds a
//! table from its durable state.

pub mod bits;
pub mod bitset;
pub mod bloom;
pub mod buckets;
pub mod codec;
pub mod contiguous;
pub mod datum;
pub mod error_util;
pub mod kv_encoder;
pub mod limiter;
pub mod log_batch;
pub mod manifest;
pub mod memtable;
pub mod partition;
pub mod schema;
pub mod serial_executor;
pub mod table;
pub mod table_options;

pub use bitset::BitSet;
