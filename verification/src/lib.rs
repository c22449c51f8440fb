//! A replicated metadata state machine: a Raft-applied, log-structured,
//! layered key-value store.
//!
//! The store keeps a primary index from byte-string keys to versioned values,
//! a secondary expiration index ordered by `(expire time, seq)`, and a stack
//! of immutable levels under one writable level.  Committed Raft log entries
//! are turned into state changes by the applier; snapshots are built by
//! freezing the writable level, compacting, and exporting a line-oriented
//! entry stream.

pub mod bytes_order;
pub mod types;
pub mod kv_map;
pub mod expire_map;
pub mod node_map;
pub mod level_data;
pub mod leveled_map;
pub mod txn;
pub mod cmd;
pub mod sm;
pub mod applier;
pub mod data_version;
pub mod snapshot;
pub mod importer;
pub mod codec;
pub mod ondisk;
