//! Version history: chains of anchors and deltas, and what can be read from them.

pub mod cache;
pub mod chain;
pub mod hooks;
pub mod interval_index;
pub mod metrics;
pub mod policy;
pub mod table;
pub mod timeline;
pub mod walk;
pub mod rebuild;
pub mod lookup;
pub mod reads;
pub mod migrate;
pub mod laws;
pub mod adjacency_index;
pub mod inspect;
pub mod storage;
pub mod storage_reads;
pub mod maintenance;
pub mod changes;
pub mod runs;
