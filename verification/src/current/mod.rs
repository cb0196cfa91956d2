//! The current state of the graph: nodes, edges, and how they hang together.

pub mod adjacency;
pub mod csr;
pub mod entries;
pub mod find;
pub mod find_similar;
pub mod indexes;
pub mod iterators;
pub mod laws;
pub mod named;
pub mod namespaces;
pub mod paging;
pub mod property_index;
pub mod registry;
pub mod scan;
pub mod search;
pub mod similarity;
pub mod storage;
pub mod temporal_search;
pub mod traversal;
pub mod vector_admin;
pub mod vector_registry;
pub mod vectors;
