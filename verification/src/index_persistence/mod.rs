//! Keeping indexes on disk: what can go wrong.

pub mod error;
