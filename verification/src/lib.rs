//! Verified storage core of a bi-temporal graph database.

use vstd::prelude::*;

pub mod counting;
pub mod current;
pub mod error;
pub mod graph;
pub mod historical;
pub mod ids;
pub mod index_persistence;
pub mod interning;
pub mod maps;
pub mod property;
pub mod ratio;
pub mod sharding;
pub mod sorting;
pub mod temporal;
pub mod text;
pub mod time;
pub mod version;

verus! {

} // verus!
