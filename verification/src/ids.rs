//! Identifiers of nodes, edges, versions, transactions and shards.

use vstd::prelude::*;

verus! {

/// Largest value that an identifier may take; the value above it is reserved.
pub const MAX_VALID_ID: u64 = 0xffff_ffff_ffff_fffe;

/// Identifier of a node.
#[derive(Clone, Copy, Debug, PartialEq, Eq, PartialOrd, Ord, Hash, Structural)]
pub struct NodeId(pub u64);

/// Identifier of an edge.
#[derive(Clone, Copy, Debug, PartialEq, Eq, PartialOrd, Ord, Hash, Structural)]
pub struct EdgeId(pub u64);

/// Identifier of one version of a node or an edge.
#[derive(Clone, Copy, Debug, PartialEq, Eq, PartialOrd, Ord, Hash, Structural)]
pub struct VersionId(pub u64);

/// Identifier of a distributed transaction.
#[derive(Clone, Copy, Debug, PartialEq, Eq, PartialOrd, Ord, Hash, Structural)]
pub struct TxId(pub u64);

/// Identifier of a shard.
#[derive(Clone, Copy, Debug, PartialEq, Eq, PartialOrd, Ord, Hash, Structural)]
pub struct ShardId(pub u16);

/// Identifier of an interned string.
#[derive(Clone, Copy, Debug, PartialEq, Eq, PartialOrd, Ord, Hash, Structural)]
pub struct InternedString(pub u32);

/// An identifier above [`MAX_VALID_ID`].
#[derive(Clone, Copy, Debug, PartialEq, Eq, Structural)]
pub struct InvalidId(pub u64);

impl NodeId {
    /// The identifier with the given value, unless the value is reserved.
    pub fn new(value: u64) -> (r: Result<NodeId, InvalidId>)
        ensures
            r == (if value <= MAX_VALID_ID {
                Ok::<NodeId, InvalidId>(NodeId(value))
            } else {
                Err(InvalidId(value))
            }),
    {
        if value <= MAX_VALID_ID {
            Ok(NodeId(value))
        } else {
            Err(InvalidId(value))
        }
    }

    /// The numeric value.
    pub fn as_u64(&self) -> (r: u64)
        ensures
            r == self.0,
    {
        self.0
    }
}

impl EdgeId {
    /// The identifier with the given value, unless the value is reserved.
    pub fn new(value: u64) -> (r: Result<EdgeId, InvalidId>)
        ensures
            r == (if value <= MAX_VALID_ID {
                Ok::<EdgeId, InvalidId>(EdgeId(value))
            } else {
                Err(InvalidId(value))
            }),
    {
        if value <= MAX_VALID_ID {
            Ok(EdgeId(value))
        } else {
            Err(InvalidId(value))
        }
    }

    /// The numeric value.
    pub fn as_u64(&self) -> (r: u64)
        ensures
            r == self.0,
    {
        self.0
    }
}

impl VersionId {
    /// The identifier with the given value, unless the value is reserved.
    pub fn new(value: u64) -> (r: Result<VersionId, InvalidId>)
        ensures
            r == (if value <= MAX_VALID_ID {
                Ok::<VersionId, InvalidId>(VersionId(value))
            } else {
                Err(InvalidId(value))
            }),
    {
        if value <= MAX_VALID_ID {
            Ok(VersionId(value))
        } else {
            Err(InvalidId(value))
        }
    }

    /// The numeric value.
    pub fn as_u64(&self) -> (r: u64)
        ensures
            r == self.0,
    {
        self.0
    }
}

impl TxId {
    /// The identifier with the given value.
    pub fn new(value: u64) -> (r: TxId)
        ensures
            r == TxId(value),
    {
        TxId(value)
    }

    /// The numeric value.
    pub fn as_u64(&self) -> (r: u64)
        ensures
            r == self.0,
    {
        self.0
    }
}

/// Largest shard identifier; the value above it is reserved.
pub const MAX_SHARD_ID: u16 = 0xfffe;

impl ShardId {
    /// The identifier with the given value, unless the value is reserved.
    pub fn new(value: u16) -> (r: Result<ShardId, InvalidId>)
        ensures
            r == (if value <= MAX_SHARD_ID {
                Ok::<ShardId, InvalidId>(ShardId(value))
            } else {
                Err(InvalidId(value as u64))
            }),
    {
        if value <= MAX_SHARD_ID {
            Ok(ShardId(value))
        } else {
            Err(InvalidId(value as u64))
        }
    }

    /// The numeric value.
    pub fn as_u16(&self) -> (r: u16)
        ensures
            r == self.0,
    {
        self.0
    }
}

/// Hands out identifiers, counting up.
#[derive(Debug)]
pub struct IdGenerator {
    /// The next one.
    pub upcoming: u64,
}

impl IdGenerator {
    /// A generator that starts at zero.
    pub fn new() -> (r: IdGenerator)
        ensures
            r.upcoming == 0,
    {
        IdGenerator { upcoming: 0 }
    }

    /// The next identifier, unless all have been handed out.
    pub fn next(&mut self) -> (r: Result<u64, InvalidId>)
        ensures
            r == (if old(self).upcoming <= MAX_VALID_ID {
                Ok::<u64, InvalidId>(old(self).upcoming)
            } else {
                Err(InvalidId(old(self).upcoming))
            }),
            final(self).upcoming == (if r is Ok {
                (old(self).upcoming + 1) as u64
            } else {
                old(self).upcoming
            }),
    {
        if self.upcoming <= MAX_VALID_ID {
            let id: u64 = self.upcoming;
            self.upcoming = self.upcoming + 1;
            Ok(id)
        } else {
            Err(InvalidId(self.upcoming))
        }
    }

    /// The identifier that comes next.
    pub fn current(&self) -> (r: u64)
        ensures
            r == self.upcoming,
    {
        self.upcoming
    }

    /// Makes the given identifier the next one.
    pub fn reset_to(&mut self, start: u64)
        ensures
            final(self).upcoming == start,
    {
        self.upcoming = start;
    }

    /// Makes the next identifier no smaller than the given one.
    pub fn ensure_at_least(&mut self, min_value: u64)
        ensures
            final(self).upcoming == (if old(self).upcoming < min_value {
                min_value
            } else {
                old(self).upcoming
            }),
    {
        if self.upcoming < min_value {
            self.upcoming = min_value;
        }
    }
}

} // verus!
