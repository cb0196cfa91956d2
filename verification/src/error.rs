//! Errors of the storage engine.

use crate::ids::{EdgeId, NodeId, VersionId};
use crate::temporal::Timestamp;
use vstd::prelude::*;

verus! {

/// Errors about stored entities and their versions.
#[derive(Debug)]
pub enum StorageError {
    /// No such node.
    NodeNotFound(NodeId),
    /// No such edge.
    EdgeNotFound(EdgeId),
    /// No such version.
    VersionNotFound(VersionId),
    /// A limit on the number of stored things is reached.
    CapacityExceeded {
        /// What there would be too many of.
        resource: String,
        /// How many there are.
        current: usize,
        /// How many there may be.
        limit: usize,
    },
    /// A request contradicts what is stored.
    InconsistentState {
        /// In which way.
        reason: String,
    },
    /// Stored data could not be written or read back.
    PersistenceError(String),
    /// No such property.
    PropertyNotFound(String),
}

/// Errors about vectors and their indexes.
#[derive(Debug)]
pub enum VectorError {
    /// An index cannot be used as asked.
    IndexError(String),
    /// A vector is too long or too short.
    DimensionMismatch {
        /// How long it should be.
        expected: usize,
        /// How long it is.
        actual: usize,
    },
    /// A value is not a vector.
    InvalidVector {
        /// In which way.
        reason: String,
    },
}

/// Errors about time and version chains.
#[derive(Debug)]
pub enum TemporalError {
    /// A range would end before it starts.
    InvalidTimeRange {
        /// Requested start.
        start: Timestamp,
        /// Requested end.
        end: Timestamp,
    },
    /// A delta chain is longer than the reconstruction limit.
    MaxDepthExceeded {
        /// The limit.
        max_depth: usize,
        /// The entity whose chain it is.
        entity_id: String,
    },
    /// An ancestor that a delta builds on is gone.
    MissingAnchor {
        /// The entity whose chain it is.
        entity_id: String,
    },
    /// A version chain has an impossible shape.
    CorruptedVersionChain {
        /// The entity whose chain it is.
        entity_id: String,
        /// In which way.
        reason: String,
    },
}

/// Any error of the storage engine.
#[derive(Debug)]
pub enum Error {
    /// An error about stored entities.
    Storage(StorageError),
    /// An error about time and version chains.
    Temporal(TemporalError),
    /// An error about vectors.
    Vector(VectorError),
    /// A request that does not fit the present state.
    FailedPrecondition(String),
}

/// What an [`Error`] says, with its texts as character sequences.
pub enum ErrorView {
    /// See [`StorageError::NodeNotFound`].
    NodeNotFound(NodeId),
    /// See [`StorageError::EdgeNotFound`].
    EdgeNotFound(EdgeId),
    /// See [`StorageError::VersionNotFound`].
    VersionNotFound(VersionId),
    /// See [`StorageError::CapacityExceeded`].
    CapacityExceeded {
        /// What there would be too many of.
        resource: Seq<char>,
        /// How many there are.
        current: usize,
        /// How many there may be.
        limit: usize,
    },
    /// See [`StorageError::InconsistentState`].
    InconsistentState {
        /// In which way.
        reason: Seq<char>,
    },
    /// See [`StorageError::PersistenceError`].
    PersistenceError(Seq<char>),
    /// See [`StorageError::PropertyNotFound`].
    PropertyNotFound(Seq<char>),
    /// See [`VectorError::IndexError`].
    IndexError(Seq<char>),
    /// See [`VectorError::DimensionMismatch`].
    DimensionMismatch {
        /// How long the vector should be.
        expected: usize,
        /// How long it is.
        actual: usize,
    },
    /// See [`VectorError::InvalidVector`].
    InvalidVector {
        /// In which way.
        reason: Seq<char>,
    },
    /// See [`Error::FailedPrecondition`].
    FailedPrecondition(Seq<char>),
    /// See [`TemporalError::InvalidTimeRange`].
    InvalidTimeRange {
        /// Requested start.
        start: Timestamp,
        /// Requested end.
        end: Timestamp,
    },
    /// See [`TemporalError::MaxDepthExceeded`].
    MaxDepthExceeded {
        /// The limit.
        max_depth: usize,
        /// The entity whose chain it is.
        entity_id: Seq<char>,
    },
    /// See [`TemporalError::MissingAnchor`].
    MissingAnchor {
        /// The entity whose chain it is.
        entity_id: Seq<char>,
    },
    /// See [`TemporalError::CorruptedVersionChain`].
    CorruptedVersionChain {
        /// The entity whose chain it is.
        entity_id: Seq<char>,
        /// In which way.
        reason: Seq<char>,
    },
}

impl View for StorageError {
    type V = ErrorView;

    open spec fn view(&self) -> ErrorView {
        match *self {
            StorageError::NodeNotFound(id) => ErrorView::NodeNotFound(id),
            StorageError::EdgeNotFound(id) => ErrorView::EdgeNotFound(id),
            StorageError::VersionNotFound(id) => ErrorView::VersionNotFound(id),
            StorageError::CapacityExceeded { resource, current, limit } =>
                ErrorView::CapacityExceeded { resource: resource@, current, limit },
            StorageError::InconsistentState { reason } => ErrorView::InconsistentState {
                reason: reason@,
            },
            StorageError::PersistenceError(text) => ErrorView::PersistenceError(text@),
            StorageError::PropertyNotFound(name) => ErrorView::PropertyNotFound(name@),
        }
    }
}

impl View for TemporalError {
    type V = ErrorView;

    open spec fn view(&self) -> ErrorView {
        match *self {
            TemporalError::InvalidTimeRange { start, end } => ErrorView::InvalidTimeRange {
                start,
                end,
            },
            TemporalError::MaxDepthExceeded { max_depth, entity_id } =>
                ErrorView::MaxDepthExceeded { max_depth, entity_id: entity_id@ },
            TemporalError::MissingAnchor { entity_id } => ErrorView::MissingAnchor {
                entity_id: entity_id@,
            },
            TemporalError::CorruptedVersionChain { entity_id, reason } =>
                ErrorView::CorruptedVersionChain { entity_id: entity_id@, reason: reason@ },
        }
    }
}

impl View for VectorError {
    type V = ErrorView;

    open spec fn view(&self) -> ErrorView {
        match *self {
            VectorError::IndexError(text) => ErrorView::IndexError(text@),
            VectorError::DimensionMismatch { expected, actual } => ErrorView::DimensionMismatch {
                expected,
                actual,
            },
            VectorError::InvalidVector { reason } => ErrorView::InvalidVector { reason: reason@ },
        }
    }
}

impl View for Error {
    type V = ErrorView;

    open spec fn view(&self) -> ErrorView {
        match *self {
            Error::Storage(e) => e@,
            Error::Temporal(e) => e@,
            Error::Vector(e) => e@,
            Error::FailedPrecondition(text) => ErrorView::FailedPrecondition(text@),
        }
    }
}

} // verus!
