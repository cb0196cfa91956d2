//! Errors of keeping indexes on disk.

use aletheia_storage::error::StorageError;
use aletheia_storage::index_persistence::error::{IndexPersistenceError, IoErrorKind, IoFailure};

#[test]
fn should_return_true_for_not_found_io_error() {
    let err = IndexPersistenceError::Io(IoFailure::new(IoErrorKind::NotFound, "file not found"));
    assert!(err.is_not_found());
}

#[test]
fn should_return_false_for_other_io_errors() {
    let err = IndexPersistenceError::Io(IoFailure::new(
        IoErrorKind::PermissionDenied,
        "permission denied",
    ));
    assert!(!err.is_not_found());
}

#[test]
fn should_return_false_for_non_io_errors() {
    let err = IndexPersistenceError::MissingIndex { name: "test".to_string() };
    assert!(!err.is_not_found());
}

#[test]
fn should_convert_from_bitcode_error() {
    let bitcode_err = bitcode::decode::<u32>(&[]).unwrap_err();
    let expected = bitcode_err.to_string();
    let err: IndexPersistenceError = bitcode_err.into();

    match err {
        IndexPersistenceError::Serialization(msg) => {
            assert!(!msg.is_empty(), "Serialization error message should not be empty");
            assert_eq!(msg, expected);
        }
        _ => panic!("Expected Serialization error"),
    }
}

#[test]
fn errors_say_what_happened() {
    let corrupted =
        IndexPersistenceError::Corrupted { path: "a.idx".to_string(), reason: "x".to_string() };
    assert_eq!(corrupted.message(), "Index file corrupted: a.idx");
    let mismatch = IndexPersistenceError::InternerMismatch { expected: 3, got: 4 };
    assert_eq!(mismatch.message(), "String interner mismatch: expected index 3, got 4");
    let version = IndexPersistenceError::UnsupportedVersion { found: 9, supported: 2 };
    assert_eq!(version.message(), "Manifest version 9 not supported (max supported: 2)");
    let missing = IndexPersistenceError::MissingIndex { name: "nodes".to_string() };
    assert_eq!(missing.message(), "Missing required index file: nodes");
    let magic = IndexPersistenceError::InvalidMagic {
        path: "a.idx".to_string(),
        expected: [65, 76, 71, 88],
        got: [0, 1, 2, 255],
    };
    assert_eq!(
        magic.message(),
        "Invalid magic bytes in a.idx: expected [65, 76, 71, 88], got [0, 1, 2, 255]"
    );
    let size = IndexPersistenceError::SizeLimitExceeded { message: "too big".to_string() };
    assert_eq!(size.message(), "Size limit exceeded: too big");
    let full = IndexPersistenceError::InternerCapacityExceeded { current: 5, limit: 5 };
    assert_eq!(
        full.message(),
        "String interner at capacity (5/5) while persisting a property value"
    );
    let io = IndexPersistenceError::Io(IoFailure::new(IoErrorKind::NotFound, "gone"));
    assert_eq!(io.message(), "IO error: gone");
    let serial = IndexPersistenceError::Serialization("bad".to_string());
    assert_eq!(serial.message(), "Serialization error: bad");
}

#[test]
fn a_full_interner_stays_recognizable() {
    let full = IndexPersistenceError::InternerCapacityExceeded { current: 5, limit: 6 };
    match full.into_persist_storage_error("saving") {
        StorageError::CapacityExceeded { resource, current, limit } => {
            assert_eq!(resource, "string interner");
            assert_eq!((current, limit), (5, 6));
        }
        other => panic!("{:?}", other),
    }
    let missing = IndexPersistenceError::MissingIndex { name: "nodes".to_string() };
    match missing.into_persist_storage_error("saving") {
        StorageError::PersistenceError(text) => {
            assert_eq!(text, "saving: Missing required index file: nodes");
        }
        other => panic!("{:?}", other),
    }
}
