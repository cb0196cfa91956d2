//! Errors of keeping indexes on disk.

use crate::error::StorageError;
use crate::text::{decimal, law_decimals_tell_numbers_apart, lemma_same_middle, push_decimal};
use bitcode::Error as BitcodeError;
use vstd::prelude::*;

verus! {

/// What kind of input or output failed.
#[derive(Clone, Copy, Debug, PartialEq, Eq, Structural)]
pub enum IoErrorKind {
    /// There is no such file.
    NotFound,
    /// The file may not be touched.
    PermissionDenied,
    /// The file is there already.
    AlreadyExists,
    /// The file ended too early.
    UnexpectedEof,
    /// The file holds something else.
    InvalidData,
    /// Anything else.
    Other,
}

/// A failure of input or output.
#[derive(Debug)]
pub struct IoFailure {
    /// What kind of failure.
    pub kind: IoErrorKind,
    /// What it says.
    pub message: String,
}

impl IoFailure {
    /// A failure that says what is given.
    pub fn new(kind: IoErrorKind, message: &str) -> (r: IoFailure)
        ensures
            r.kind == kind,
            r.message@ == message@,
    {
        IoFailure { kind, message: String::from_str(message) }
    }
}

/// Errors of keeping indexes on disk.
#[derive(Debug)]
pub enum IndexPersistenceError {
    /// An index file is damaged.
    Corrupted {
        /// The file.
        path: String,
        /// What was wrong with it.
        reason: String,
    },
    /// A string came back under another number.
    InternerMismatch {
        /// The number that it had.
        expected: u32,
        /// The number that it got.
        got: u32,
    },
    /// The manifest is too new.
    UnsupportedVersion {
        /// Its version.
        found: u16,
        /// The newest version that can be read.
        supported: u16,
    },
    /// An index file is missing.
    MissingIndex {
        /// The file.
        name: String,
    },
    /// A file does not start as it should.
    InvalidMagic {
        /// The file.
        path: String,
        /// How it should start.
        expected: [u8; 4],
        /// How it starts.
        got: [u8; 4],
    },
    /// Something is larger than it may be.
    SizeLimitExceeded {
        /// What.
        message: String,
    },
    /// No more strings can be interned.
    InternerCapacityExceeded {
        /// How many there are.
        current: usize,
        /// How many there may be.
        limit: usize,
    },
    /// Input or output failed.
    Io(IoFailure),
    /// Data could not be written down or read back.
    Serialization(String),
}

/// The result of keeping indexes on disk.
pub type PersistResult<T> = Result<T, IndexPersistenceError>;

/// Declares `bitcode::Error`.
#[verifier::external_type_specification]
#[verifier::external_body]
pub struct ExBitcodeError(BitcodeError);

/// The text that the `Display` form of `bitcode::Error` gives.
pub uninterp spec fn bitcode_message(error: BitcodeError) -> Seq<char>;

/// `bitcode::Error`, shown by its `Display` form: the reason that the error holds or, where that
/// crate was built without debug assertions, the same few words for every error. What the text says
/// is left open.
#[verifier::external_body]
fn bitcode_text(error: &BitcodeError) -> (r: String)
    ensures
        r@ == bitcode_message(*error),
{
    error.to_string()
}

impl From<BitcodeError> for IndexPersistenceError {
    fn from(error: BitcodeError) -> (r: IndexPersistenceError)
        ensures
            r matches IndexPersistenceError::Serialization(text) && text@ == bitcode_message(error),
    {
        IndexPersistenceError::Serialization(bitcode_text(&error))
    }
}

impl vstd::std_specs::convert::FromSpecImpl<BitcodeError> for IndexPersistenceError {
    open spec fn obeys_from_spec() -> bool {
        false
    }

    open spec fn from_spec(error: BitcodeError) -> IndexPersistenceError {
        arbitrary()
    }
}

/// Four bytes as text, in brackets and with commas.
pub open spec fn bytes_text(bytes: [u8; 4]) -> Seq<char> {
    "["@ + decimal(bytes@[0] as nat) + ", "@ + decimal(bytes@[1] as nat) + ", "@ + decimal(
        bytes@[2] as nat,
    ) + ", "@ + decimal(bytes@[3] as nat) + "]"@
}

/// Appends four bytes as text.
fn push_bytes_text(out: &mut String, bytes: &[u8; 4])
    ensures
        final(out)@ == old(out)@ + bytes_text(*bytes),
{
    out.append("[");
    push_decimal(out, bytes[0] as u64);
    out.append(", ");
    push_decimal(out, bytes[1] as u64);
    out.append(", ");
    push_decimal(out, bytes[2] as u64);
    out.append(", ");
    push_decimal(out, bytes[3] as u64);
    out.append("]");
    assert(out@ =~= old(out)@ + bytes_text(*bytes));
}

impl IndexPersistenceError {
    /// What the error says.
    pub open spec fn spec_message(self) -> Seq<char> {
        match self {
            IndexPersistenceError::Corrupted { path, reason } => "Index file corrupted: "@ + path@,
            IndexPersistenceError::InternerMismatch { expected, got } =>
                "String interner mismatch: expected index "@ + decimal(expected as nat) + ", got "@
                + decimal(got as nat),
            IndexPersistenceError::UnsupportedVersion { found, supported } => "Manifest version "@
                + decimal(found as nat) + " not supported (max supported: "@ + decimal(
                supported as nat,
            ) + ")"@,
            IndexPersistenceError::MissingIndex { name } => "Missing required index file: "@ + name@,
            IndexPersistenceError::InvalidMagic { path, expected, got } => "Invalid magic bytes in "@
                + path@ + ": expected "@ + bytes_text(expected) + ", got "@ + bytes_text(got),
            IndexPersistenceError::SizeLimitExceeded { message } => "Size limit exceeded: "@
                + message@,
            IndexPersistenceError::InternerCapacityExceeded { current, limit } =>
                "String interner at capacity ("@ + decimal(current as nat) + "/"@ + decimal(
                limit as nat,
            ) + ") while persisting a property value"@,
            IndexPersistenceError::Io(failure) => "IO error: "@ + failure.message@,
            IndexPersistenceError::Serialization(text) => "Serialization error: "@ + text@,
        }
    }

    /// What the error says.
    pub fn message(&self) -> (r: String)
        ensures
            r@ == self.spec_message(),
    {
        match self {
            IndexPersistenceError::Corrupted { path, reason } => {
                let mut out = String::from_str("Index file corrupted: ");
                out.append(path.as_str());
                out
            },
            IndexPersistenceError::InternerMismatch { expected, got } => {
                let mut out = String::from_str("String interner mismatch: expected index ");
                push_decimal(&mut out, *expected as u64);
                out.append(", got ");
                push_decimal(&mut out, *got as u64);
                out
            },
            IndexPersistenceError::UnsupportedVersion { found, supported } => {
                let mut out = String::from_str("Manifest version ");
                push_decimal(&mut out, *found as u64);
                out.append(" not supported (max supported: ");
                push_decimal(&mut out, *supported as u64);
                out.append(")");
                out
            },
            IndexPersistenceError::MissingIndex { name } => {
                let mut out = String::from_str("Missing required index file: ");
                out.append(name.as_str());
                out
            },
            IndexPersistenceError::InvalidMagic { path, expected, got } => {
                let mut out = String::from_str("Invalid magic bytes in ");
                out.append(path.as_str());
                out.append(": expected ");
                push_bytes_text(&mut out, expected);
                out.append(", got ");
                push_bytes_text(&mut out, got);
                out
            },
            IndexPersistenceError::SizeLimitExceeded { message } => {
                let mut out = String::from_str("Size limit exceeded: ");
                out.append(message.as_str());
                out
            },
            IndexPersistenceError::InternerCapacityExceeded { current, limit } => {
                let mut out = String::from_str("String interner at capacity (");
                push_decimal(&mut out, *current as u64);
                out.append("/");
                push_decimal(&mut out, *limit as u64);
                out.append(") while persisting a property value");
                out
            },
            IndexPersistenceError::Io(failure) => {
                let mut out = String::from_str("IO error: ");
                out.append(failure.message.as_str());
                out
            },
            IndexPersistenceError::Serialization(text) => {
                let mut out = String::from_str("Serialization error: ");
                out.append(text.as_str());
                out
            },
        }
    }

    /// Whether a file was not found.
    pub fn is_not_found(&self) -> (r: bool)
        ensures
            r == (self matches IndexPersistenceError::Io(failure) && failure.kind
                == IoErrorKind::NotFound),
    {
        match self {
            IndexPersistenceError::Io(failure) => failure.kind == IoErrorKind::NotFound,
            _ => false,
        }
    }

    /// The error as one of the storage engine. That no more strings can be interned stays
    /// recognizable; everything else becomes text that says where it happened.
    pub fn into_persist_storage_error(self, context: &str) -> (r: StorageError)
        ensures
            match self {
                IndexPersistenceError::InternerCapacityExceeded { current, limit } => {
                    &&& r matches StorageError::CapacityExceeded {
                        resource,
                        current: c,
                        limit: l,
                    }
                    &&& resource@ == "string interner"@
                    &&& c == current
                    &&& l == limit
                },
                _ => {
                    &&& r matches StorageError::PersistenceError(text)
                    &&& text@ == context@ + ": "@ + self.spec_message()
                },
            },
    {
        match &self {
            IndexPersistenceError::InternerCapacityExceeded { current, limit } =>
                StorageError::CapacityExceeded {
                    resource: String::from_str("string interner"),
                    current: *current,
                    limit: *limit,
                },
            _ => {
                let mut out = String::from_str(context);
                out.append(": ");
                out.append(self.message().as_str());
                StorageError::PersistenceError(out)
            },
        }
    }
}

proof fn lemma_numbers_apart(before: Seq<char>, a: nat, b: nat, after: Seq<char>)
    ensures
        before + decimal(a) + after == before + decimal(b) + after ==> a == b,
{
    if before + decimal(a) + after == before + decimal(b) + after {
        lemma_same_middle(before, decimal(a), decimal(b), after);
        law_decimals_tell_numbers_apart(a, b);
    }
}

/// Messages tell the numbers in full: errors that differ in one of their numbers alone have
/// different messages.
pub proof fn law_messages_tell_the_numbers(
    a: u16,
    b: u16,
    other: u16,
    m: usize,
    n: usize,
    limit: usize,
    x: u32,
    y: u32,
    z: u32,
)
    ensures
        x != y ==> {
            &&& (IndexPersistenceError::InternerMismatch { expected: x, got: z }).spec_message() != (
            IndexPersistenceError::InternerMismatch { expected: y, got: z }).spec_message()
            &&& (IndexPersistenceError::InternerMismatch { expected: z, got: x }).spec_message() != (
            IndexPersistenceError::InternerMismatch { expected: z, got: y }).spec_message()
        },
        a != b ==> {
            &&& (IndexPersistenceError::UnsupportedVersion { found: a, supported: other }).spec_message()
                != (IndexPersistenceError::UnsupportedVersion { found: b, supported: other }).spec_message()
            &&& (IndexPersistenceError::UnsupportedVersion { found: other, supported: a }).spec_message()
                != (IndexPersistenceError::UnsupportedVersion { found: other, supported: b }).spec_message()
        },
        m != n ==> {
            &&& (IndexPersistenceError::InternerCapacityExceeded { current: m, limit }).spec_message() != (
            IndexPersistenceError::InternerCapacityExceeded { current: n, limit }).spec_message()
            &&& (IndexPersistenceError::InternerCapacityExceeded { current: limit, limit: m }).spec_message()
                != (IndexPersistenceError::InternerCapacityExceeded { current: limit, limit: n })
                .spec_message()
        },
{
    let word = "Manifest version "@;
    let rest = " not supported (max supported: "@ + decimal(other as nat) + ")"@;
    lemma_numbers_apart(word, a as nat, b as nat, rest);
    assert forall|f: u16|
        #![trigger decimal(f as nat)]
        (IndexPersistenceError::UnsupportedVersion { found: f, supported: other }).spec_message() =~= word
            + decimal(f as nat) + rest by {}
    lemma_numbers_apart(
        word + decimal(other as nat) + " not supported (max supported: "@,
        a as nat,
        b as nat,
        ")"@,
    );
    let none = Seq::<char>::empty();
    let mix = "String interner mismatch: expected index "@;
    let end = ", got "@ + decimal(z as nat);
    lemma_numbers_apart(mix, x as nat, y as nat, end);
    lemma_numbers_apart(mix + decimal(z as nat) + ", got "@, x as nat, y as nat, none);
    assert forall|e: u32|
        #![trigger decimal(e as nat)]
        {
            &&& (IndexPersistenceError::InternerMismatch { expected: e, got: z }).spec_message() =~= mix
                + decimal(e as nat) + end
            &&& (IndexPersistenceError::InternerMismatch { expected: z, got: e }).spec_message() =~= mix
                + decimal(z as nat) + ", got "@ + decimal(e as nat) + none
        } by {}
    let full = "String interner at capacity ("@;
    let tail = "/"@ + decimal(limit as nat) + ") while persisting a property value"@;
    lemma_numbers_apart(full, m as nat, n as nat, tail);
    assert forall|c: usize|
        #![trigger decimal(c as nat)]
        (IndexPersistenceError::InternerCapacityExceeded { current: c, limit }).spec_message() =~= full
            + decimal(c as nat) + tail by {}
    lemma_numbers_apart(
        full + decimal(limit as nat) + "/"@,
        m as nat,
        n as nat,
        ") while persisting a property value"@,
    );
}

} // verus!
