//! Error taxonomy: what can go wrong below the protocol, by kind.

use crate::store::StoreFault;
use vstd::prelude::*;

verus! {

/// `std::io::ErrorKind`, with its variants.
#[verifier::external_type_specification]
pub struct ExErrorKind(std::io::ErrorKind);

/// The I/O conditions that the engine tells apart.
#[derive(Debug, Clone, Copy, PartialEq, Eq, Structural)]
pub enum IoErrors {
    NotFound,
    PermissionDenied,
    ConnectionRefused,
    ConnectionReset,
    ConnectionAborted,
    NotConnected,
    AddrInUse,
    AddrNotAvailable,
    BrokenPipe,
    AlreadyExists,
    WouldBlock,
    InvalidInput,
    InvalidData,
    TimedOut,
    WriteZero,
    Interrupted,
    UnexpectedEof,
    Other,
}

/// The classification of an operating-system error kind.
pub open spec fn io_errors_of(kind: std::io::ErrorKind) -> IoErrors {
    match kind {
        std::io::ErrorKind::NotFound => IoErrors::NotFound,
        std::io::ErrorKind::PermissionDenied => IoErrors::PermissionDenied,
        std::io::ErrorKind::ConnectionRefused => IoErrors::ConnectionRefused,
        std::io::ErrorKind::ConnectionReset => IoErrors::ConnectionReset,
        std::io::ErrorKind::ConnectionAborted => IoErrors::ConnectionAborted,
        std::io::ErrorKind::NotConnected => IoErrors::NotConnected,
        std::io::ErrorKind::AddrInUse => IoErrors::AddrInUse,
        std::io::ErrorKind::AddrNotAvailable => IoErrors::AddrNotAvailable,
        std::io::ErrorKind::BrokenPipe => IoErrors::BrokenPipe,
        std::io::ErrorKind::AlreadyExists => IoErrors::AlreadyExists,
        std::io::ErrorKind::WouldBlock => IoErrors::WouldBlock,
        std::io::ErrorKind::InvalidInput => IoErrors::InvalidInput,
        std::io::ErrorKind::InvalidData => IoErrors::InvalidData,
        std::io::ErrorKind::TimedOut => IoErrors::TimedOut,
        std::io::ErrorKind::WriteZero => IoErrors::WriteZero,
        std::io::ErrorKind::Interrupted => IoErrors::Interrupted,
        std::io::ErrorKind::UnexpectedEof => IoErrors::UnexpectedEof,
        _ => IoErrors::Other,
    }
}

impl IoErrors {
    /// Classifies an operating-system error kind; kinds the engine does not
    /// tell apart fall under `Other`.
    pub fn from_kind(kind: std::io::ErrorKind) -> (r: IoErrors)
        ensures
            r == io_errors_of(kind),
    {
        match kind {
            std::io::ErrorKind::NotFound => IoErrors::NotFound,
            std::io::ErrorKind::PermissionDenied => IoErrors::PermissionDenied,
            std::io::ErrorKind::ConnectionRefused => IoErrors::ConnectionRefused,
            std::io::ErrorKind::ConnectionReset => IoErrors::ConnectionReset,
            std::io::ErrorKind::ConnectionAborted => IoErrors::ConnectionAborted,
            std::io::ErrorKind::NotConnected => IoErrors::NotConnected,
            std::io::ErrorKind::AddrInUse => IoErrors::AddrInUse,
            std::io::ErrorKind::AddrNotAvailable => IoErrors::AddrNotAvailable,
            std::io::ErrorKind::BrokenPipe => IoErrors::BrokenPipe,
            std::io::ErrorKind::AlreadyExists => IoErrors::AlreadyExists,
            std::io::ErrorKind::WouldBlock => IoErrors::WouldBlock,
            std::io::ErrorKind::InvalidInput => IoErrors::InvalidInput,
            std::io::ErrorKind::InvalidData => IoErrors::InvalidData,
            std::io::ErrorKind::TimedOut => IoErrors::TimedOut,
            std::io::ErrorKind::WriteZero => IoErrors::WriteZero,
            std::io::ErrorKind::Interrupted => IoErrors::Interrupted,
            std::io::ErrorKind::UnexpectedEof => IoErrors::UnexpectedEof,
            _ => IoErrors::Other,
        }
    }

    /// The name under which the condition appears in diagnostics.
    pub open spec fn spec_name(self) -> Seq<char> {
        match self {
            IoErrors::NotFound => "NotFound"@,
            IoErrors::PermissionDenied => "PermissionDenied"@,
            IoErrors::ConnectionRefused => "ConnectionRefused"@,
            IoErrors::ConnectionReset => "ConnectionReset"@,
            IoErrors::ConnectionAborted => "ConnectionAborted"@,
            IoErrors::NotConnected => "NotConnected"@,
            IoErrors::AddrInUse => "AddrInUse"@,
            IoErrors::AddrNotAvailable => "AddrNotAvailable"@,
            IoErrors::BrokenPipe => "BrokenPipe"@,
            IoErrors::AlreadyExists => "AlreadyExists"@,
            IoErrors::WouldBlock => "WouldBlock"@,
            IoErrors::InvalidInput => "InvalidInput"@,
            IoErrors::InvalidData => "InvalidData"@,
            IoErrors::TimedOut => "TimedOut"@,
            IoErrors::WriteZero => "WriteZero"@,
            IoErrors::Interrupted => "Interrupted"@,
            IoErrors::UnexpectedEof => "UnexpectedEof"@,
            IoErrors::Other => "Other"@,
        }
    }

    pub fn name(&self) -> (r: &'static str)
        ensures
            r@ == self.spec_name(),
    {
        match self {
            IoErrors::NotFound => "NotFound",
            IoErrors::PermissionDenied => "PermissionDenied",
            IoErrors::ConnectionRefused => "ConnectionRefused",
            IoErrors::ConnectionReset => "ConnectionReset",
            IoErrors::ConnectionAborted => "ConnectionAborted",
            IoErrors::NotConnected => "NotConnected",
            IoErrors::AddrInUse => "AddrInUse",
            IoErrors::AddrNotAvailable => "AddrNotAvailable",
            IoErrors::BrokenPipe => "BrokenPipe",
            IoErrors::AlreadyExists => "AlreadyExists",
            IoErrors::WouldBlock => "WouldBlock",
            IoErrors::InvalidInput => "InvalidInput",
            IoErrors::InvalidData => "InvalidData",
            IoErrors::TimedOut => "TimedOut",
            IoErrors::WriteZero => "WriteZero",
            IoErrors::Interrupted => "Interrupted",
            IoErrors::UnexpectedEof => "UnexpectedEof",
            IoErrors::Other => "Other",
        }
    }
}

/// Everything an engine operation can fail with.
#[derive(Debug, Clone, PartialEq, Eq)]
pub enum TuringDbError {
    /// A database name was empty.
    DbNameMissing,
    /// A document name was empty.
    EmptyDocumentName,
    /// A field name was empty.
    EmptyFieldName,
    /// A field payload was empty.
    EmptyData,
    /// A name that is hidden or is no single component of a path.
    InvalidPathUnicodeName,
    DocumentAlreadyExists,
    /// The bytes stored under a key are not a field record.
    CorruptRecord,
    /// The store reported corrupted storage.
    DocumentCorrupted,
    /// The store's collection is gone.
    DocumentNoLongerExists,
    /// The store of a new document was made and could then not be read:
    /// its directory is left behind.
    DocumentUnfinished,
    /// The store was used in a way it does not support.
    SystemViolation(String),
    /// The store reported an internal fault.
    Bug(String),
    /// The file system or the store failed on I/O.
    Io(IoErrors),
}

impl TuringDbError {
    /// The error is a failure of a document's store, not a refusal of the
    /// request.
    pub open spec fn is_store_failure(self) -> bool {
        self is DocumentNoLongerExists || self is SystemViolation || self is Bug || self is Io
            || self is DocumentCorrupted || self is DocumentUnfinished
    }

    /// Whether the error is a failure of a document's store.
    pub fn store_failed(&self) -> (r: bool)
        ensures
            r == self.is_store_failure(),
    {
        match self {
            TuringDbError::DocumentNoLongerExists => true,
            TuringDbError::SystemViolation(_) => true,
            TuringDbError::Bug(_) => true,
            TuringDbError::Io(_) => true,
            TuringDbError::DocumentCorrupted => true,
            TuringDbError::DocumentUnfinished => true,
            _ => false,
        }
    }

    /// The error under which a failure of the store is reported.
    pub open spec fn of_fault(fault: StoreFault) -> TuringDbError {
        match fault {
            StoreFault::CollectionNotFound => TuringDbError::DocumentNoLongerExists,
            StoreFault::Unsupported(what) => TuringDbError::SystemViolation(what),
            StoreFault::ReportableBug(what) => TuringDbError::Bug(what),
            StoreFault::Io(kind) => TuringDbError::Io(io_errors_of(kind)),
            StoreFault::Corruption => TuringDbError::DocumentCorrupted,
        }
    }

    /// Reports a failure of the store: a lost collection as a document that
    /// no longer exists, misuse as a system violation, an internal fault as a
    /// bug, an I/O failure by its kind, corrupted files as a corrupted
    /// document.
    pub fn from_fault(fault: StoreFault) -> (r: TuringDbError)
        ensures
            r == TuringDbError::of_fault(fault),
            r.is_store_failure(),
    {
        match fault {
            StoreFault::CollectionNotFound => TuringDbError::DocumentNoLongerExists,
            StoreFault::Unsupported(what) => TuringDbError::SystemViolation(what),
            StoreFault::ReportableBug(what) => TuringDbError::Bug(what),
            StoreFault::Io(kind) => TuringDbError::Io(IoErrors::from_kind(kind)),
            StoreFault::Corruption => TuringDbError::DocumentCorrupted,
        }
    }

    pub open spec fn spec_tag(self) -> Seq<char> {
        match self {
            TuringDbError::DbNameMissing => "MISSING_DB_NAME"@,
            TuringDbError::EmptyDocumentName => "DOCUMENT_NAME_EMPTY"@,
            TuringDbError::EmptyFieldName => "FIELD_NAME_EMPTY"@,
            TuringDbError::EmptyData => "DATA_FIELD_EMPTY"@,
            TuringDbError::InvalidPathUnicodeName => "INVALID_PATH_NAME"@,
            TuringDbError::DocumentAlreadyExists => "DOCUMENT_ALREADY_EXISTS"@,
            TuringDbError::CorruptRecord => "CORRUPT_RECORD"@,
            TuringDbError::DocumentCorrupted => "DOCUMENT_CORRUPTED"@,
            TuringDbError::DocumentNoLongerExists => "DOCUMENT_NO_LONGER_EXISTS"@,
            TuringDbError::DocumentUnfinished => "DOCUMENT_UNFINISHED"@,
            TuringDbError::SystemViolation(_) => "SYSTEM_VIOLATION"@,
            TuringDbError::Bug(_) => "BUG"@,
            TuringDbError::Io(kind) => kind.spec_name(),
        }
    }

    /// The tag under which the error appears in a diagnostic message.
    pub fn tag(&self) -> (r: &'static str)
        ensures
            r@ == self.spec_tag(),
    {
        match self {
            TuringDbError::DbNameMissing => "MISSING_DB_NAME",
            TuringDbError::EmptyDocumentName => "DOCUMENT_NAME_EMPTY",
            TuringDbError::EmptyFieldName => "FIELD_NAME_EMPTY",
            TuringDbError::EmptyData => "DATA_FIELD_EMPTY",
            TuringDbError::InvalidPathUnicodeName => "INVALID_PATH_NAME",
            TuringDbError::DocumentAlreadyExists => "DOCUMENT_ALREADY_EXISTS",
            TuringDbError::CorruptRecord => "CORRUPT_RECORD",
            TuringDbError::DocumentCorrupted => "DOCUMENT_CORRUPTED",
            TuringDbError::DocumentNoLongerExists => "DOCUMENT_NO_LONGER_EXISTS",
            TuringDbError::DocumentUnfinished => "DOCUMENT_UNFINISHED",
            TuringDbError::SystemViolation(_) => "SYSTEM_VIOLATION",
            TuringDbError::Bug(_) => "BUG",
            TuringDbError::Io(kind) => kind.name(),
        }
    }
}

/// Faults of the wire layer.
#[derive(Debug, Clone, Copy, PartialEq, Eq, Structural)]
pub enum OpsErrors {
    /// A frame announced more than the server will buffer.
    BufferCapacityExceeded16Mb,
    /// A payload that is no command.
    IntegrityCorrupted,
}

impl OpsErrors {
    /// The message under which the fault is reported to the peer.
    pub open spec fn spec_message(self) -> Seq<char> {
        match self {
            OpsErrors::BufferCapacityExceeded16Mb => "BUFFER_CAPACITY_EXCEEDED_16MB"@,
            OpsErrors::IntegrityCorrupted => "COMMAND_NOT_READABLE"@,
        }
    }

    pub fn message(&self) -> (r: &'static str)
        ensures
            r@ == self.spec_message(),
    {
        match self {
            OpsErrors::BufferCapacityExceeded16Mb => "BUFFER_CAPACITY_EXCEEDED_16MB",
            OpsErrors::IntegrityCorrupted => "COMMAND_NOT_READABLE",
        }
    }
}

} // verus!
