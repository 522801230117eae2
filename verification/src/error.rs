//! The kinds of failure that the tracker and the processor report.

use vstd::prelude::*;

verus! {

/// Why a run of the client or an ingestion on the server was abandoned.
#[derive(Clone, Copy, Debug, PartialEq, Eq, Structural)]
pub enum ErrorKind {
    /// No input file or directory could be resolved.
    PathError,
    /// A tracked file could not be read.
    HashIOError,
    /// The server does not know the revision, yet the local record names a
    /// parent, and the upload was not forced.
    LineageError,
    /// The server already holds this revision id.
    DedupConflict,
    /// The remote answered with something other than success.
    ProtocolError,
    /// An archive, a schema, a trajectory or a revision record is
    /// malformed.
    ExtractionError,
    /// The document store refused the insert.
    StorageError,
}

impl ErrorKind {
    /// A message for the operator.
    pub fn message(&self) -> (r: &'static str)
        ensures
            r@ == error_text(*self),
    {
        match self {
            ErrorKind::PathError => "no input file or directory found",
            ErrorKind::HashIOError => "a tracked file could not be read",
            ErrorKind::LineageError => "previous record not found in database",
            ErrorKind::DedupConflict => "file already exists, upload cancelled",
            ErrorKind::ProtocolError => "the server reported an error",
            ErrorKind::ExtractionError => "the upload could not be processed",
            ErrorKind::StorageError => "the record could not be stored",
        }
    }
}

/// The message that belongs to each kind of failure.
pub open spec fn error_text(e: ErrorKind) -> Seq<char> {
    match e {
        ErrorKind::PathError => "no input file or directory found"@,
        ErrorKind::HashIOError => "a tracked file could not be read"@,
        ErrorKind::LineageError => "previous record not found in database"@,
        ErrorKind::DedupConflict => "file already exists, upload cancelled"@,
        ErrorKind::ProtocolError => "the server reported an error"@,
        ErrorKind::ExtractionError => "the upload could not be processed"@,
        ErrorKind::StorageError => "the record could not be stored"@,
    }
}

} // verus!
