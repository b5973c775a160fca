//! The error taxonomy of the archiver: every failure of building or
//! extracting an archive is one of these kinds, carrying a human-readable
//! context string.  Formatting to a single message happens only at the
//! outermost boundary, through [`ArchiveError::message`].

use vstd::prelude::*;

verus! {

/// Why an archive operation failed.
#[derive(Debug)]
pub enum ArchiveError {
    /// The source directory or the archive file does not exist.
    NotFound(String),
    /// A read, write, create or copy step failed.
    Io(String),
    /// A filesystem path could not be represented as a portable string.
    PathEncoding(String),
    /// The archive container is malformed or unreadable.
    ArchiveFormat(String),
    /// A record's resolved destination would escape the destination root.
    PathTraversalRejected(String),
}

impl ArchiveError {
    /// The context string carried by the error, whatever its kind.
    pub fn context(&self) -> (r: &String)
        ensures
            r@ == self.spec_context(),
    {
        match self {
            ArchiveError::NotFound(m) => m,
            ArchiveError::Io(m) => m,
            ArchiveError::PathEncoding(m) => m,
            ArchiveError::ArchiveFormat(m) => m,
            ArchiveError::PathTraversalRejected(m) => m,
        }
    }

    /// The context string, at the specification level.
    pub open spec fn spec_context(&self) -> Seq<char> {
        match self {
            ArchiveError::NotFound(m) => m@,
            ArchiveError::Io(m) => m@,
            ArchiveError::PathEncoding(m) => m@,
            ArchiveError::ArchiveFormat(m) => m@,
            ArchiveError::PathTraversalRejected(m) => m@,
        }
    }

    /// One human-readable message naming the kind and the context.
    pub fn message(&self) -> (r: String)
        ensures
            r@ == self.spec_message(),
    {
        match self {
            ArchiveError::NotFound(m) => String::from_str("not found: ").concat(m.as_str()),
            ArchiveError::Io(m) => String::from_str("i/o error: ").concat(m.as_str()),
            ArchiveError::PathEncoding(m) => String::from_str("path encoding error: ").concat(
                m.as_str(),
            ),
            ArchiveError::ArchiveFormat(m) => String::from_str("archive format error: ").concat(
                m.as_str(),
            ),
            ArchiveError::PathTraversalRejected(m) => String::from_str(
                "path traversal rejected: ",
            ).concat(m.as_str()),
        }
    }

    /// The message, at the specification level: a kind prefix, then the context.
    pub open spec fn spec_message(&self) -> Seq<char> {
        match self {
            ArchiveError::NotFound(m) => "not found: "@ + m@,
            ArchiveError::Io(m) => "i/o error: "@ + m@,
            ArchiveError::PathEncoding(m) => "path encoding error: "@ + m@,
            ArchiveError::ArchiveFormat(m) => "archive format error: "@ + m@,
            ArchiveError::PathTraversalRejected(m) => "path traversal rejected: "@ + m@,
        }
    }
}

} // verus!
