//! The kinds of failure the engine reports and how each is surfaced.

use vstd::prelude::*;

verus! {

/// A kind of failure.
#[derive(Clone, Copy, Debug, PartialEq, Eq, Structural)]
pub enum ErrorKind {
    /// The schema of the index on disk differs from the declared one.
    SchemaMismatch,
    /// A payload fails validation.
    InvalidQuery,
    /// A declared search field has no entry in the schema.
    UnknownField,
    /// An operation was offered to a writer that has shut down.
    WriterShutdown,
    /// The durable store failed.
    BackendError,
    /// The caller lacks the permission.
    PermissionDenied,
    /// The index or the document is unknown.
    NotFound,
    /// Anything unexpected.
    Internal,
}

impl ErrorKind {
    /// The HTTP status code under which the failure is surfaced.
    pub fn status(&self) -> (code: u16)
        ensures
            code == match *self {
                ErrorKind::InvalidQuery => 400u16,
                ErrorKind::PermissionDenied => 401u16,
                ErrorKind::NotFound => 404u16,
                ErrorKind::WriterShutdown => 503u16,
                _ => 500u16,
            },
    {
        match self {
            ErrorKind::InvalidQuery => 400,
            ErrorKind::PermissionDenied => 401,
            ErrorKind::NotFound => 404,
            ErrorKind::WriterShutdown => 503,
            _ => 500,
        }
    }

    /// Whether the failure stops an index from coming up.
    pub fn is_fatal_at_open(&self) -> (fatal: bool)
        ensures
            fatal == (*self == ErrorKind::SchemaMismatch || *self == ErrorKind::UnknownField),
    {
        match self {
            ErrorKind::SchemaMismatch => true,
            ErrorKind::UnknownField => true,
            _ => false,
        }
    }

    /// Whether the poller tries again after the failure.
    pub fn is_retried_by_poller(&self) -> (retried: bool)
        ensures
            retried == (*self == ErrorKind::BackendError),
    {
        match self {
            ErrorKind::BackendError => true,
            _ => false,
        }
    }
}

} // verus!
