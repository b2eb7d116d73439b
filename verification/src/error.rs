use vstd::prelude::*;

verus! {

/// Error taxonomy of the control plane.
///
/// Errors raised inside a running update job become the job's terminal
/// `Failed` state; errors raised outside a job are returned synchronously
/// to the caller.
#[derive(Debug)]
pub enum Error {
    /// The index name or update id is unknown.
    NotFound,
    /// The index name is already bound.
    AlreadyExists,
    /// The payload could not be decoded in its declared format.
    MalformedPayload { reason: String },
    /// No primary key was declared and none could be inferred.
    MissingPrimaryKey,
    /// The declared primary key differs from the key the index already has.
    PrimaryKeyMismatch,
    /// The target index id was deleted or is being torn down.
    IndexUnavailable,
    /// A failure reported by the search engine.
    EngineError { cause: String },
    /// A storage or filesystem failure.
    IoError { cause: String },
    /// An internal invariant was violated.
    Internal { cause: String },
}

impl Error {
    /// Deep copy; the derived clone of a type with `String` fields carries
    /// no contract, so copies that proofs depend on are made here.
    pub fn duplicate(&self) -> (r: Error)
        ensures
            r == *self,
    {
        match self {
            Error::NotFound => Error::NotFound,
            Error::AlreadyExists => Error::AlreadyExists,
            Error::MalformedPayload { reason } => Error::MalformedPayload { reason: reason.clone() },
            Error::MissingPrimaryKey => Error::MissingPrimaryKey,
            Error::PrimaryKeyMismatch => Error::PrimaryKeyMismatch,
            Error::IndexUnavailable => Error::IndexUnavailable,
            Error::EngineError { cause } => Error::EngineError { cause: cause.clone() },
            Error::IoError { cause } => Error::IoError { cause: cause.clone() },
            Error::Internal { cause } => Error::Internal { cause: cause.clone() },
        }
    }
}

} // verus!
