//! Why an upload attempt ended without delivering the whole stream.

use vstd::prelude::*;

verus! {

/// The ways one upload attempt can fail. Each is final for the attempt: nothing
/// is retried, and `offset` is the count of bytes that the endpoint had
/// accepted when the failure came.
#[derive(Debug, Clone, PartialEq, Eq)]
pub enum Error {
    /// The source could not produce bytes.
    ReadFailure { offset: usize, cause: String },
    /// A chunk could not be sent at all.
    TransportFailure { offset: usize, chunk_len: usize, cause: String },
    /// The endpoint answered a chunk write with a status other than "no
    /// content".
    ProtocolRejection { offset: usize, chunk_len: usize, status: u16, body: String },
    /// The headers for a request could not be built.
    HeaderConstruction { offset: usize },
}

impl Error {
    /// The count of bytes that the endpoint had accepted when the failure
    /// came.
    pub open spec fn spec_offset(&self) -> usize {
        match *self {
            Error::ReadFailure { offset, .. } => offset,
            Error::TransportFailure { offset, .. } => offset,
            Error::ProtocolRejection { offset, .. } => offset,
            Error::HeaderConstruction { offset } => offset,
        }
    }

    /// The count of bytes that the endpoint had accepted when the failure
    /// came: where a later attempt would begin.
    #[verifier::when_used_as_spec(spec_offset)]
    pub fn offset(&self) -> (r: usize)
        ensures
            r == self.spec_offset(),
    {
        match self {
            Error::ReadFailure { offset, .. } => *offset,
            Error::TransportFailure { offset, .. } => *offset,
            Error::ProtocolRejection { offset, .. } => *offset,
            Error::HeaderConstruction { offset } => *offset,
        }
    }

    /// The length of the chunk whose write failed, where a write was under
    /// way.
    pub open spec fn spec_chunk_len(&self) -> Option<usize> {
        match *self {
            Error::TransportFailure { chunk_len, .. } => Some(chunk_len),
            Error::ProtocolRejection { chunk_len, .. } => Some(chunk_len),
            _ => None,
        }
    }

    /// The length of the chunk whose write failed, where a write was under
    /// way.
    #[verifier::when_used_as_spec(spec_chunk_len)]
    pub fn chunk_len(&self) -> (r: Option<usize>)
        ensures
            r == self.spec_chunk_len(),
    {
        match self {
            Error::TransportFailure { chunk_len, .. } => Some(*chunk_len),
            Error::ProtocolRejection { chunk_len, .. } => Some(*chunk_len),
            _ => None,
        }
    }
}

} // verus!
