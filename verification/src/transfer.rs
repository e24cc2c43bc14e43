//! The course of one upload attempt, as the coordinator tracks it: which
//! phase it is in, how many bytes the endpoint has accepted, and whether a
//! chunk is under way.

use vstd::prelude::*;
use crate::error::Error;
use crate::transport::{Reply, TransportFault, NO_CONTENT};

verus! {

/// Where an upload attempt stands. `Completed` and `Failed` are final.
#[derive(Debug, Clone, Copy, PartialEq, Eq, Structural)]
pub enum Phase {
    Idle,
    Streaming,
    Completed,
    Failed,
}

/// What comes of one write of `len` bytes at `offset`, for each answer: the
/// new offset where the endpoint took the chunk, else the failure.
pub open spec fn settled(offset: usize, len: usize, reply: Result<Reply, TransportFault>) -> Result<
    usize,
    Error,
> {
    match reply {
        Ok(r) => if r.status == NO_CONTENT {
            Ok((offset + len) as usize)
        } else {
            Err(Error::ProtocolRejection { offset, chunk_len: len, status: r.status, body: r.body })
        },
        Err(fault) => Err(Error::TransportFailure { offset, chunk_len: len, cause: fault.cause }),
    }
}

/// The state of one upload attempt.
pub struct Transfer {
    phase: Phase,
    offset: usize,
    pending: Option<usize>,
}

impl Transfer {
    #[verifier::type_invariant]
    spec fn inv(self) -> bool {
        self.pending matches Some(len) ==> self.phase == Phase::Streaming && len > 0 && self.offset
            + len <= usize::MAX
    }

    /// The phase of the attempt.
    pub closed spec fn spec_phase(&self) -> Phase {
        self.phase
    }

    /// The count of bytes that the endpoint has accepted: where the next
    /// chunk is written.
    pub closed spec fn spec_offset(&self) -> usize {
        self.offset
    }

    /// The length of the chunk under way, if one is.
    pub closed spec fn spec_pending(&self) -> Option<usize> {
        self.pending
    }

    /// An attempt that has not begun, at offset zero.
    pub fn new() -> (r: Self)
        ensures
            r.spec_phase() == Phase::Idle,
            r.spec_offset() == 0,
            r.spec_pending() is None,
    {
        Transfer { phase: Phase::Idle, offset: 0, pending: None }
    }

    /// The phase of the attempt.
    #[verifier::when_used_as_spec(spec_phase)]
    pub fn phase(&self) -> (r: Phase)
        ensures
            r == self.spec_phase(),
    {
        self.phase
    }

    /// The count of bytes that the endpoint has accepted.
    #[verifier::when_used_as_spec(spec_offset)]
    pub fn offset(&self) -> (r: usize)
        ensures
            r == self.spec_offset(),
    {
        self.offset
    }

    /// The length of the chunk under way, if one is. A chunk is under way
    /// only while streaming, and it is not empty.
    #[verifier::when_used_as_spec(spec_pending)]
    pub fn pending(&self) -> (r: Option<usize>)
        ensures
            r == self.spec_pending(),
            r matches Some(len) ==> self.spec_phase() == Phase::Streaming && len > 0
                && self.spec_offset() + len <= usize::MAX,
    {
        proof {
            use_type_invariant(self);
        }
        self.pending
    }

    /// Begins to stream. Only an attempt that has not begun can: the result
    /// says whether it did.
    pub fn begin(&mut self) -> (began: bool)
        ensures
            began == (old(self).spec_phase() == Phase::Idle),
            began ==> final(self).spec_phase() == Phase::Streaming,
            !began ==> final(self).spec_phase() == old(self).spec_phase(),
            final(self).spec_offset() == old(self).spec_offset(),
            final(self).spec_pending() == old(self).spec_pending(),
    {
        proof {
            use_type_invariant(&*self);
        }
        if self.phase == Phase::Idle {
            self.phase = Phase::Streaming;
            true
        } else {
            false
        }
    }

    /// Whether a chunk of `len` bytes may be sent now: the attempt is
    /// streaming, no chunk is under way, the chunk is not empty, and the
    /// offset after it fits in `usize`.
    pub open spec fn may_dispatch(&self, len: usize) -> bool {
        &&& self.spec_phase() == Phase::Streaming
        &&& self.spec_pending() is None
        &&& len > 0
        &&& self.spec_offset() + len <= usize::MAX
    }

    /// Puts a chunk of `len` bytes under way and returns the offset at which
    /// to write it. While a chunk is under way, before streaming has begun
    /// and after the attempt has ended, no chunk is dispatched and nothing
    /// changes.
    pub fn dispatch(&mut self, len: usize) -> (at: Option<usize>)
        ensures
            at is Some <==> old(self).may_dispatch(len),
            at matches Some(offset) ==> offset == old(self).spec_offset(),
            at is Some ==> final(self).spec_pending() == Some(len),
            at is None ==> final(self).spec_pending() == old(self).spec_pending(),
            final(self).spec_phase() == old(self).spec_phase(),
            final(self).spec_offset() == old(self).spec_offset(),
    {
        proof {
            use_type_invariant(&*self);
        }
        if self.phase == Phase::Streaming && self.pending.is_none() && len > 0 && len
            <= usize::MAX - self.offset {
            self.pending = Some(len);
            Some(self.offset)
        } else {
            None
        }
    }

    /// Takes the answer to the chunk under way. Where the endpoint took the
    /// chunk, the offset moves on by its length; on any other answer the
    /// attempt has failed and the offset stays. With no chunk under way
    /// there is nothing to settle, and nothing changes.
    pub fn settle(&mut self, reply: Result<Reply, TransportFault>) -> (r: Option<
        Result<usize, Error>,
    >)
        ensures
            r is Some <==> old(self).spec_pending() is Some,
            r is None ==> *final(self) == *old(self),
            old(self).spec_pending() matches Some(len) ==> {
                &&& r == Some(settled(old(self).spec_offset(), len, reply))
                &&& final(self).spec_pending() is None
                &&& final(self).spec_phase() == if r matches Some(Ok(_)) {
                    Phase::Streaming
                } else {
                    Phase::Failed
                }
                &&& final(self).spec_offset() == match r {
                    Some(Ok(offset)) => offset,
                    _ => old(self).spec_offset(),
                }
            },
    {
        proof {
            use_type_invariant(&*self);
        }
        let len: usize = match self.pending {
            Some(len) => len,
            None => {
                return None;
            },
        };
        let offset: usize = self.offset;
        self.pending = None;
        match reply {
            Ok(answer) => {
                if answer.status == NO_CONTENT {
                    self.offset = offset + len;
                    Some(Ok(self.offset))
                } else {
                    self.phase = Phase::Failed;
                    Some(
                        Err(
                            Error::ProtocolRejection {
                                offset,
                                chunk_len: len,
                                status: answer.status,
                                body: answer.body,
                            },
                        ),
                    )
                }
            },
            Err(fault) => {
                self.phase = Phase::Failed;
                Some(Err(Error::TransportFailure { offset, chunk_len: len, cause: fault.cause }))
            },
        }
    }

    /// Whether the attempt is streaming with no chunk under way.
    pub open spec fn is_between_chunks(&self) -> bool {
        self.spec_phase() == Phase::Streaming && self.spec_pending() is None
    }

    /// Ends the attempt because the source could not be read. Only an
    /// attempt that streams, with no chunk under way, ends so.
    pub fn fail_read(&mut self, cause: String) -> (r: Option<Error>)
        ensures
            r is Some <==> old(self).is_between_chunks(),
            r matches Some(e) ==> e == (Error::ReadFailure {
                offset: old(self).spec_offset(),
                cause,
            }) && final(self).spec_phase() == Phase::Failed,
            r is None ==> final(self).spec_phase() == old(self).spec_phase(),
            final(self).spec_offset() == old(self).spec_offset(),
            final(self).spec_pending() == old(self).spec_pending(),
    {
        proof {
            use_type_invariant(&*self);
        }
        if self.phase == Phase::Streaming && self.pending.is_none() {
            self.phase = Phase::Failed;
            Some(Error::ReadFailure { offset: self.offset, cause })
        } else {
            None
        }
    }

    /// Ends the attempt because the headers of the next chunk could not be
    /// built. Only an attempt that streams, with no chunk under way, ends so.
    pub fn fail_headers(&mut self) -> (r: Option<Error>)
        ensures
            r is Some <==> old(self).is_between_chunks(),
            r matches Some(e) ==> e == (Error::HeaderConstruction {
                offset: old(self).spec_offset(),
            }) && final(self).spec_phase() == Phase::Failed,
            r is None ==> final(self).spec_phase() == old(self).spec_phase(),
            final(self).spec_offset() == old(self).spec_offset(),
            final(self).spec_pending() == old(self).spec_pending(),
    {
        proof {
            use_type_invariant(&*self);
        }
        if self.phase == Phase::Streaming && self.pending.is_none() {
            self.phase = Phase::Failed;
            Some(Error::HeaderConstruction { offset: self.offset })
        } else {
            None
        }
    }

    /// Completes the attempt when the source has ended, and returns the
    /// count of bytes transferred. Only an attempt that streams, with no
    /// chunk under way, completes.
    pub fn finish(&mut self) -> (total: Option<usize>)
        ensures
            total is Some <==> old(self).is_between_chunks(),
            total matches Some(n) ==> n == old(self).spec_offset() && final(self).spec_phase()
                == Phase::Completed,
            total is None ==> final(self).spec_phase() == old(self).spec_phase(),
            final(self).spec_offset() == old(self).spec_offset(),
            final(self).spec_pending() == old(self).spec_pending(),
    {
        proof {
            use_type_invariant(&*self);
        }
        if self.phase == Phase::Streaming && self.pending.is_none() {
            self.phase = Phase::Completed;
            Some(self.offset)
        } else {
            None
        }
    }
}

} // verus!
