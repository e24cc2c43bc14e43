//! The sizes that shape an upload.

use vstd::prelude::*;

verus! {

/// The default chunk size: 4 MiB.
pub const CHUNK_SIZE: usize = 4194304;

/// The default capacity of the transfer queue, in chunks.
pub const QUEUE_CAPACITY: usize = 4;

/// The sizes that shape an upload: how large a chunk may be, and how many
/// chunks may wait between the producer and the coordinator. Neither is
/// zero.
#[derive(Debug, Clone, Copy, PartialEq, Eq)]
pub struct Config {
    chunk_size: usize,
    queue_capacity: usize,
}

impl Config {
    #[verifier::type_invariant]
    spec fn inv(self) -> bool {
        self.chunk_size > 0 && self.queue_capacity > 0
    }

    /// The most bytes that a chunk holds.
    pub closed spec fn spec_chunk_size(&self) -> usize {
        self.chunk_size
    }

    /// The most chunks that wait in the transfer queue.
    pub closed spec fn spec_queue_capacity(&self) -> usize {
        self.queue_capacity
    }

    /// A configuration with the sizes given, where neither is zero.
    pub fn new(chunk_size: usize, queue_capacity: usize) -> (r: Option<Self>)
        ensures
            r is Some <==> chunk_size > 0 && queue_capacity > 0,
            r matches Some(c) ==> c.spec_chunk_size() == chunk_size && c.spec_queue_capacity()
                == queue_capacity,
    {
        if chunk_size > 0 && queue_capacity > 0 {
            Some(Config { chunk_size, queue_capacity })
        } else {
            None
        }
    }

    /// The default sizes: chunks of 4 MiB, and a queue of four.
    pub fn standard() -> (r: Self)
        ensures
            r.spec_chunk_size() == CHUNK_SIZE,
            r.spec_queue_capacity() == QUEUE_CAPACITY,
    {
        Config { chunk_size: CHUNK_SIZE, queue_capacity: QUEUE_CAPACITY }
    }

    /// The most bytes that a chunk holds; never zero.
    #[verifier::when_used_as_spec(spec_chunk_size)]
    pub fn chunk_size(&self) -> (r: usize)
        ensures
            r == self.spec_chunk_size(),
            r > 0,
    {
        proof {
            use_type_invariant(self);
        }
        self.chunk_size
    }

    /// The most chunks that wait in the transfer queue; never zero.
    #[verifier::when_used_as_spec(spec_queue_capacity)]
    pub fn queue_capacity(&self) -> (r: usize)
        ensures
            r == self.spec_queue_capacity(),
            r > 0,
    {
        proof {
            use_type_invariant(self);
        }
        self.queue_capacity
    }
}

} // verus!
