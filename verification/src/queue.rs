//! The bounded hand-off between the producer of chunks and the coordinator
//! that sends them.

use vstd::prelude::*;
use std::collections::VecDeque;

verus! {

/// A first-in, first-out queue of chunks, each with its length, that never
/// holds more than its capacity. A producer that finds it full has to wait.
pub struct TransferQueue {
    items: VecDeque<(Vec<u8>, usize)>,
    capacity: usize,
}

impl View for TransferQueue {
    type V = Seq<Seq<u8>>;

    /// The chunks in the queue, the oldest first.
    closed spec fn view(&self) -> Seq<Seq<u8>> {
        Seq::new(self.items@.len(), |i: int| self.items@[i].0@)
    }
}

impl TransferQueue {
    /// The queue holds no more than its capacity, and each length is that of
    /// its chunk.
    pub closed spec fn wf(&self) -> bool {
        &&& self.items@.len() <= self.capacity
        &&& forall|i: int|
            0 <= i < self.items@.len() ==> (#[trigger] self.items@[i]).1 == self.items@[i].0@.len()
    }

    /// The most chunks that the queue holds.
    pub closed spec fn spec_capacity(&self) -> usize {
        self.capacity
    }

    /// A well-formed queue is within its capacity.
    pub proof fn within_capacity(&self)
        requires
            self.wf(),
        ensures
            self@.len() <= self.spec_capacity(),
    {
    }

    /// An empty queue for up to `capacity` chunks.
    pub fn new(capacity: usize) -> (r: Self)
        ensures
            r.wf(),
            r@ == Seq::<Seq<u8>>::empty(),
            r.spec_capacity() == capacity,
    {
        let r = TransferQueue { items: VecDeque::new(), capacity };
        assert(r@ =~= Seq::<Seq<u8>>::empty());
        r
    }

    /// The most chunks that the queue holds.
    #[verifier::when_used_as_spec(spec_capacity)]
    pub fn capacity(&self) -> (r: usize)
        ensures
            r == self.spec_capacity(),
    {
        self.capacity
    }

    /// The number of chunks in the queue.
    pub fn len(&self) -> (r: usize)
        ensures
            r == self@.len(),
    {
        self.items.len()
    }

    /// Whether the queue holds nothing.
    pub fn is_empty(&self) -> (r: bool)
        ensures
            r == (self@.len() == 0),
    {
        self.items.len() == 0
    }

    /// Whether the queue has no room for another chunk.
    pub fn is_full(&self) -> (r: bool)
        ensures
            r == (self@.len() >= self.spec_capacity()),
    {
        self.items.len() >= self.capacity
    }

    /// Puts `chunk` at the back, or hands it back when the queue is full.
    pub fn push(&mut self, chunk: Vec<u8>) -> (r: Result<(), Vec<u8>>)
        requires
            old(self).wf(),
        ensures
            final(self).wf(),
            final(self).spec_capacity() == old(self).spec_capacity(),
            final(self)@.len() <= final(self).spec_capacity(),
            r is Ok <==> old(self)@.len() < old(self).spec_capacity(),
            r is Ok ==> final(self)@ == old(self)@.push(chunk@),
            r matches Err(back) ==> back == chunk && final(self)@ == old(self)@,
    {
        if self.items.len() >= self.capacity {
            return Err(chunk);
        }
        let length: usize = chunk.len();
        self.items.push_back((chunk, length));
        assert(self@ =~= old(self)@.push(chunk@));
        Ok(())
    }

    /// Takes the oldest chunk out, with its length.
    pub fn pop(&mut self) -> (r: Option<(Vec<u8>, usize)>)
        requires
            old(self).wf(),
        ensures
            final(self).wf(),
            final(self).spec_capacity() == old(self).spec_capacity(),
            final(self)@.len() <= final(self).spec_capacity(),
            r is Some <==> old(self)@.len() > 0,
            r matches Some((chunk, length)) ==> {
                &&& chunk@ == old(self)@[0]
                &&& length == chunk@.len()
                &&& final(self)@ == old(self)@.skip(1)
            },
            r is None ==> final(self)@ == old(self)@,
    {
        let item = self.items.pop_front();
        match item {
            Some((chunk, length)) => {
                assert(self@ =~= old(self)@.skip(1));
                assert(old(self).items@[0] == (chunk, length));
                Some((chunk, length))
            },
            None => {
                assert(self@ =~= old(self)@);
                None
            },
        }
    }
}

} // verus!
