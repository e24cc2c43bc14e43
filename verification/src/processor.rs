//! The producer: it reads the source in bounded chunks and puts them on the
//! transfer queue, never reading when the queue has no room.

use vstd::prelude::*;
use crate::chunking::{added, bounded, concat, concat_push, full_but_last};
use crate::queue::TransferQueue;
use crate::source::{ReadFault, Source};

verus! {

/// The number of bytes of `buf` that a read of `bytes_read` bytes filled.
pub open spec fn filled(buf: Seq<u8>, bytes_read: usize) -> int {
    if bytes_read <= buf.len() {
        bytes_read as int
    } else {
        buf.len() as int
    }
}

/// Makes the chunk of one read: the buffer cut down to the bytes read. A read
/// of no bytes makes no chunk, for it ends production.
pub fn cut_chunk(buf: Vec<u8>, bytes_read: usize) -> (r: Option<Vec<u8>>)
    ensures
        r is Some <==> filled(buf@, bytes_read) > 0,
        r matches Some(chunk) ==> chunk@ == buf@.take(filled(buf@, bytes_read)),
{
    let mut chunk = buf;
    if bytes_read == 0 || chunk.len() == 0 {
        return None;
    }
    chunk.truncate(bytes_read);
    assert(chunk@ =~= buf@.take(filled(buf@, bytes_read)));
    Some(chunk)
}

/// How one run of the producer ended.
#[derive(Debug, Clone, Copy, PartialEq, Eq)]
pub enum Production {
    /// The source has ended: no chunk will follow.
    Finished,
    /// The queue is full: the producer waits for the coordinator.
    Suspended,
}

/// The producer of chunks over one source.
pub struct Processor<S: Source> {
    reader: S,
    chunk_size: usize,
    finished: bool,
}

impl<S: Source> Processor<S> {
    /// The source, as far as it has been read.
    pub closed spec fn source(&self) -> S {
        self.reader
    }

    /// The most bytes that a chunk holds.
    pub closed spec fn chunk_size(&self) -> usize {
        self.chunk_size
    }

    /// Whether the source has ended.
    pub closed spec fn is_finished(&self) -> bool {
        self.finished
    }

    /// A producer that cuts `reader` into chunks of up to `chunk_size`
    /// bytes.
    pub fn new(reader: S, chunk_size: usize) -> (r: Self)
        ensures
            r.source() == reader,
            r.chunk_size() == chunk_size,
            !r.is_finished(),
    {
        Processor { reader, chunk_size, finished: false }
    }

    /// Whether the source has ended.
    pub fn finished(&self) -> (r: bool)
        ensures
            r == self.is_finished(),
    {
        self.finished
    }

    /// Reads chunks and puts them on `queue` until the source ends, the
    /// queue is full or a read fails. It reads only when the queue has room,
    /// so whatever it has read is on the queue when it returns: it holds no
    /// chunk back. The chunks go on the queue in the order read, each cut to
    /// the bytes of its read.
    pub fn process(&mut self, queue: &mut TransferQueue) -> (r: Result<Production, ReadFault>)
        requires
            old(queue).wf(),
        ensures
            final(queue).wf(),
            final(queue).spec_capacity() == old(queue).spec_capacity(),
            final(queue)@.len() <= final(queue).spec_capacity(),
            final(self).chunk_size() == old(self).chunk_size(),
            old(queue)@.is_prefix_of(final(queue)@),
            bounded(added(old(queue)@, final(queue)@), old(self).chunk_size() as nat),
            concat(added(old(queue)@, final(queue)@)).is_prefix_of(old(self).source().remaining()),
            r is Ok ==> concat(added(old(queue)@, final(queue)@)) + final(self).source().remaining()
                == old(self).source().remaining(),
            r is Ok ==> final(self).source().steady() == old(self).source().steady(),
            r is Ok ==> final(self).source().unfailing() == old(self).source().unfailing(),
            old(self).source().unfailing() || old(self).source().steady() ==> r is Ok,
            r is Ok && old(self).source().steady() ==> full_but_last(
                added(old(queue)@, final(queue)@),
                old(self).chunk_size() as nat,
                final(self).source().remaining().len() == 0,
            ),
            old(self).is_finished() ==> r == Ok::<Production, ReadFault>(Production::Finished)
                && final(queue)@ == old(queue)@ && final(self).source() == old(self).source(),
            r == Ok::<Production, ReadFault>(Production::Finished) <==> final(self).is_finished(),
            r == Ok::<Production, ReadFault>(Production::Finished) && old(self).chunk_size() > 0
                && !old(self).is_finished() ==> final(self).source().remaining().len() == 0,
            r == Ok::<Production, ReadFault>(Production::Suspended) ==> final(queue)@.len()
                >= final(queue).spec_capacity(),
    {
        let ghost start = old(queue)@.len() as int;
        let ghost data = old(self).source().remaining();
        proof {
            queue.within_capacity();
        }
        if self.finished {
            proof {
                assert(queue@.skip(start) =~= Seq::<Seq<u8>>::empty());
                assert(queue@.take(start) =~= queue@);
                assert(concat(Seq::<Seq<u8>>::empty()) =~= Seq::<u8>::empty());
            }
            return Ok(Production::Finished);
        }
        proof {
            assert(queue@.skip(start) =~= Seq::<Seq<u8>>::empty());
            assert(queue@.take(start) =~= queue@);
            assert(concat(Seq::<Seq<u8>>::empty()) + data =~= data);
        }
        while !queue.is_full()
            invariant
                queue.wf(),
                queue.spec_capacity() == old(queue).spec_capacity(),
                queue@.len() <= queue.spec_capacity(),
                self.chunk_size == old(self).chunk_size,
                !self.finished,
                !old(self).is_finished(),
                start == old(queue)@.len(),
                data == old(self).source().remaining(),
                start <= queue@.len(),
                queue@.take(start) == old(queue)@,
                bounded(queue@.skip(start), self.chunk_size as nat),
                concat(queue@.skip(start)) + self.reader.remaining() == data,
                self.reader.steady() == old(self).source().steady(),
                self.reader.unfailing() == old(self).source().unfailing(),
                self.reader.steady() ==> full_but_last(
                    queue@.skip(start),
                    self.chunk_size as nat,
                    self.reader.remaining().len() == 0,
                ),
            decreases queue.spec_capacity() - queue@.len(),
        {
            let ghost before = queue@;
            let ghost left = self.reader.remaining();
            let mut buf: Vec<u8> = vec![0u8; self.chunk_size];
            let bytes_read: usize = match self.reader.read(&mut buf) {
                Ok(n) => n,
                Err(fault) => {
                    return Err(fault);
                },
            };
            match cut_chunk(buf, bytes_read) {
                None => {
                    self.finished = true;
                    proof {
                        assert(self.reader.remaining() =~= left);
                    }
                    return Ok(Production::Finished);
                },
                Some(chunk) => {
                    let pushed = queue.push(chunk);
                    proof {
                        assert(pushed is Ok);
                        let added = before.skip(start);
                        assert(queue@.skip(start) =~= added.push(chunk@));
                        assert(queue@.take(start) =~= before.take(start));
                        concat_push(added, chunk@);
                        assert(chunk@ == left.take(bytes_read as int));
                        assert(left.take(bytes_read as int) + left.skip(bytes_read as int)
                            =~= left);
                        assert(concat(added.push(chunk@)) + self.reader.remaining() =~= concat(
                            added,
                        ) + left);
                        if self.reader.steady() {
                            assert(bytes_read == self.chunk_size || self.reader.remaining().len()
                                == 0);
                        }
                    }
                },
            }
        }
        Ok(Production::Suspended)
    }
}

} // verus!
