//! The readable byte source that an upload consumes, front to back.

use vstd::prelude::*;

verus! {

/// Why a source could not produce bytes.
#[derive(Debug, Clone, PartialEq, Eq)]
pub struct ReadFault {
    pub cause: String,
}

/// A sequential byte source, consumed once.
pub trait Source {
    /// The bytes that the source has yet to hand out, in order.
    spec fn remaining(&self) -> Seq<u8>;

    /// Whether no read fails.
    spec fn unfailing(&self) -> bool;

    /// Whether no read fails and every read is as large as the buffer and
    /// the bytes left allow.
    spec fn steady(&self) -> bool;

    /// Reads up to `buf.len()` bytes into the front of `buf` and returns how
    /// many were read. With room in the buffer, zero means that the source
    /// has ended.
    fn read(&mut self, buf: &mut Vec<u8>) -> (r: Result<usize, ReadFault>)
        ensures
            final(buf)@.len() == old(buf)@.len(),
            old(self).unfailing() || old(self).steady() ==> r is Ok,
            r matches Ok(n) ==> {
                &&& n <= old(buf)@.len()
                &&& n <= old(self).remaining().len()
                &&& final(buf)@.take(n as int) == old(self).remaining().take(n as int)
                &&& final(self).remaining() == old(self).remaining().skip(n as int)
                &&& n == 0 ==> old(buf)@.len() == 0 || old(self).remaining().len() == 0
                &&& final(self).unfailing() == old(self).unfailing()
                &&& final(self).steady() == old(self).steady()
                &&& old(self).steady() ==> n == old(buf)@.len() || n == old(self).remaining().len()
            },
    ;
}

/// A source over bytes held in memory. As made by `new`, every read is as
/// large as the buffer and the bytes left allow, and none fails. It can be
/// made to read no more than so many bytes at a time, and to fail once it
/// has come to a given position.
pub struct MemorySource {
    data: Vec<u8>,
    pos: usize,
    most: Option<usize>,
    breaks_at: Option<usize>,
}

impl MemorySource {
    #[verifier::type_invariant]
    spec fn inv(self) -> bool {
        &&& self.pos <= self.data@.len()
        &&& self.most matches Some(m) ==> m > 0
    }

    /// The most bytes that one read yields, where there is such a limit.
    pub closed spec fn read_limit(&self) -> Option<usize> {
        self.most
    }

    /// The position at which reads begin to fail, where there is one.
    pub closed spec fn break_point(&self) -> Option<usize> {
        self.breaks_at
    }

    /// A source that will yield `data`, from its first byte.
    pub fn new(data: Vec<u8>) -> (r: Self)
        ensures
            r.remaining() == data@,
            r.unfailing(),
            r.steady(),
            r.read_limit() is None,
            r.break_point() is None,
    {
        let r = MemorySource { data, pos: 0, most: None, breaks_at: None };
        assert(r.data@.skip(0) =~= r.data@);
        r
    }

    /// The same source, but that no read yields more than `most` bytes. A
    /// limit of zero cannot be: a read of no bytes means the end.
    pub fn limited(self, most: usize) -> (r: Option<Self>)
        ensures
            r is Some <==> most > 0,
            r matches Some(s) ==> s.remaining() == self.remaining() && s.read_limit() == Some(most)
                && s.break_point() == self.break_point() && !s.steady() && s.unfailing()
                == self.unfailing(),
    {
        proof {
            use_type_invariant(&self);
        }
        if most == 0 {
            return None;
        }
        Some(MemorySource { data: self.data, pos: self.pos, most: Some(most), breaks_at: self.breaks_at })
    }

    /// The same source, but that every read fails once `at` bytes have been
    /// read.
    pub fn broken(self, at: usize) -> (r: Self)
        ensures
            r.remaining() == self.remaining(),
            r.read_limit() == self.read_limit(),
            r.break_point() == Some(at),
            !r.unfailing(),
            !r.steady(),
    {
        proof {
            use_type_invariant(&self);
        }
        MemorySource { data: self.data, pos: self.pos, most: self.most, breaks_at: Some(at) }
    }

    /// The number of bytes not read yet.
    pub fn left(&self) -> (r: usize)
        ensures
            r == self.remaining().len(),
    {
        proof {
            use_type_invariant(self);
        }
        self.data.len() - self.pos
    }
}

impl Source for MemorySource {
    closed spec fn remaining(&self) -> Seq<u8> {
        self.data@.skip(self.pos as int)
    }

    closed spec fn unfailing(&self) -> bool {
        self.breaks_at is None
    }

    closed spec fn steady(&self) -> bool {
        self.most is None && self.breaks_at is None
    }

    fn read(&mut self, buf: &mut Vec<u8>) -> (r: Result<usize, ReadFault>)
        ensures
            final(self).read_limit() == old(self).read_limit(),
            final(self).break_point() == old(self).break_point(),
            r matches Ok(n) ==> (old(self).read_limit() matches Some(m) ==> n <= m),
    {
        proof {
            use_type_invariant(&*self);
        }
        let left: usize = self.data.len() - self.pos;
        let mut n: usize = if buf.len() <= left { buf.len() } else { left };
        match self.most {
            Some(m) => {
                if n > m {
                    n = m;
                }
            },
            None => {},
        }
        match self.breaks_at {
            Some(at) => {
                if self.pos >= at {
                    return Err(ReadFault { cause: "the source broke".to_owned() });
                }
                if n > at - self.pos {
                    n = at - self.pos;
                }
            },
            None => {},
        }
        let start: usize = self.pos;
        let mut i: usize = 0;
        while i < n
            invariant
                i <= n,
                start + n <= self.data@.len() <= usize::MAX,
                n <= buf@.len(),
                buf@.len() == old(buf)@.len(),
                self.data@ == old(self).data@,
                self.pos == start,
                self.most == old(self).most,
                self.breaks_at == old(self).breaks_at,
                forall|j: int| 0 <= j < i ==> buf@[j] == self.data@[start + j],
            decreases n - i,
        {
            let b: u8 = self.data[start + i];
            buf[i] = b;
            i = i + 1;
        }
        self.pos = start + n;
        assert(buf@.take(n as int) =~= old(self).data@.skip(start as int).take(n as int));
        assert(self.data@.skip(self.pos as int) =~= old(self).data@.skip(start as int).skip(
            n as int,
        ));
        Ok(n)
    }
}

} // verus!
