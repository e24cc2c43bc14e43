//! The collaborator that writes one chunk to the endpoint, and an endpoint
//! held in memory.

use vstd::prelude::*;
use reqwest::header::HeaderMap;
use url::Url;
use crate::headers::header_fields;

verus! {

/// The location of the remote resource, opaque here.
#[verifier::external_type_specification]
#[verifier::external_body]
pub struct ExUrl(url::Url);

/// The status with which the endpoint accepts a chunk: success, no content.
pub const NO_CONTENT: u16 = 204;

/// The status with which `MemoryEndpoint` refuses a chunk that does not fit.
pub const PAYLOAD_TOO_LARGE: u16 = 413;

/// What the endpoint answered to one write.
#[derive(Debug, Clone, PartialEq, Eq)]
pub struct Reply {
    pub status: u16,
    /// The response body, for diagnostics.
    pub body: String,
}

/// Why a write did not reach the endpoint or its answer did not come back.
#[derive(Debug, Clone, PartialEq, Eq)]
pub struct TransportFault {
    pub cause: String,
}

/// One write as the collaborator saw it, with its outcome.
pub struct Exchange {
    pub destination: Url,
    pub chunk: Seq<u8>,
    pub fields: Map<Seq<char>, Seq<Seq<u8>>>,
    pub reply: Result<Reply, TransportFault>,
}

/// Whether an outcome means that the endpoint took the chunk.
pub open spec fn accepted(reply: Result<Reply, TransportFault>) -> bool {
    reply matches Ok(r) && r.status == NO_CONTENT
}

/// The collaborator that performs one partial write and reports the status.
/// Each call returns before the next can be made.
pub trait Transport {
    /// Every write made through this collaborator so far, in order.
    spec fn exchanges(&self) -> Seq<Exchange>;

    /// Writes `chunk` to `url` with `headers`.
    fn send(&mut self, url: &Url, chunk: Vec<u8>, headers: HeaderMap) -> (reply: Result<
        Reply,
        TransportFault,
    >)
        ensures
            final(self).exchanges() == old(self).exchanges().push(
                (Exchange {
                    destination: *url,
                    chunk: chunk@,
                    fields: header_fields(headers),
                    reply,
                }),
            ),
    ;
}

/// An endpoint held in memory: it takes chunks, in the order in which they
/// come, until the next would carry it past its limit, and refuses that one
/// and all after it.
pub struct MemoryEndpoint {
    stored: Vec<u8>,
    limit: usize,
    received: Vec<HeaderMap>,
    sizes: Vec<usize>,
    log: Ghost<Seq<Exchange>>,
}

impl MemoryEndpoint {
    /// The bytes taken so far.
    pub closed spec fn content(&self) -> Seq<u8> {
        self.stored@
    }

    /// The headers of every write made, accepted or not, in order.
    pub closed spec fn headers_received(&self) -> Seq<HeaderMap> {
        self.received@
    }

    /// The length of the chunk of every write made, accepted or not, in
    /// order.
    pub closed spec fn sizes_received(&self) -> Seq<usize> {
        self.sizes@
    }

    /// The most bytes that the endpoint takes.
    pub closed spec fn capacity(&self) -> nat {
        self.limit as nat
    }

    /// An empty endpoint that takes up to `limit` bytes.
    pub fn new(limit: usize) -> (r: Self)
        ensures
            r.content() == Seq::<u8>::empty(),
            r.capacity() == limit,
            r.exchanges() == Seq::<Exchange>::empty(),
            r.headers_received() == Seq::<HeaderMap>::empty(),
            r.sizes_received() == Seq::<usize>::empty(),
    {
        MemoryEndpoint {
            stored: Vec::new(),
            limit,
            received: Vec::new(),
            sizes: Vec::new(),
            log: Ghost(Seq::empty()),
        }
    }

    /// The bytes taken so far.
    pub fn stored(&self) -> (r: &Vec<u8>)
        ensures
            r@ == self.content(),
    {
        &self.stored
    }

    /// The headers of every write made, accepted or not, in order.
    pub fn received(&self) -> (r: &Vec<HeaderMap>)
        ensures
            r@ == self.headers_received(),
    {
        &self.received
    }

    /// The length of the chunk of every write made, accepted or not, in
    /// order.
    pub fn sizes(&self) -> (r: &Vec<usize>)
        ensures
            r@ == self.sizes_received(),
    {
        &self.sizes
    }

    /// Whether a write of `len` bytes would be taken.
    pub open spec fn fits(&self, len: nat) -> bool {
        self.content().len() + len <= self.capacity()
    }
}

impl Transport for MemoryEndpoint {
    closed spec fn exchanges(&self) -> Seq<Exchange> {
        self.log@
    }

    fn send(&mut self, url: &Url, chunk: Vec<u8>, headers: HeaderMap) -> (reply: Result<
        Reply,
        TransportFault,
    >)
        ensures
            final(self).capacity() == old(self).capacity(),
            final(self).headers_received() == old(self).headers_received().push(headers),
            final(self).sizes_received() == old(self).sizes_received().push(chunk@.len() as usize),
            reply matches Ok(r) && r.status == (if old(self).fits(chunk@.len()) {
                NO_CONTENT
            } else {
                PAYLOAD_TOO_LARGE
            }),
            final(self).content() == if old(self).fits(chunk@.len()) {
                old(self).content() + chunk@
            } else {
                old(self).content()
            },
    {
        let fits = self.stored.len() <= self.limit && chunk.len() <= self.limit - self.stored.len();
        let reply = if fits {
            self.stored.extend_from_slice(chunk.as_slice());
            Reply { status: NO_CONTENT, body: String::new() }
        } else {
            Reply { status: PAYLOAD_TOO_LARGE, body: "the chunk does not fit".to_owned() }
        };
        let ghost exchange = Exchange {
            destination: *url,
            chunk: chunk@,
            fields: header_fields(headers),
            reply: Ok(reply),
        };
        self.received.push(headers);
        self.sizes.push(chunk.len());
        proof {
            self.log@ = self.log@.push(exchange);
        }
        Ok(reply)
    }
}

} // verus!
