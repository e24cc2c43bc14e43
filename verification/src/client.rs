//! The coordinator: it sends the chunks of a source to the endpoint in
//! order, one at a time, each addressed at the running offset, and stops at
//! the first failure.

use vstd::prelude::*;
use reqwest::header::HeaderMap;
use url::Url;
use crate::chunking::{added, bounded, chunks_of, concat, concat_push, full_but_last};
use crate::chunking::{bounded_append, concat_append, first_off, full_append};
use crate::chunking::{bounded_is_long, chunk_count, chunking_is_complete};
use crate::chunking::full_chunks_are_chunks_of;
use crate::error::Error;
use crate::headers::{chunk_fields, chunk_headers, decimal, header_fields, MAX_FIELDS};
use crate::config::{Config, CHUNK_SIZE, QUEUE_CAPACITY};
use crate::processor::{cut_chunk, Processor, Production};
use crate::queue::TransferQueue;
use crate::source::{ReadFault, Source};
use crate::transfer::{settled, Phase, Transfer};
use crate::transport::{accepted, Exchange, Transport};

verus! {

/// The chunks of the writes in `log`, in order.
pub open spec fn chunks_sent(log: Seq<Exchange>) -> Seq<Seq<u8>> {
    Seq::new(log.len(), |i: int| log[i].chunk)
}

/// The count of bytes in the first `n` writes of `log`.
pub open spec fn bytes_before(log: Seq<Exchange>, n: int) -> nat {
    concat(chunks_sent(log).take(n)).len()
}

/// That every write in `log` went to `destination`, with the headers of the
/// template but for the total length, and with the offset: the count of
/// bytes in the writes before it.
pub open spec fn addressed(
    log: Seq<Exchange>,
    destination: Url,
    template: Map<Seq<char>, Seq<Seq<u8>>>,
) -> bool {
    forall|i: int|
        0 <= i < log.len() ==> {
            &&& (#[trigger] log[i]).destination == destination
            &&& log[i].fields == chunk_fields(template, bytes_before(log, i))
        }
}

/// That the endpoint took the first `n` writes of `log`.
pub open spec fn accepted_before(log: Seq<Exchange>, n: int) -> bool {
    forall|i: int| 0 <= i < n && i < log.len() ==> accepted((#[trigger] log[i]).reply)
}

/// One more write at the end of a log: its chunk comes last, the writes
/// before it are addressed as they were, and it is well addressed where its
/// offset is the count of bytes before it.
proof fn log_push(
    log: Seq<Exchange>,
    last: Exchange,
    destination: Url,
    template: Map<Seq<char>, Seq<Seq<u8>>>,
)
    requires
        addressed(log, destination, template),
        last.destination == destination,
        last.fields == chunk_fields(template, concat(chunks_sent(log)).len()),
    ensures
        chunks_sent(log.push(last)) == chunks_sent(log).push(last.chunk),
        concat(chunks_sent(log.push(last))) == concat(chunks_sent(log)) + last.chunk,
        bytes_before(log.push(last), log.len() as int) == concat(chunks_sent(log)).len(),
        addressed(log.push(last), destination, template),
{
    let longer = log.push(last);
    assert(chunks_sent(longer) =~= chunks_sent(log).push(last.chunk));
    concat_push(chunks_sent(log), last.chunk);
    assert(chunks_sent(longer).take(log.len() as int) =~= chunks_sent(log));
    assert forall|i: int| 0 <= i < longer.len() implies {
        &&& (#[trigger] longer[i]).destination == destination
        &&& longer[i].fields == chunk_fields(template, bytes_before(longer, i))
    } by {
        if i < log.len() {
            assert(longer[i] == log[i]);
            assert(chunks_sent(longer).take(i) =~= chunks_sent(log).take(i));
        }
    }
}

/// A client for one upload to one endpoint: the destination, and the
/// headers from which those of each chunk are made.
pub struct Client {
    url: Url,
    headers: HeaderMap,
    config: Config,
}

impl Client {
    /// The destination of the upload.
    pub closed spec fn destination(&self) -> Url {
        self.url
    }

    /// The fields of the header template.
    pub closed spec fn template(&self) -> Map<Seq<char>, Seq<Seq<u8>>> {
        header_fields(self.headers)
    }

    /// The sizes that shape the upload.
    pub closed spec fn spec_config(&self) -> Config {
        self.config
    }

    /// Whether the headers of a chunk can be built from the template.
    pub open spec fn can_address(&self) -> bool {
        self.template().dom().len() < MAX_FIELDS
    }

    /// What one upload attempt over a source of `data` comes to, where
    /// `sent` are the writes that it made and `r` is its result. `unfailing`
    /// says whether the source was one whose reads never fail, `steady`
    /// whether they also always fill.
    ///
    /// Every write is addressed at the count of bytes before it; no chunk is
    /// empty or above the chunk size; the chunks make up the front of the
    /// data; the endpoint took every write but, at most, the last.
    ///
    /// The result is the length of the data where the endpoint took every
    /// chunk and the chunks make up all the data. It is a rejection or a
    /// transport failure exactly where the endpoint did not take the last
    /// write, with the offset and the length of that write. It is a read
    /// failure only of a source whose reads can fail, with the count of bytes
    /// sent. It is a header failure only where the template is too large
    /// and there is data to send, before anything is sent.
    pub open spec fn describes(
        &self,
        data: Seq<u8>,
        unfailing: bool,
        steady: bool,
        sent: Seq<Exchange>,
        r: Result<usize, Error>,
    ) -> bool {
        let chunks = chunks_sent(sent);
        let size = self.spec_config().spec_chunk_size() as nat;
        &&& addressed(sent, self.destination(), self.template())
        &&& bounded(chunks, size)
        &&& concat(chunks).is_prefix_of(data)
        &&& accepted_before(sent, sent.len() - 1)
        &&& sent.len() > 0 ==> self.can_address()
        &&& steady ==> full_but_last(chunks, size, true)
        &&& match r {
            Ok(total) => {
                &&& accepted_before(sent, sent.len() as int)
                &&& concat(chunks) == data
                &&& total == data.len()
            },
            Err(Error::ReadFailure { offset, cause }) => {
                &&& !unfailing
                &&& !steady
                &&& accepted_before(sent, sent.len() as int)
                &&& offset == concat(chunks).len()
            },
            Err(Error::HeaderConstruction { offset }) => {
                &&& !self.can_address()
                &&& data.len() > 0
                &&& sent.len() == 0
                &&& offset == 0
            },
            Err(_) => {
                &&& sent.len() > 0
                &&& !accepted(sent.last().reply)
                &&& r == settled(
                    bytes_before(sent, sent.len() - 1) as usize,
                    sent.last().chunk.len() as usize,
                    sent.last().reply,
                )
            },
        }
    }

    /// Creates a client with the default sizes.
    ///
    /// `headers` holds whatever the endpoint asks for in every request, such
    /// as what `default_headers` returns, and authentication.
    pub fn new(url: Url, headers: HeaderMap) -> (r: Client)
        ensures
            r.destination() == url,
            r.template() == header_fields(headers),
            r.spec_config().spec_chunk_size() == CHUNK_SIZE,
            r.spec_config().spec_queue_capacity() == QUEUE_CAPACITY,
    {
        Client { url, headers, config: Config::standard() }
    }

    /// Creates a client with the sizes of `config`.
    pub fn with_config(url: Url, headers: HeaderMap, config: Config) -> (r: Client)
        ensures
            r.destination() == url,
            r.template() == header_fields(headers),
            r.spec_config() == config,
    {
        Client { url, headers, config }
    }

    /// The destination of the upload.
    pub fn url(&self) -> (r: &Url)
        ensures
            *r == self.destination(),
    {
        &self.url
    }

    /// The header template.
    pub fn headers(&self) -> (r: &HeaderMap)
        ensures
            header_fields(*r) == self.template(),
    {
        &self.headers
    }

    /// The sizes that shape the upload.
    #[verifier::when_used_as_spec(spec_config)]
    pub fn config(&self) -> (r: Config)
        ensures
            r == self.spec_config(),
    {
        self.config
    }

    /// Builds the headers of the chunk written at `offset`.
    pub fn chunk_headers(&self, offset: usize) -> (r: Result<HeaderMap, Error>)
        ensures
            r is Ok <==> self.can_address(),
            r matches Ok(headers) ==> header_fields(headers) == chunk_fields(
                self.template(),
                offset as nat,
            ),
            r matches Err(e) ==> e == (Error::HeaderConstruction { offset }),
    {
        chunk_headers(&self.headers, offset)
    }

    /// Sends one chunk at the offset of `transfer` and settles the answer.
    /// Where the headers cannot be built nothing is sent.
    fn deliver<T: Transport>(
        &self,
        transfer: &mut Transfer,
        chunk: Vec<u8>,
        transport: &mut T,
    ) -> (r: Result<usize, Error>)
        requires
            old(transfer).may_dispatch(chunk@.len() as usize),
        ensures
            final(transfer).spec_pending() is None,
            final(transfer).spec_phase() == if r is Ok {
                Phase::Streaming
            } else {
                Phase::Failed
            },
            final(transfer).spec_offset() == match r {
                Ok(offset) => offset,
                Err(_) => old(transfer).spec_offset(),
            },
            !self.can_address() ==> final(transport).exchanges() == old(transport).exchanges()
                && r == Err::<usize, Error>(
                Error::HeaderConstruction { offset: old(transfer).spec_offset() },
            ),
            self.can_address() ==> {
                let last = final(transport).exchanges().last();
                &&& final(transport).exchanges() == old(transport).exchanges().push(last)
                &&& last.destination == self.destination()
                &&& last.chunk == chunk@
                &&& last.fields == chunk_fields(self.template(), old(transfer).spec_offset() as nat)
                &&& r == settled(old(transfer).spec_offset(), chunk@.len() as usize, last.reply)
            },
    {
        let len: usize = chunk.len();
        let offset: usize = transfer.offset();
        let headers = match self.chunk_headers(offset) {
            Ok(headers) => headers,
            Err(e) => {
                transfer.fail_headers();
                return Err(e);
            },
        };
        transfer.dispatch(len);
        let reply = transport.send(&self.url, chunk, headers);
        let ghost answer = reply;
        proof {
            assert(transport.exchanges().last().reply == answer);
        }
        match transfer.settle(reply) {
            Some(r) => r,
            None => vstd::pervasive::unreached(),
        }
    }
}

impl Client {
    /// That an attempt is on course: `sent` are the writes made, the
    /// endpoint took them all, and `left` is the data not sent yet.
    #[verifier::opaque]
    spec fn on_course(
        &self,
        data: Seq<u8>,
        steady: bool,
        sent: Seq<Exchange>,
        left: Seq<u8>,
    ) -> bool {
        let chunks = chunks_sent(sent);
        let size = self.spec_config().spec_chunk_size() as nat;
        &&& addressed(sent, self.destination(), self.template())
        &&& bounded(chunks, size)
        &&& accepted_before(sent, sent.len() as int)
        &&& concat(chunks) + left == data
        &&& sent.len() > 0 ==> self.can_address()
        &&& steady ==> full_but_last(chunks, size, left.len() == 0)
    }

    /// That `last` is the write of the next `n` bytes of `left` after the
    /// writes in `sent`.
    spec fn is_next_write(
        &self,
        steady: bool,
        sent: Seq<Exchange>,
        left: Seq<u8>,
        n: int,
        last: Exchange,
    ) -> bool {
        &&& 1 <= n <= self.spec_config().spec_chunk_size()
        &&& n <= left.len()
        &&& steady ==> n == self.spec_config().spec_chunk_size() || n == left.len()
        &&& last.destination == self.destination()
        &&& last.chunk == left.take(n)
        &&& last.fields == chunk_fields(self.template(), concat(chunks_sent(sent)).len())
        &&& self.can_address()
    }

    /// An attempt is on course before anything is sent.
    proof fn starts_on_course(&self, data: Seq<u8>, steady: bool)
        ensures
            self.on_course(data, steady, Seq::<Exchange>::empty(), data),
    {
        reveal(Client::on_course);
        let sent = Seq::<Exchange>::empty();
        assert(chunks_sent(sent) =~= Seq::<Seq<u8>>::empty());
        assert(concat(chunks_sent(sent)) + data =~= data);
    }

    /// On course, the bytes sent and the bytes left are as many as the
    /// data.
    proof fn course_length(
        &self,
        data: Seq<u8>,
        steady: bool,
        sent: Seq<Exchange>,
        left: Seq<u8>,
    )
        requires
            self.on_course(data, steady, sent, left),
        ensures
            concat(chunks_sent(sent)).len() + left.len() == data.len(),
    {
        reveal(Client::on_course);
    }

    /// An attempt stays on course over a write that the endpoint takes.
    proof fn stays_on_course(
        &self,
        data: Seq<u8>,
        steady: bool,
        sent: Seq<Exchange>,
        left: Seq<u8>,
        n: int,
        last: Exchange,
    )
        requires
            self.on_course(data, steady, sent, left),
            self.is_next_write(steady, sent, left, n, last),
            accepted(last.reply),
        ensures
            self.on_course(data, steady, sent.push(last), left.skip(n)),
            concat(chunks_sent(sent.push(last))).len() == concat(chunks_sent(sent)).len() + n,
    {
        reveal(Client::on_course);
        let longer = sent.push(last);
        let size = self.spec_config().spec_chunk_size() as nat;
        log_push(sent, last, self.destination(), self.template());
        assert(left.take(n) + left.skip(n) =~= left);
        assert(concat(chunks_sent(longer)) + left.skip(n) =~= data);
        assert forall|i: int| 0 <= i < chunks_sent(longer).len() implies 1 <= (
        #[trigger] chunks_sent(longer)[i]).len() <= size by {
            if i < sent.len() {
                assert(chunks_sent(longer)[i] == chunks_sent(sent)[i]);
            }
        }
        assert forall|i: int| 0 <= i < longer.len() implies accepted(
            (#[trigger] longer[i]).reply,
        ) by {
            if i < sent.len() {
                assert(longer[i] == sent[i]);
            }
        }
        if steady {
            assert forall|i: int| 0 <= i < chunks_sent(longer).len() implies (
            #[trigger] chunks_sent(longer)[i]).len() == size || (left.skip(n).len() == 0 && i
                == chunks_sent(longer).len() - 1) by {
                if i < sent.len() {
                    assert(chunks_sent(longer)[i] == chunks_sent(sent)[i]);
                }
            }
        }
    }

    /// An attempt on course with nothing left has sent all the data.
    proof fn ends_complete(
        &self,
        data: Seq<u8>,
        unfailing: bool,
        steady: bool,
        sent: Seq<Exchange>,
    )
        requires
            self.on_course(data, steady, sent, Seq::<u8>::empty()),
            data.len() <= usize::MAX,
        ensures
            self.describes(data, unfailing, steady, sent, Ok(data.len() as usize)),
    {
        reveal(Client::on_course);
        assert(concat(chunks_sent(sent)) + Seq::<u8>::empty() =~= concat(chunks_sent(sent)));
    }

    /// An attempt on course that cannot read on ends with a read failure at
    /// the count of bytes sent.
    proof fn ends_unread(
        &self,
        data: Seq<u8>,
        sent: Seq<Exchange>,
        left: Seq<u8>,
        cause: String,
    )
        requires
            self.on_course(data, false, sent, left),
            data.len() <= usize::MAX,
        ensures
            self.describes(
                data,
                false,
                false,
                sent,
                Err(
                    Error::ReadFailure {
                        offset: concat(chunks_sent(sent)).len() as usize,
                        cause,
                    },
                ),
            ),
    {
        reveal(Client::on_course);
        assert(concat(chunks_sent(sent)).is_prefix_of(concat(chunks_sent(sent)) + left));
    }

    /// An attempt whose headers cannot be built ends before anything is
    /// sent.
    proof fn ends_unaddressed(
        &self,
        data: Seq<u8>,
        unfailing: bool,
        steady: bool,
        sent: Seq<Exchange>,
        left: Seq<u8>,
    )
        requires
            self.on_course(data, steady, sent, left),
            !self.can_address(),
            left.len() > 0,
        ensures
            sent.len() == 0,
            self.describes(
                data,
                unfailing,
                steady,
                sent,
                Err(Error::HeaderConstruction { offset: 0 }),
            ),
    {
        reveal(Client::on_course);
        assert(chunks_sent(sent) =~= Seq::<Seq<u8>>::empty());
        assert(concat(chunks_sent(sent)).is_prefix_of(data));
    }

    /// An attempt on course ends at the first write that the endpoint does
    /// not take, with what that write settles to.
    proof fn ends_refused(
        &self,
        data: Seq<u8>,
        unfailing: bool,
        steady: bool,
        sent: Seq<Exchange>,
        left: Seq<u8>,
        n: int,
        last: Exchange,
    )
        requires
            self.on_course(data, steady, sent, left),
            self.is_next_write(steady, sent, left, n, last),
            !accepted(last.reply),
            data.len() <= usize::MAX,
        ensures
            self.describes(
                data,
                unfailing,
                steady,
                sent.push(last),
                settled(concat(chunks_sent(sent)).len() as usize, n as usize, last.reply),
            ),
    {
        reveal(Client::on_course);
        let longer = sent.push(last);
        let size = self.spec_config().spec_chunk_size() as nat;
        log_push(sent, last, self.destination(), self.template());
        assert(left.take(n) + left.skip(n) =~= left);
        assert(concat(chunks_sent(longer)) + left.skip(n) =~= data);
        assert(concat(chunks_sent(longer)).is_prefix_of(concat(chunks_sent(longer)) + left.skip(
            n,
        )));
        assert forall|i: int| 0 <= i < chunks_sent(longer).len() implies 1 <= (
        #[trigger] chunks_sent(longer)[i]).len() <= size by {
            if i < sent.len() {
                assert(chunks_sent(longer)[i] == chunks_sent(sent)[i]);
            }
        }
        assert forall|i: int| 0 <= i < longer.len() - 1 implies accepted(
            (#[trigger] longer[i]).reply,
        ) by {
            assert(longer[i] == sent[i]);
        }
        if steady {
            assert forall|i: int| 0 <= i < chunks_sent(longer).len() implies (
            #[trigger] chunks_sent(longer)[i]).len() == size || (true && i == chunks_sent(
                longer,
            ).len() - 1) by {
                if i < sent.len() {
                    assert(chunks_sent(longer)[i] == chunks_sent(sent)[i]);
                }
            }
        }
        assert(longer.last() == last);
        assert(last.chunk.len() == n);
        assert(bytes_before(longer, longer.len() - 1) == concat(chunks_sent(sent)).len());
    }
}

impl Client {
    /// Uploads all content from `reader`, chunk by chunk as it is read:
    /// each chunk is sent before the next is read. Stops at the first read
    /// or write that fails.
    pub fn upload_inner<S: Source, T: Transport>(&self, reader: S, transport: &mut T) -> (r: Result<
        usize,
        Error,
    >)
        requires
            reader.remaining().len() <= usize::MAX,
        ensures
            old(transport).exchanges().is_prefix_of(final(transport).exchanges()),
            self.describes(
                reader.remaining(),
                reader.unfailing(),
                reader.steady(),
                added(old(transport).exchanges(), final(transport).exchanges()),
                r,
            ),
    {
        let ghost data = reader.remaining();
        let ghost steady = reader.steady();
        let ghost unfailing = reader.unfailing();
        let ghost before = transport.exchanges();
        let ghost mut sent: Seq<Exchange> = Seq::empty();
        let size: usize = self.config.chunk_size();
        let mut source = reader;
        let mut transfer = Transfer::new();
        transfer.begin();
        proof {
            self.starts_on_course(data, steady);
            assert(before + sent =~= before);
            assert(chunks_sent(sent) =~= Seq::<Seq<u8>>::empty());
        }
        loop
            invariant
                size == self.spec_config().spec_chunk_size(),
                size > 0,
                data.len() <= usize::MAX,
                data == reader.remaining(),
                steady == reader.steady(),
                unfailing == reader.unfailing(),
                before == old(transport).exchanges(),
                transport.exchanges() == before + sent,
                transfer.is_between_chunks(),
                transfer.spec_offset() == concat(chunks_sent(sent)).len(),
                source.steady() == steady,
                source.unfailing() == unfailing,
                self.on_course(data, steady, sent, source.remaining()),
            decreases source.remaining().len(),
        {
            let ghost left = source.remaining();
            proof {
                assert(added(before, before + sent) =~= sent);
                assert(before.is_prefix_of(before + sent));
            }
            let mut buf: Vec<u8> = vec![0u8; size];
            let bytes_read: usize = match source.read(&mut buf) {
                Ok(n) => n,
                Err(fault) => {
                    let failure = transfer.fail_read(fault.cause);
                    proof {
                        self.course_length(data, steady, sent, left);
                        self.ends_unread(data, sent, left, fault.cause);
                    }
                    return Err(failure.unwrap());
                },
            };
            match cut_chunk(buf, bytes_read) {
                None => {
                    let total = transfer.finish();
                    proof {
                        assert(left =~= Seq::<u8>::empty());
                        self.course_length(data, steady, sent, left);
                        self.ends_complete(data, unfailing, steady, sent);
                    }
                    return Ok(total.unwrap());
                },
                Some(chunk) => {
                    proof {
                        self.course_length(data, steady, sent, left);
                    }
                    let outcome = self.deliver(&mut transfer, chunk, transport);
                    proof {
                        if self.can_address() {
                            let last = transport.exchanges().last();
                            assert(self.is_next_write(steady, sent, left, bytes_read as int, last));
                            if accepted(last.reply) {
                                self.stays_on_course(
                                    data,
                                    steady,
                                    sent,
                                    left,
                                    bytes_read as int,
                                    last,
                                );
                            } else {
                                self.ends_refused(
                                    data,
                                    unfailing,
                                    steady,
                                    sent,
                                    left,
                                    bytes_read as int,
                                    last,
                                );
                            }
                            assert(transport.exchanges() =~= before + sent.push(last));
                            sent = sent.push(last);
                            assert(added(before, before + sent) =~= sent);
                            assert(before.is_prefix_of(before + sent));
                        } else {
                            assert(left.len() > 0);
                            self.ends_unaddressed(data, unfailing, steady, sent, left);
                        }
                    }
                    match outcome {
                        Ok(_) => {},
                        Err(e) => {
                            return Err(e);
                        },
                    }
                },
            }
        }
    }
}

/// That the chunks on the queue are the front of the data `left` to send:
/// where no read has failed, the queue and the bytes `unread` in the source
/// make up what is left; after a failed read the queue holds a front of it.
#[verifier::opaque]
spec fn in_hand(
    queued: Seq<Seq<u8>>,
    unread: Seq<u8>,
    left: Seq<u8>,
    chunk_size: nat,
    steady: bool,
    faulted: bool,
) -> bool {
    &&& bounded(queued, chunk_size)
    &&& if faulted {
        !steady && concat(queued).is_prefix_of(left)
    } else {
        concat(queued) + unread == left && (steady ==> full_but_last(
            queued,
            chunk_size,
            unread.len() == 0,
        ))
    }
}

/// With nothing read and nothing sent, all the data is in the source.
proof fn nothing_in_hand(data: Seq<u8>, chunk_size: nat, steady: bool)
    ensures
        in_hand(Seq::<Seq<u8>>::empty(), data, data, chunk_size, steady, false),
{
    reveal(in_hand);
    assert(concat(Seq::<Seq<u8>>::empty()) + data =~= data);
}

/// With the queue empty and the source at its end, nothing is left.
proof fn nothing_left(
    queued: Seq<Seq<u8>>,
    unread: Seq<u8>,
    left: Seq<u8>,
    chunk_size: nat,
    steady: bool,
)
    requires
        in_hand(queued, unread, left, chunk_size, steady, false),
        queued.len() == 0,
        unread.len() == 0,
    ensures
        left == Seq::<u8>::empty(),
{
    reveal(in_hand);
    assert(concat(queued) =~= Seq::<u8>::empty());
    assert(left =~= Seq::<u8>::empty());
}

/// After a failed read the source was not a steady one.
proof fn faulted_is_unsteady(
    queued: Seq<Seq<u8>>,
    unread: Seq<u8>,
    left: Seq<u8>,
    chunk_size: nat,
    steady: bool,
)
    requires
        in_hand(queued, unread, left, chunk_size, steady, true),
    ensures
        !steady,
{
    reveal(in_hand);
}

/// The queue stays the front of what is left over a run of the producer
/// that ends without a fault.
proof fn produced(
    queued: Seq<Seq<u8>>,
    longer: Seq<Seq<u8>>,
    unread: Seq<u8>,
    rest: Seq<u8>,
    left: Seq<u8>,
    chunk_size: nat,
    steady: bool,
)
    requires
        in_hand(queued, unread, left, chunk_size, steady, false),
        queued.is_prefix_of(longer),
        bounded(added(queued, longer), chunk_size),
        concat(added(queued, longer)) + rest == unread,
        steady ==> full_but_last(added(queued, longer), chunk_size, rest.len() == 0),
    ensures
        in_hand(longer, rest, left, chunk_size, steady, false),
{
    reveal(in_hand);
    let more = added(queued, longer);
    assert(longer =~= queued + more);
    concat_append(queued, more);
    bounded_append(queued, more, chunk_size);
    assert(concat(longer) + rest =~= concat(queued) + (concat(more) + rest));
    if steady {
        if unread.len() == 0 {
            bounded_is_long(more, chunk_size);
            assert(more.len() == 0);
            assert(longer =~= queued);
            assert(rest.len() == 0);
        } else {
            full_append(queued, more, chunk_size, rest.len() == 0);
        }
    }
}

/// The queue holds a front of what is left after a run of the producer that
/// ends with a fault.
proof fn produced_until_fault(
    queued: Seq<Seq<u8>>,
    longer: Seq<Seq<u8>>,
    unread: Seq<u8>,
    rest: Seq<u8>,
    left: Seq<u8>,
    chunk_size: nat,
)
    requires
        in_hand(queued, unread, left, chunk_size, false, false),
        queued.is_prefix_of(longer),
        bounded(added(queued, longer), chunk_size),
        concat(added(queued, longer)).is_prefix_of(unread),
    ensures
        in_hand(longer, rest, left, chunk_size, false, true),
{
    reveal(in_hand);
    let more = added(queued, longer);
    assert(longer =~= queued + more);
    concat_append(queued, more);
    bounded_append(queued, more, chunk_size);
    assert(concat(longer).is_prefix_of(concat(queued) + unread));
}

/// The chunk at the head of the queue is the front of what is left, and the
/// queue behind it is the front of what is left after it.
proof fn head_in_hand(
    queued: Seq<Seq<u8>>,
    unread: Seq<u8>,
    left: Seq<u8>,
    chunk_size: nat,
    steady: bool,
    faulted: bool,
)
    requires
        in_hand(queued, unread, left, chunk_size, steady, faulted),
        queued.len() > 0,
    ensures
        1 <= queued[0].len() <= chunk_size,
        queued[0].len() <= left.len(),
        queued[0] == left.take(queued[0].len() as int),
        steady ==> queued[0].len() == chunk_size || queued[0].len() == left.len(),
        in_hand(
            queued.skip(1),
            unread,
            left.skip(queued[0].len() as int),
            chunk_size,
            steady,
            faulted,
        ),
{
    reveal(in_hand);
    let head = queued[0];
    let n = head.len() as int;
    first_off(queued, chunk_size, unread.len() == 0);
    if faulted {
        let all = concat(queued);
        let tail = concat(queued.skip(1));
        assert(all == head + tail);
        assert(head =~= left.take(n)) by {
            assert forall|i: int| 0 <= i < n implies head[i] == left[i] by {
                assert(all[i] == head[i]);
            }
        }
        assert(tail =~= left.skip(n).subrange(0, tail.len() as int)) by {
            assert forall|i: int| 0 <= i < tail.len() implies tail[i] == left[n + i] by {
                assert(all[n + i] == tail[i]);
            }
        }
    } else {
        assert(left == head + (concat(queued.skip(1)) + unread)) by {
            assert(left =~= head + (concat(queued.skip(1)) + unread));
        }
        assert(head =~= left.take(n));
        assert(left.skip(n) =~= concat(queued.skip(1)) + unread);
        if steady && head.len() != chunk_size {
            assert(queued.len() == 1);
            assert(queued.skip(1) =~= Seq::<Seq<u8>>::empty());
            assert(concat(queued.skip(1)) =~= Seq::<u8>::empty());
        }
    }
}

impl Client {
    /// Uploads all content from `reader` to the endpoint, consuming this
    /// client, and returns the count of bytes transferred.
    ///
    /// A producer reads the source ahead into a bounded queue, as far as the
    /// queue has room; the coordinator takes the chunks off the queue in
    /// order and sends one at a time. A failed read comes to light when the
    /// chunks read before it have been sent. The first write that the
    /// endpoint does not take ends the upload: what is still on the queue is
    /// never sent.
    pub fn upload<S: Source, T: Transport>(self, reader: S, transport: &mut T) -> (r: Result<
        usize,
        Error,
    >)
        requires
            reader.remaining().len() <= usize::MAX,
        ensures
            old(transport).exchanges().is_prefix_of(final(transport).exchanges()),
            self.describes(
                reader.remaining(),
                reader.unfailing(),
                reader.steady(),
                added(old(transport).exchanges(), final(transport).exchanges()),
                r,
            ),
    {
        let ghost data = reader.remaining();
        let ghost steady = reader.steady();
        let ghost unfailing = reader.unfailing();
        let ghost before = transport.exchanges();
        let ghost mut sent: Seq<Exchange> = Seq::empty();
        let ghost mut left: Seq<u8> = data;
        let size: usize = self.config.chunk_size();
        let mut queue = TransferQueue::new(self.config.queue_capacity());
        let mut processor = Processor::new(reader, size);
        let mut transfer = Transfer::new();
        let mut fault: Option<ReadFault> = None;
        transfer.begin();
        proof {
            self.starts_on_course(data, steady);
            nothing_in_hand(data, size as nat, steady);
            assert(before + sent =~= before);
            assert(chunks_sent(sent) =~= Seq::<Seq<u8>>::empty());
        }
        loop
            invariant
                size == self.spec_config().spec_chunk_size(),
                size > 0,
                data.len() <= usize::MAX,
                data == reader.remaining(),
                steady == reader.steady(),
                unfailing == reader.unfailing(),
                before == old(transport).exchanges(),
                transport.exchanges() == before + sent,
                transfer.is_between_chunks(),
                transfer.spec_offset() == concat(chunks_sent(sent)).len(),
                self.on_course(data, steady, sent, left),
                queue.wf(),
                queue.spec_capacity() > 0,
                processor.chunk_size() == size,
                fault is None ==> processor.source().steady() == steady,
                fault is None ==> processor.source().unfailing() == unfailing,
                fault is Some ==> !unfailing,
                processor.is_finished() ==> fault is None && processor.source().remaining().len()
                    == 0,
                in_hand(
                    queue@,
                    processor.source().remaining(),
                    left,
                    size as nat,
                    steady,
                    fault is Some,
                ),
            decreases left.len(),
        {
            proof {
                assert(added(before, before + sent) =~= sent);
                assert(before.is_prefix_of(before + sent));
            }
            if fault.is_none() && !processor.finished() {
                let ghost queued = queue@;
                let ghost unread = processor.source().remaining();
                match processor.process(&mut queue) {
                    Ok(state) => {
                        proof {
                            assert(state == Production::Suspended ==> queue@.len() > 0);
                            assert(state == Production::Finished ==> processor.is_finished());
                            produced(
                                queued,
                                queue@,
                                unread,
                                processor.source().remaining(),
                                left,
                                size as nat,
                                steady,
                            );
                        }
                    },
                    Err(f) => {
                        proof {
                            produced_until_fault(
                                queued,
                                queue@,
                                unread,
                                processor.source().remaining(),
                                left,
                                size as nat,
                            );
                        }
                        fault = Some(f);
                    },
                }
            }
            assert(fault is None && queue@.len() == 0 ==> processor.is_finished());
            let ghost queued = queue@;
            match queue.pop() {
                Some((chunk, _)) => {
                    let ghost n = chunk@.len() as int;
                    proof {
                        head_in_hand(
                            queued,
                            processor.source().remaining(),
                            left,
                            size as nat,
                            steady,
                            fault is Some,
                        );
                        self.course_length(data, steady, sent, left);
                    }
                    let outcome = self.deliver(&mut transfer, chunk, transport);
                    proof {
                        if self.can_address() {
                            let last = transport.exchanges().last();
                            assert(self.is_next_write(steady, sent, left, n, last));
                            if accepted(last.reply) {
                                self.stays_on_course(data, steady, sent, left, n, last);
                            } else {
                                self.ends_refused(data, unfailing, steady, sent, left, n, last);
                            }
                            assert(transport.exchanges() =~= before + sent.push(last));
                            sent = sent.push(last);
                            left = left.skip(n);
                            assert(added(before, before + sent) =~= sent);
                            assert(before.is_prefix_of(before + sent));
                        } else {
                            assert(left.len() > 0);
                            self.ends_unaddressed(data, unfailing, steady, sent, left);
                        }
                    }
                    match outcome {
                        Ok(_) => {},
                        Err(e) => {
                            return Err(e);
                        },
                    }
                },
                None => {
                    match fault {
                        Some(f) => {
                            let failure = transfer.fail_read(f.cause);
                            proof {
                                faulted_is_unsteady(
                                    queue@,
                                    processor.source().remaining(),
                                    left,
                                    size as nat,
                                    steady,
                                );
                                self.course_length(data, steady, sent, left);
                                self.ends_unread(data, sent, left, f.cause);
                            }
                            return Err(failure.unwrap());
                        },
                        None => {
                            let total = transfer.finish();
                            proof {
                                nothing_left(
                                    queue@,
                                    processor.source().remaining(),
                                    left,
                                    size as nat,
                                    steady,
                                );
                                self.course_length(data, steady, sent, left);
                                self.ends_complete(data, unfailing, steady, sent);
                            }
                            return Ok(total.unwrap());
                        },
                    }
                },
            }
        }
    }
}

impl Client {
    /// An upload that succeeds from a steady source sends the data cut into
    /// full chunks with a last one that may be short: the chunks laid end to
    /// end are the data, there are as many as the length divided by the
    /// chunk size, rounded up, and the total returned is the length.
    pub proof fn steady_upload_cuts_evenly(&self, data: Seq<u8>, sent: Seq<Exchange>, total: usize)
        requires
            self.spec_config().spec_chunk_size() > 0,
            self.describes(data, true, true, sent, Ok(total)),
        ensures
            chunks_sent(sent) == chunks_of(data, self.spec_config().spec_chunk_size() as nat),
            sent.len() == chunk_count(data.len(), self.spec_config().spec_chunk_size() as nat),
            concat(chunks_sent(sent)) == data,
            total == data.len(),
    {
        let size = self.spec_config().spec_chunk_size() as nat;
        full_chunks_are_chunks_of(chunks_sent(sent), data, size);
        chunking_is_complete(data, size);
    }

    /// An upload from a source whose reads never fail succeeds exactly where
    /// the endpoint takes every write and the headers can be built, or there
    /// is no data to send.
    pub proof fn succeeds_when_all_is_taken(
        &self,
        data: Seq<u8>,
        steady: bool,
        sent: Seq<Exchange>,
        r: Result<usize, Error>,
    )
        requires
            self.describes(data, true, steady, sent, r),
        ensures
            r is Ok <==> accepted_before(sent, sent.len() as int) && (self.can_address()
                || data.len() == 0),
    {
        if r is Ok && data.len() > 0 {
            assert(chunks_sent(sent).len() > 0) by {
                if chunks_sent(sent).len() == 0 {
                    assert(concat(chunks_sent(sent)).len() == 0);
                }
            }
        }
        if accepted_before(sent, sent.len() as int) && sent.len() > 0 {
            assert(accepted(sent.last().reply)) by {
                assert(sent.last() == sent[sent.len() - 1]);
            }
        }
    }

    /// Every write carries the running total as its offset: the first goes
    /// to offset zero, each next one to the offset of the one before it plus
    /// that one's length, and the total returned on success is the length of
    /// the data.
    pub proof fn offsets_are_running_totals(
        &self,
        data: Seq<u8>,
        unfailing: bool,
        steady: bool,
        sent: Seq<Exchange>,
        r: Result<usize, Error>,
    )
        requires
            self.describes(data, unfailing, steady, sent, r),
        ensures
            bytes_before(sent, 0) == 0,
            forall|i: int|
                0 <= i < sent.len() ==> (#[trigger] sent[i]).fields["upload-offset"@] == seq![
                    decimal(bytes_before(sent, i)),
                ],
            forall|i: int|
                0 <= i < sent.len() ==> #[trigger] bytes_before(sent, i + 1) == bytes_before(
                    sent,
                    i,
                ) + sent[i].chunk.len(),
            r matches Ok(total) ==> total == data.len() && bytes_before(sent, sent.len() as int)
                == data.len(),
    {
        let chunks = chunks_sent(sent);
        assert(chunks.take(0) =~= Seq::<Seq<u8>>::empty());
        assert forall|i: int| 0 <= i < sent.len() implies #[trigger] bytes_before(sent, i + 1)
            == bytes_before(sent, i) + sent[i].chunk.len() by {
            assert(chunks.take(i + 1) =~= chunks.take(i).push(sent[i].chunk));
            concat_push(chunks.take(i), sent[i].chunk);
        }
        assert(chunks.take(sent.len() as int) =~= chunks);
    }

    /// The first write that the endpoint does not take is the last write
    /// made: no chunk is sent after it. The upload fails, and the failure
    /// carries the count of bytes in the writes before that one, and that
    /// one's length.
    pub proof fn fails_fast(
        &self,
        data: Seq<u8>,
        unfailing: bool,
        steady: bool,
        sent: Seq<Exchange>,
        r: Result<usize, Error>,
        k: int,
    )
        requires
            self.describes(data, unfailing, steady, sent, r),
            data.len() <= usize::MAX,
            0 <= k < sent.len(),
            !accepted(sent[k].reply),
        ensures
            k == sent.len() - 1,
            r matches Err(e) && e.spec_offset() == bytes_before(sent, k) && e.spec_chunk_len()
                == Some(sent[k].chunk.len() as usize),
    {
        let chunks = chunks_sent(sent);
        let whole = concat(chunks);
        assert(chunks =~= chunks.take(k).push(chunks[k]) + chunks.skip(k + 1));
        concat_append(chunks.take(k).push(chunks[k]), chunks.skip(k + 1));
        concat_push(chunks.take(k), chunks[k]);
        assert(bytes_before(sent, k) + sent[k].chunk.len() <= whole.len());
        assert(whole.len() <= data.len());
    }
}

} // verus!
