//! How a byte stream is cut into chunks, and what holds of the pieces.

use vstd::prelude::*;

verus! {

/// The chunks laid end to end, in order.
pub open spec fn concat(chunks: Seq<Seq<u8>>) -> Seq<u8>
    decreases chunks.len(),
{
    if chunks.len() == 0 {
        Seq::empty()
    } else {
        concat(chunks.drop_last()) + chunks.last()
    }
}

/// What was put at the end of a sequence between the moment it was `before`
/// and the moment it was `after`, nothing having been taken out.
pub open spec fn added<A>(before: Seq<A>, after: Seq<A>) -> Seq<A> {
    after.skip(before.len() as int)
}

/// That no chunk is empty and none is longer than `chunk_size`.
pub open spec fn bounded(chunks: Seq<Seq<u8>>, chunk_size: nat) -> bool {
    forall|i: int| 0 <= i < chunks.len() ==> 1 <= (#[trigger] chunks[i]).len() <= chunk_size
}

/// That every chunk is `chunk_size` bytes long, but for the last where
/// `ended` holds.
pub open spec fn full_but_last(chunks: Seq<Seq<u8>>, chunk_size: nat, ended: bool) -> bool {
    forall|i: int|
        0 <= i < chunks.len() ==> (#[trigger] chunks[i]).len() == chunk_size || (ended && i
            == chunks.len() - 1)
}

/// The chunks of `data` when every chunk but the last is `chunk_size` bytes
/// long: what comes of a source that fills each read.
pub open spec fn chunks_of(data: Seq<u8>, chunk_size: nat) -> Seq<Seq<u8>>
    decreases data.len(),
{
    if data.len() == 0 || chunk_size == 0 {
        Seq::empty()
    } else if data.len() <= chunk_size {
        seq![data]
    } else {
        seq![data.take(chunk_size as int)] + chunks_of(data.skip(chunk_size as int), chunk_size)
    }
}

/// The number of chunks that `len` bytes make at `chunk_size` bytes a chunk:
/// `len / chunk_size`, rounded up.
pub open spec fn chunk_count(len: nat, chunk_size: nat) -> nat {
    if chunk_size == 0 {
        0
    } else {
        ((len + chunk_size - 1) / (chunk_size as int)) as nat
    }
}

/// One chunk alone is its own bytes.
pub proof fn concat_single(chunk: Seq<u8>)
    ensures
        concat(seq![chunk]) == chunk,
{
    let one = seq![chunk];
    assert(one.drop_last() =~= Seq::<Seq<u8>>::empty());
    assert(concat(one.drop_last()) =~= Seq::<u8>::empty());
    assert(one.last() == chunk);
    assert(concat(one) =~= chunk);
}

/// One more chunk at the end adds its bytes at the end.
pub proof fn concat_push(chunks: Seq<Seq<u8>>, chunk: Seq<u8>)
    ensures
        concat(chunks.push(chunk)) == concat(chunks) + chunk,
{
    assert(chunks.push(chunk).drop_last() =~= chunks);
}

/// One more chunk at the front adds its bytes at the front.
pub proof fn concat_prepend(chunk: Seq<u8>, chunks: Seq<Seq<u8>>)
    ensures
        concat(seq![chunk] + chunks) == chunk + concat(chunks),
    decreases chunks.len(),
{
    if chunks.len() == 0 {
        assert(seq![chunk] + chunks =~= seq![chunk]);
        concat_single(chunk);
        assert(chunk + concat(chunks) =~= chunk);
    } else {
        let all = seq![chunk] + chunks;
        assert(all.drop_last() =~= seq![chunk] + chunks.drop_last());
        assert(all.last() == chunks.last());
        concat_prepend(chunk, chunks.drop_last());
        assert(concat(all) =~= chunk + concat(chunks));
    }
}

/// Chunks laid end to end after other chunks.
pub proof fn concat_append(first: Seq<Seq<u8>>, second: Seq<Seq<u8>>)
    ensures
        concat(first + second) == concat(first) + concat(second),
    decreases second.len(),
{
    if second.len() == 0 {
        assert(first + second =~= first);
        assert(concat(first) + concat(second) =~= concat(first));
    } else {
        assert((first + second).drop_last() =~= first + second.drop_last());
        assert((first + second).last() == second.last());
        concat_append(first, second.drop_last());
        assert(concat(first + second) =~= concat(first) + concat(second));
    }
}

/// Bounded chunks after bounded chunks are bounded.
pub proof fn bounded_append(first: Seq<Seq<u8>>, second: Seq<Seq<u8>>, chunk_size: nat)
    requires
        bounded(first, chunk_size),
        bounded(second, chunk_size),
    ensures
        bounded(first + second, chunk_size),
{
    assert forall|i: int| 0 <= i < (first + second).len() implies 1 <= (#[trigger] (first
        + second)[i]).len() <= chunk_size by {
        if i < first.len() {
            assert((first + second)[i] == first[i]);
        } else {
            assert((first + second)[i] == second[i - first.len()]);
        }
    }
}

/// Full chunks followed by chunks that are full but for the last are full
/// but for the last.
pub proof fn full_append(
    first: Seq<Seq<u8>>,
    second: Seq<Seq<u8>>,
    chunk_size: nat,
    ended: bool,
)
    requires
        full_but_last(first, chunk_size, false),
        full_but_last(second, chunk_size, ended),
    ensures
        full_but_last(first + second, chunk_size, ended),
{
    assert forall|i: int| 0 <= i < (first + second).len() implies (#[trigger] (first
        + second)[i]).len() == chunk_size || (ended && i == (first + second).len() - 1) by {
        if i < first.len() {
            assert((first + second)[i] == first[i]);
        } else {
            assert((first + second)[i] == second[i - first.len()]);
        }
    }
}

/// Chunks that are not empty hold at least as many bytes as there are
/// chunks.
pub proof fn bounded_is_long(chunks: Seq<Seq<u8>>, chunk_size: nat)
    requires
        bounded(chunks, chunk_size),
    ensures
        concat(chunks).len() >= chunks.len(),
    decreases chunks.len(),
{
    if chunks.len() > 0 {
        assert forall|i: int| 0 <= i < chunks.drop_last().len() implies 1 <= (
        #[trigger] chunks.drop_last()[i]).len() <= chunk_size by {
            assert(chunks.drop_last()[i] == chunks[i]);
        }
        bounded_is_long(chunks.drop_last(), chunk_size);
        assert(1 <= chunks.last().len()) by {
            assert(chunks.last() == chunks[chunks.len() - 1]);
        }
    }
}

/// The first chunk taken off: what is left lies behind it, and is bounded
/// and full as the whole was.
pub proof fn first_off(chunks: Seq<Seq<u8>>, chunk_size: nat, ended: bool)
    requires
        chunks.len() > 0,
        bounded(chunks, chunk_size),
    ensures
        concat(chunks) == chunks[0] + concat(chunks.skip(1)),
        1 <= chunks[0].len() <= chunk_size,
        bounded(chunks.skip(1), chunk_size),
        full_but_last(chunks, chunk_size, ended) ==> full_but_last(
            chunks.skip(1),
            chunk_size,
            ended,
        ),
        full_but_last(chunks, chunk_size, ended) ==> chunks[0].len() == chunk_size || (ended
            && chunks.len() == 1),
{
    let rest = chunks.skip(1);
    assert(chunks =~= seq![chunks[0]] + rest);
    concat_prepend(chunks[0], rest);
    assert forall|i: int| 0 <= i < rest.len() implies 1 <= (#[trigger] rest[i]).len()
        <= chunk_size by {
        assert(rest[i] == chunks[i + 1]);
    }
    if full_but_last(chunks, chunk_size, ended) {
        assert forall|i: int| 0 <= i < rest.len() implies (#[trigger] rest[i]).len() == chunk_size
            || (ended && i == rest.len() - 1) by {
            assert(rest[i] == chunks[i + 1]);
        }
    }
}

/// Cutting loses nothing and invents nothing: for any data and any chunk
/// size above zero, the chunks laid end to end are the data again, no chunk
/// is empty or longer than the chunk size, every chunk but the last is
/// full, and there are `len / chunk_size` of them, rounded up (none for no
/// data).
pub proof fn chunking_is_complete(data: Seq<u8>, chunk_size: nat)
    requires
        chunk_size > 0,
    ensures
        concat(chunks_of(data, chunk_size)) == data,
        bounded(chunks_of(data, chunk_size), chunk_size),
        chunks_of(data, chunk_size).len() == chunk_count(data.len(), chunk_size),
        forall|i: int|
            0 <= i < chunks_of(data, chunk_size).len() - 1 ==> (#[trigger] chunks_of(
                data,
                chunk_size,
            )[i]).len() == chunk_size,
    decreases data.len(),
{
    let c = chunk_size as int;
    if data.len() == 0 {
        assert(concat(chunks_of(data, chunk_size)) =~= data);
        assert((0 + c - 1) / c == 0) by (nonlinear_arith)
            requires
                c > 0,
        ;
    } else if data.len() <= chunk_size {
        concat_single(data);
        let l = data.len() as int;
        assert((l + c - 1) / c == 1) by (nonlinear_arith)
            requires
                0 < l <= c,
        ;
    } else {
        let head = data.take(c);
        let tail = data.skip(c);
        let rest = chunks_of(tail, chunk_size);
        chunking_is_complete(tail, chunk_size);
        concat_prepend(head, rest);
        assert(head + tail =~= data);
        let l = data.len() as int;
        assert((l + c - 1) / c == (l - c + c - 1) / c + 1) by (nonlinear_arith)
            requires
                c > 0,
                l > c,
        ;
        let all = chunks_of(data, chunk_size);
        assert(all =~= seq![head] + rest);
        assert forall|i: int| 0 <= i < all.len() implies 1 <= (#[trigger] all[i]).len()
            <= chunk_size by {
            if i > 0 {
                assert(all[i] == rest[i - 1]);
            }
        }
        assert forall|i: int| 0 <= i < all.len() - 1 implies (#[trigger] all[i]).len()
            == chunk_size by {
            if i > 0 {
                assert(all[i] == rest[i - 1]);
            }
        }
    }
}

/// There is one way only to cut data into full chunks with a last one that
/// may be short: chunks that are not empty, none longer than the chunk
/// size, all full but the last, and that make up `data`, are the chunks of
/// `data`.
pub proof fn full_chunks_are_chunks_of(chunks: Seq<Seq<u8>>, data: Seq<u8>, chunk_size: nat)
    requires
        chunk_size > 0,
        bounded(chunks, chunk_size),
        full_but_last(chunks, chunk_size, true),
        concat(chunks) == data,
    ensures
        chunks == chunks_of(data, chunk_size),
    decreases chunks.len(),
{
    if chunks.len() == 0 {
        assert(chunks =~= chunks_of(data, chunk_size));
    } else {
        let head = chunks[0];
        let rest = chunks.skip(1);
        assert(chunks =~= seq![head] + rest);
        concat_prepend(head, rest);
        assert(data == head + concat(rest));
        assert(1 <= head.len() <= chunk_size);
        if rest.len() == 0 {
            assert(concat(rest) =~= Seq::<u8>::empty());
            assert(data =~= head);
            assert(chunks =~= seq![data]);
        } else {
            assert(head.len() == chunk_size);
            assert forall|i: int| 0 <= i < rest.len() implies 1 <= (#[trigger] rest[i]).len()
                <= chunk_size by {
                assert(rest[i] == chunks[i + 1]);
            }
            assert forall|i: int| 0 <= i < rest.len() implies (#[trigger] rest[i]).len()
                == chunk_size || (true && i == rest.len() - 1) by {
                assert(rest[i] == chunks[i + 1]);
            }
            assert(1 <= rest[0].len());
            assert(rest.drop_last().push(rest.last()) =~= rest);
            concat_push(rest.drop_last(), rest.last());
            assert(concat(rest).len() >= 1) by {
                assert(1 <= rest.last().len()) by {
                    assert(rest.last() == rest[rest.len() - 1]);
                }
            }
            assert(data.take(chunk_size as int) =~= head);
            assert(data.skip(chunk_size as int) =~= concat(rest));
            full_chunks_are_chunks_of(rest, concat(rest), chunk_size);
        }
    }
}

} // verus!
