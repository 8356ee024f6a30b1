//! A PNG file as a sequence of chunks.
//!
//! A file is the eight bytes of the PNG signature followed by chunks, each in
//! its wire form, with nothing between them and nothing after the last.

use crate::chunk::{
    lemma_decode_encode, lemma_encode_decode, read_be_u32, Chunk, ChunkView, MIN_CHUNK_LEN,
};
use crate::chunk_type::ChunkType;
use crate::endian::{be_bytes, be_u32};
use crate::error::Error;
use vstd::prelude::*;
use vstd::slice::slice_subrange;

verus! {

/// The signature that every PNG file begins with.
pub const STANDARD_HEADER: [u8; 8] = [137, 80, 78, 71, 13, 10, 26, 10];

/// The chunks `chunks` in their wire form, one after the other.
pub open spec fn encode_chunks(chunks: Seq<ChunkView>) -> Seq<u8>
    decreases chunks.len(),
{
    if chunks.len() == 0 {
        Seq::empty()
    } else {
        chunks.first().encode() + encode_chunks(chunks.drop_first())
    }
}

/// The number of bytes that the first chunk of `bytes` takes, going by its
/// length field.
pub open spec fn first_chunk_len(bytes: Seq<u8>) -> int
    recommends
        bytes.len() >= 4,
{
    be_u32(bytes) + 12
}

/// The outcome `r` with the chunks `done` put in front of those that it
/// holds.
pub open spec fn prepend(done: Seq<ChunkView>, r: Result<Seq<ChunkView>, Error>) -> Result<
    Seq<ChunkView>,
    Error,
> {
    match r {
        Ok(rest) => Ok(done + rest),
        Err(e) => Err(e),
    }
}

/// The chunk at the start of `bytes` and the number of bytes that it takes.
/// The buffer may hold more after the chunk, but no less than the length
/// field of the chunk asks for.
pub open spec fn decode_first(bytes: Seq<u8>) -> Result<(ChunkView, int), Error> {
    if bytes.len() < 12 || bytes.len() < first_chunk_len(bytes) {
        Err(Error::Format)
    } else {
        match ChunkView::decode(bytes.subrange(0, first_chunk_len(bytes))) {
            Ok(first) => Ok((first, first_chunk_len(bytes))),
            Err(e) => Err(e),
        }
    }
}

/// The chunks that `bytes` hold, one after the other. The bytes must be used
/// up exactly: what is left after a chunk must again begin with a chunk, or
/// be empty. The first chunk that fails to decode gives the error.
pub open spec fn decode_chunks(bytes: Seq<u8>) -> Result<Seq<ChunkView>, Error>
    decreases bytes.len(),
{
    if bytes.len() == 0 {
        Ok(Seq::empty())
    } else {
        match decode_first(bytes) {
            Ok((first, used)) => prepend(
                seq![first],
                decode_chunks(bytes.subrange(used, bytes.len() as int)),
            ),
            Err(e) => Err(e),
        }
    }
}

/// The file that holds `chunks`: the signature, then the chunks.
pub open spec fn encode_png(chunks: Seq<ChunkView>) -> Seq<u8> {
    STANDARD_HEADER@ + encode_chunks(chunks)
}

/// The chunks of the file `bytes`. A file that does not begin with the
/// signature is malformed.
pub open spec fn decode_png(bytes: Seq<u8>) -> Result<Seq<ChunkView>, Error> {
    if bytes.len() < 8 || bytes.subrange(0, 8) != STANDARD_HEADER@ {
        Err(Error::Format)
    } else {
        decode_chunks(bytes.subrange(8, bytes.len() as int))
    }
}

/// What each of the chunks `chunks` holds.
pub open spec fn views(chunks: Seq<Chunk>) -> Seq<ChunkView> {
    chunks.map_values(|c: Chunk| c@)
}

/// Whether no chunk before index `at` has the type `chunk_type`.
pub open spec fn none_before(chunks: Seq<ChunkView>, chunk_type: ChunkType, at: int) -> bool {
    forall|j: int| 0 <= j < at && j < chunks.len() ==> (#[trigger] chunks[j]).chunk_type != chunk_type
}

/// Whether `at` is the index of the first chunk of type `chunk_type`.
pub open spec fn is_first_of_type(chunks: Seq<ChunkView>, chunk_type: ChunkType, at: int) -> bool {
    &&& 0 <= at < chunks.len()
    &&& chunks[at].chunk_type == chunk_type
    &&& none_before(chunks, chunk_type, at)
}

/// Decodes the chunk at the start of a buffer, which may hold more after
/// it, and tells how many bytes the chunk took. Fails with [`Error::Format`]
/// where the buffer is shorter than the chunk's length field asks for, and
/// otherwise as decoding the chunk's bytes does.
pub fn first_chunk(bytes: &[u8]) -> (first: Result<(Chunk, usize), Error>)
    ensures
        match first {
            Ok((chunk, used)) => decode_first(bytes@) == Ok::<(ChunkView, int), Error>(
                (chunk@, used as int),
            ) && 12 <= used <= bytes@.len(),
            Err(e) => decode_first(bytes@) == Err::<(ChunkView, int), Error>(e),
        },
{
    let n = bytes.len();
    if n < MIN_CHUNK_LEN {
        return Err(Error::Format);
    }
    let declared = read_be_u32(bytes);
    if declared as usize > n - MIN_CHUNK_LEN {
        return Err(Error::Format);
    }
    let used = MIN_CHUNK_LEN + declared as usize;
    match Chunk::try_from(slice_subrange(bytes, 0, used)) {
        Ok(chunk) => Ok((chunk, used)),
        Err(e) => Err(e),
    }
}

/// The chunks of a PNG file, in their order.
#[derive(Debug)]
pub struct Png {
    chunks: Vec<Chunk>,
}

impl View for Png {
    type V = Seq<ChunkView>;

    closed spec fn view(&self) -> Seq<ChunkView> {
        views(self.chunks@)
    }
}

impl Png {
    /// A file of the given chunks.
    pub fn from_chunks(chunks: Vec<Chunk>) -> (png: Png)
        ensures
            png@ == views(chunks@),
    {
        Png { chunks }
    }

    /// Reads a file. Fails with [`Error::Format`] where the signature is
    /// missing or the bytes after it do not divide into chunks, and with the
    /// error of the first chunk that fails to decode.
    pub fn try_from(bytes: &[u8]) -> (read: Result<Png, Error>)
        ensures
            match read {
                Ok(png) => decode_png(bytes@) == Ok::<Seq<ChunkView>, Error>(png@),
                Err(e) => decode_png(bytes@) == Err::<Seq<ChunkView>, Error>(e),
            },
    {
        let n = bytes.len();
        if n < 8 {
            return Err(Error::Format);
        }
        let mut k: usize = 0;
        while k < 8
            invariant
                k <= 8 <= n,
                n == bytes@.len(),
                forall|j: int| 0 <= j < k ==> bytes@[j] == STANDARD_HEADER@[j],
            decreases 8 - k,
        {
            if bytes[k] != STANDARD_HEADER[k] {
                assert(bytes@.subrange(0, 8)[k as int] == bytes@[k as int]);
                return Err(Error::Format);
            }
            k += 1;
        }
        assert(bytes@.subrange(0, 8) =~= STANDARD_HEADER@);
        let ghost body = bytes@.subrange(8, n as int);
        let mut chunks: Vec<Chunk> = Vec::new();
        let mut pos: usize = 8;
        assert(bytes@.subrange(pos as int, n as int) == body);
        assert(views(chunks@) + Seq::<ChunkView>::empty() =~= Seq::<ChunkView>::empty());
        while pos < n
            invariant
                8 <= pos <= n,
                n == bytes@.len(),
                body == bytes@.subrange(8, n as int),
                decode_png(bytes@) == decode_chunks(body),
                decode_chunks(body) == prepend(
                    views(chunks@),
                    decode_chunks(bytes@.subrange(pos as int, n as int)),
                ),
            decreases n - pos,
        {
            let ghost tail = bytes@.subrange(pos as int, n as int);
            let ghost done = views(chunks@);
            match first_chunk(slice_subrange(bytes, pos, n)) {
                Ok((chunk, used)) => {
                    let ghost first = chunk@;
                    chunks.push(chunk);
                    proof {
                        let rest = decode_chunks(tail.subrange(used as int, tail.len() as int));
                        assert(tail.subrange(used as int, tail.len() as int) =~= bytes@.subrange(
                            pos + used,
                            n as int,
                        ));
                        assert(views(chunks@) =~= done + seq![first]);
                        assert(decode_chunks(tail) == prepend(seq![first], rest));
                        if let Ok(more) = rest {
                            assert(done + (seq![first] + more) =~= (done + seq![first]) + more);
                        }
                    }
                    pos = pos + used;
                },
                Err(e) => {
                    assert(decode_chunks(tail) == Err::<Seq<ChunkView>, Error>(e));
                    return Err(e);
                },
            }
        }
        assert(views(chunks@) + Seq::<ChunkView>::empty() =~= views(chunks@));
        Ok(Png { chunks })
    }

    /// Puts a chunk at the end of the file.
    pub fn append_chunk(&mut self, chunk: Chunk)
        ensures
            final(self)@ == old(self)@.push(chunk@),
    {
        self.chunks.push(chunk);
        assert(self@ =~= old(self)@.push(chunk@));
    }

    /// Takes the first chunk of the given type out of the file and returns
    /// it. Where the file holds no such chunk, it stays as it is.
    pub fn remove_chunk(&mut self, chunk_type: &ChunkType) -> (removed: Option<Chunk>)
        ensures
            match removed {
                Some(chunk) => exists|at: int|
                    {
                        &&& #[trigger] is_first_of_type(old(self)@, *chunk_type, at)
                        &&& chunk@ == old(self)@[at]
                        &&& final(self)@ == old(self)@.remove(at)
                    },
                None => none_before(old(self)@, *chunk_type, old(self)@.len() as int)
                    && final(self)@ == old(self)@,
            },
    {
        let mut i: usize = 0;
        while i < self.chunks.len()
            invariant
                i <= self.chunks.len(),
                *self == *old(self),
                none_before(self@, *chunk_type, i as int),
            decreases self.chunks.len() - i,
        {
            if *self.chunks[i].chunk_type() == *chunk_type {
                let chunk = self.chunks.remove(i);
                assert(self@ =~= old(self)@.remove(i as int));
                assert(is_first_of_type(old(self)@, *chunk_type, i as int));
                return Some(chunk);
            }
            i += 1;
        }
        None
    }

    /// The first chunk of the given type, if the file holds one.
    pub fn chunk_by_type(&self, chunk_type: &ChunkType) -> (found: Option<&Chunk>)
        ensures
            match found {
                Some(chunk) => exists|at: int|
                    #[trigger] is_first_of_type(self@, *chunk_type, at) && chunk@ == self@[at],
                None => none_before(self@, *chunk_type, self@.len() as int),
            },
    {
        let mut i: usize = 0;
        while i < self.chunks.len()
            invariant
                i <= self.chunks.len(),
                none_before(self@, *chunk_type, i as int),
            decreases self.chunks.len() - i,
        {
            if *self.chunks[i].chunk_type() == *chunk_type {
                assert(is_first_of_type(self@, *chunk_type, i as int));
                return Some(&self.chunks[i]);
            }
            i += 1;
        }
        None
    }

    /// The chunks of the file, in their order.
    pub fn chunks(&self) -> (chunks: &[Chunk])
        ensures
            views(chunks@) == self@,
    {
        self.chunks.as_slice()
    }

    /// The file as bytes: the signature, then each chunk in its wire form.
    /// The fields of each chunk agree, so reading the bytes gives the chunks
    /// back.
    pub fn as_bytes(&self) -> (bytes: Vec<u8>)
        ensures
            bytes@ == encode_png(self@),
            forall|j: int| 0 <= j < self@.len() ==> (#[trigger] self@[j]).wf(),
            decode_png(bytes@) == Ok::<Seq<ChunkView>, Error>(self@),
    {
        let mut bytes: Vec<u8> = Vec::new();
        bytes.extend_from_slice(STANDARD_HEADER.as_slice());
        assert(bytes@ =~= STANDARD_HEADER@ + encode_chunks(self@.subrange(0, 0)));
        let mut i: usize = 0;
        while i < self.chunks.len()
            invariant
                i <= self.chunks.len(),
                bytes@ == STANDARD_HEADER@ + encode_chunks(self@.subrange(0, i as int)),
                forall|j: int| 0 <= j < i ==> (#[trigger] self@[j]).wf(),
            decreases self.chunks.len() - i,
        {
            let wire = self.chunks[i].as_bytes();
            bytes.extend_from_slice(wire.as_slice());
            proof {
                lemma_encode_chunks_push(self@.subrange(0, i as int), self@[i as int]);
                assert(self@.subrange(0, i as int).push(self@[i as int]) =~= self@.subrange(
                    0,
                    i + 1,
                ));
                assert(bytes@ =~= STANDARD_HEADER@ + encode_chunks(self@.subrange(0, i + 1)));
            }
            i += 1;
        }
        proof {
            assert(self@.subrange(0, i as int) =~= self@);
            lemma_decode_encode_png(self@);
        }
        bytes
    }
}

/// The wire form of chunks with one more at the end is the wire form of the
/// chunks, then that of the one.
pub proof fn lemma_encode_chunks_push(chunks: Seq<ChunkView>, last: ChunkView)
    ensures
        encode_chunks(chunks.push(last)) == encode_chunks(chunks) + last.encode(),
    decreases chunks.len(),
{
    if chunks.len() == 0 {
        assert(chunks.push(last).drop_first() =~= chunks);
        assert(encode_chunks(chunks.push(last)) =~= encode_chunks(chunks) + last.encode());
    } else {
        lemma_encode_chunks_push(chunks.drop_first(), last);
        assert(chunks.push(last).drop_first() =~= chunks.drop_first().push(last));
        assert(encode_chunks(chunks.push(last)) =~= encode_chunks(chunks) + last.encode());
    }
}

/// A chunk whose fields agree, followed by any bytes, is read from the
/// front of them, and the bytes are left over.
pub proof fn lemma_decode_first(first: ChunkView, tail: Seq<u8>)
    requires
        first.wf(),
    ensures
        decode_first(first.encode() + tail) == Ok::<(ChunkView, int), Error>(
            (first, first.encode().len() as int),
        ),
        first.encode().len() == first.data.len() + 12,
{
    let bytes = first.encode() + tail;
    lemma_decode_encode(first);
    crate::endian::lemma_be_u32_of_be_bytes(first.length);
    assert(be_u32(bytes) == first.length) by {
        assert(bytes[0] == be_bytes(first.length)[0]);
        assert(bytes[1] == be_bytes(first.length)[1]);
        assert(bytes[2] == be_bytes(first.length)[2]);
        assert(bytes[3] == be_bytes(first.length)[3]);
    }
    assert(bytes.subrange(0, first_chunk_len(bytes)) =~= first.encode());
}

/// Chunks whose fields agree, written one after the other, read back as
/// they were.
pub proof fn lemma_decode_encode_chunks(chunks: Seq<ChunkView>)
    requires
        forall|i: int| 0 <= i < chunks.len() ==> (#[trigger] chunks[i]).wf(),
    ensures
        decode_chunks(encode_chunks(chunks)) == Ok::<Seq<ChunkView>, Error>(chunks),
    decreases chunks.len(),
{
    if chunks.len() == 0 {
        assert(encode_chunks(chunks).len() == 0);
        assert(chunks =~= Seq::<ChunkView>::empty());
    } else {
        let first = chunks.first();
        let rest = chunks.drop_first();
        let bytes = encode_chunks(chunks);
        let used = first.encode().len() as int;
        assert(first.wf());
        assert forall|i: int| 0 <= i < rest.len() implies (#[trigger] rest[i]).wf() by {
            assert(chunks[i + 1].wf());
        }
        lemma_decode_first(first, encode_chunks(rest));
        lemma_decode_encode_chunks(rest);
        assert(bytes == first.encode() + encode_chunks(rest));
        assert(bytes.subrange(used, bytes.len() as int) =~= encode_chunks(rest));
        assert(seq![first] + rest =~= chunks);
    }
}

/// Reading undoes writing: the file that holds chunks whose fields agree
/// reads back as those chunks.
pub proof fn lemma_decode_encode_png(chunks: Seq<ChunkView>)
    requires
        forall|i: int| 0 <= i < chunks.len() ==> (#[trigger] chunks[i]).wf(),
    ensures
        decode_png(encode_png(chunks)) == Ok::<Seq<ChunkView>, Error>(chunks),
{
    let file = encode_png(chunks);
    lemma_decode_encode_chunks(chunks);
    assert(file.subrange(0, 8) =~= STANDARD_HEADER@);
    assert(file.subrange(8, file.len() as int) =~= encode_chunks(chunks));
}

/// A chunk in front of others is written first.
proof fn lemma_encode_chunks_cons(first: ChunkView, rest: Seq<ChunkView>)
    ensures
        encode_chunks(seq![first] + rest) == first.encode() + encode_chunks(rest),
{
    let chunks = seq![first] + rest;
    assert(chunks.first() == first);
    assert(chunks.drop_first() =~= rest);
}

/// The chunk at the start of bytes has fields that agree and is written as
/// the bytes that it took.
proof fn lemma_first_chunk_bytes(bytes: Seq<u8>)
    requires
        decode_first(bytes) is Ok,
    ensures
        ({
            let (first, used) = decode_first(bytes)->Ok_0;
            &&& 12 <= used <= bytes.len()
            &&& first.wf()
            &&& first.encode() + bytes.subrange(used, bytes.len() as int) == bytes
        }),
{
    let (first, used) = decode_first(bytes)->Ok_0;
    lemma_encode_decode(bytes.subrange(0, used));
    assert(bytes.subrange(0, used) + bytes.subrange(used, bytes.len() as int) =~= bytes);
}

/// Chunks that were read from bytes have fields that agree, and written one
/// after the other they are those bytes again.
pub proof fn lemma_encode_decode_chunks(bytes: Seq<u8>)
    requires
        decode_chunks(bytes) is Ok,
    ensures
        encode_chunks(decode_chunks(bytes)->Ok_0) == bytes,
        forall|i: int|
            0 <= i < decode_chunks(bytes)->Ok_0.len() ==> (#[trigger] decode_chunks(
                bytes,
            )->Ok_0[i]).wf(),
    decreases bytes.len(),
{
    let chunks = decode_chunks(bytes)->Ok_0;
    if bytes.len() == 0 {
        assert(encode_chunks(chunks) =~= bytes);
    } else {
        let (first, used) = decode_first(bytes)->Ok_0;
        let tail = bytes.subrange(used, bytes.len() as int);
        let rest = decode_chunks(tail)->Ok_0;
        lemma_first_chunk_bytes(bytes);
        lemma_encode_decode_chunks(tail);
        lemma_encode_chunks_cons(first, rest);
        assert(chunks == seq![first] + rest);
        assert forall|i: int| 0 <= i < chunks.len() implies (#[trigger] chunks[i]).wf() by {
            if i > 0 {
                assert(chunks[i] == rest[i - 1]);
            }
        }
    }
}

/// Writing undoes reading: a file that reads as chunks is the file that
/// holds those chunks, byte for byte.
pub proof fn lemma_encode_decode_png(bytes: Seq<u8>)
    requires
        decode_png(bytes) is Ok,
    ensures
        encode_png(decode_png(bytes)->Ok_0) == bytes,
{
    let body = bytes.subrange(8, bytes.len() as int);
    lemma_encode_decode_chunks(body);
    assert(bytes.subrange(0, 8) + body =~= bytes);
}

} // verus!
