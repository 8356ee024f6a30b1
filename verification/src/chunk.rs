//! A whole chunk: length, type, data and checksum.
//!
//! On the wire a chunk is the length of its data as four big-endian bytes,
//! the four bytes of its type, the data, and the CRC-32 of type and data as
//! four big-endian bytes: twelve bytes and the data. The length field counts
//! the data alone and is authoritative: a buffer whose length field disagrees
//! with its size is no chunk. The length of the data is assumed to fit the
//! field, that is, to be at most `u32::MAX`.

use crate::checksum::{checksum, crc32};
use crate::chunk_type::ChunkType;
use crate::endian::{
    be_bytes, be_u32, lemma_be_bytes_of_be_u32, lemma_be_u32_of_be_bytes, to_be_bytes,
};
use crate::error::Error;
use crate::text::{decode_text, decode_text_lossy, lossy_text};
use vstd::prelude::*;
use vstd::slice::{slice_subrange, slice_to_vec};
use vstd::utf8::{decode_utf8, valid_utf8};

verus! {

/// The size of a chunk without data: length, type and checksum.
pub const MIN_CHUNK_LEN: usize = 12;

/// What a chunk holds, as plain values.
pub struct ChunkView {
    /// The length field.
    pub length: u32,
    /// The type tag.
    pub chunk_type: ChunkType,
    /// The payload.
    pub data: Seq<u8>,
    /// The checksum field.
    pub crc: u32,
}

/// The checksum that belongs to a type and a payload: the CRC-32 of the four
/// type bytes followed by the data.
pub open spec fn chunk_crc(chunk_type: ChunkType, data: Seq<u8>) -> u32 {
    crc32(chunk_type@ + data)
}

/// The type tag that stands in bytes 4 to 7 of `bytes`.
pub open spec fn type_at(bytes: Seq<u8>) -> ChunkType
    recommends
        bytes.len() >= 8,
{
    ChunkType { data: [bytes[4], bytes[5], bytes[6], bytes[7]] }
}

/// The part of a buffer that its checksum covers: type and data, that is,
/// all but the first and the last four bytes.
pub open spec fn guarded(bytes: Seq<u8>) -> Seq<u8>
    recommends
        bytes.len() >= 12,
{
    bytes.subrange(4, bytes.len() - 4)
}

impl ChunkView {
    /// The chunk that is made of a type and a payload: length and checksum
    /// follow from them.
    pub open spec fn fresh(chunk_type: ChunkType, data: Seq<u8>) -> ChunkView {
        ChunkView {
            length: data.len() as u32,
            chunk_type,
            data,
            crc: chunk_crc(chunk_type, data),
        }
    }

    /// Whether the fields agree: the length is that of the data, and the
    /// checksum is that of type and data.
    pub open spec fn wf(self) -> bool {
        &&& self.length == self.data.len()
        &&& self.crc == chunk_crc(self.chunk_type, self.data)
    }

    /// The wire form: length, type, data, checksum.
    pub open spec fn encode(self) -> Seq<u8> {
        be_bytes(self.length) + self.chunk_type@ + self.data + be_bytes(self.crc)
    }

    /// What a buffer holds, given the checksum `computed` of the part that
    /// its checksum field covers.
    ///
    /// A buffer of fewer than twelve bytes, or one whose length field is not
    /// its size less twelve, is malformed. Otherwise the buffer is a chunk
    /// where its checksum field equals `computed`.
    pub open spec fn frame(bytes: Seq<u8>, computed: u32) -> Result<ChunkView, Error> {
        if bytes.len() < 12 {
            Err(Error::Format)
        } else if be_u32(bytes) != bytes.len() - 12 {
            Err(Error::Format)
        } else if be_u32(bytes.subrange(bytes.len() - 4, bytes.len() as int)) != computed {
            Err(Error::CrcMismatch)
        } else {
            Ok(
                ChunkView {
                    length: be_u32(bytes),
                    chunk_type: type_at(bytes),
                    data: bytes.subrange(8, bytes.len() - 4),
                    crc: computed,
                },
            )
        }
    }

    /// What a buffer decodes to: its frame under the checksum of its type
    /// and data.
    pub open spec fn decode(bytes: Seq<u8>) -> Result<ChunkView, Error> {
        ChunkView::frame(bytes, crc32(guarded(bytes)))
    }
}

/// A chunk of a PNG file.
///
/// A value of this type always has the length of its data in its length
/// field and the checksum of its type and data in its checksum field.
#[derive(Debug)]
pub struct Chunk {
    data: Vec<u8>,
    chunk_type: ChunkType,
    crc: u32,
    data_length: u32,
}

impl View for Chunk {
    type V = ChunkView;

    closed spec fn view(&self) -> ChunkView {
        ChunkView {
            length: self.data_length,
            chunk_type: self.chunk_type,
            data: self.data@,
            crc: self.crc,
        }
    }
}

impl<'a> TryFrom<&'a [u8]> for Chunk {
    type Error = Error;

    /// As [`Chunk::try_from`]: decodes a chunk from its wire form.
    fn try_from(value: &'a [u8]) -> (decoded: Result<Chunk, Error>)
        ensures
            match decoded {
                Ok(chunk) => ChunkView::decode(value@) == Ok::<ChunkView, Error>(chunk@),
                Err(e) => ChunkView::decode(value@) == Err::<ChunkView, Error>(e),
            },
    {
        Chunk::try_from(value)
    }
}

impl<'a> vstd::std_specs::convert::TryFromSpecImpl<&'a [u8]> for Chunk {
    /// The conversion is described by the `ensures` of `try_from`, over the
    /// view of the chunk, not by a chunk given here.
    open spec fn obeys_try_from_spec() -> bool {
        false
    }

    open spec fn try_from_spec(value: &'a [u8]) -> Result<Chunk, Error> {
        arbitrary()
    }
}

/// Reads the first four bytes of `input` as a big-endian integer.
pub fn read_be_u32(input: &[u8]) -> (value: u32)
    requires
        input@.len() >= 4,
    ensures
        value == be_u32(input@),
{
    let b0: u32 = input[0] as u32;
    let b1: u32 = input[1] as u32;
    let b2: u32 = input[2] as u32;
    let b3: u32 = input[3] as u32;
    b0 * 0x100_0000 + b1 * 0x1_0000 + b2 * 0x100 + b3
}

/// Takes a buffer apart into the type and the data of the chunk that it
/// frames, given the checksum `computed` of the part that its checksum field
/// covers. Refuses it with [`Error::Format`] where it is too short or its
/// length field disagrees with its size, and with [`Error::CrcMismatch`]
/// where its checksum field is not `computed`.
pub fn split_frame(bytes: &[u8], computed: u32) -> (parts: Result<(ChunkType, Vec<u8>), Error>)
    ensures
        match parts {
            Ok((chunk_type, data)) => ChunkView::frame(bytes@, computed) matches Ok(v)
                && v.chunk_type == chunk_type && v.data == data@,
            Err(e) => ChunkView::frame(bytes@, computed) == Err::<ChunkView, Error>(e),
        },
{
    let n = bytes.len();
    if n < MIN_CHUNK_LEN {
        return Err(Error::Format);
    }
    let declared = read_be_u32(bytes);
    if declared as usize != n - MIN_CHUNK_LEN {
        return Err(Error::Format);
    }
    let stored = read_be_u32(slice_subrange(bytes, n - 4, n));
    if stored != computed {
        return Err(Error::CrcMismatch);
    }
    let tag: [u8; 4] = [bytes[4], bytes[5], bytes[6], bytes[7]];
    match ChunkType::try_from(tag) {
        Ok(chunk_type) => Ok((chunk_type, slice_to_vec(slice_subrange(bytes, 8, n - 4)))),
        Err(e) => Err(e),
    }
}

impl Chunk {
    #[verifier::type_invariant]
    spec fn inv(self) -> bool {
        self@.wf()
    }

    /// Makes a chunk of a type and a payload. The length field and the
    /// checksum are computed from them.
    pub fn new(chunk_type: ChunkType, data: Vec<u8>) -> (chunk: Chunk)
        requires
            data@.len() <= u32::MAX,
        ensures
            chunk@ == ChunkView::fresh(chunk_type, data@),
    {
        let data_length = data.len() as u32;
        let mut crc_source: Vec<u8> = Vec::new();
        crc_source.extend_from_slice(chunk_type.bytes().as_slice());
        crc_source.extend_from_slice(data.as_slice());
        assert(crc_source@ =~= chunk_type@ + data@);
        let crc = checksum(crc_source.as_slice());
        Chunk { data, chunk_type, crc, data_length }
    }

    /// Decodes a chunk from its wire form.
    ///
    /// Fails with [`Error::Format`] where the buffer has fewer than twelve
    /// bytes or its length field is not its size less twelve, and with
    /// [`Error::CrcMismatch`] where its checksum field is not the checksum of
    /// its type and data. Any four bytes are accepted as the type.
    pub fn try_from(value: &[u8]) -> (decoded: Result<Chunk, Error>)
        ensures
            match decoded {
                Ok(chunk) => ChunkView::decode(value@) == Ok::<ChunkView, Error>(chunk@),
                Err(e) => ChunkView::decode(value@) == Err::<ChunkView, Error>(e),
            },
    {
        let n = value.len();
        if n < MIN_CHUNK_LEN {
            return Err(Error::Format);
        }
        let crc = checksum(slice_subrange(value, 4, n - 4));
        match split_frame(value, crc) {
            Ok((chunk_type, data)) => {
                assert(chunk_type@ + data@ =~= guarded(value@));
                Ok(Chunk { data, chunk_type, crc, data_length: (n - MIN_CHUNK_LEN) as u32 })
            },
            Err(e) => Err(e),
        }
    }

    /// The length field: the number of bytes of data.
    pub fn length(&self) -> (length: u32)
        ensures
            length == self@.length,
            length == self@.data.len(),
    {
        proof {
            use_type_invariant(self);
        }
        self.data_length
    }

    /// The type tag.
    pub fn chunk_type(&self) -> (chunk_type: &ChunkType)
        ensures
            *chunk_type == self@.chunk_type,
    {
        &self.chunk_type
    }

    /// The payload.
    pub fn data(&self) -> (data: &[u8])
        ensures
            data@ == self@.data,
    {
        self.data.as_slice()
    }

    /// The checksum field: the CRC-32 of type and data.
    pub fn crc(&self) -> (crc: u32)
        ensures
            crc == self@.crc,
            crc == chunk_crc(self@.chunk_type, self@.data),
    {
        proof {
            use_type_invariant(self);
        }
        self.crc
    }

    /// The payload as text. Fails with [`Error::Encoding`] where the payload
    /// is not valid UTF-8.
    pub fn data_as_string(&self) -> (text: Result<String, Error>)
        ensures
            match text {
                Ok(s) => valid_utf8(self@.data) && s@ == decode_utf8(self@.data),
                Err(e) => !valid_utf8(self@.data) && e == Error::Encoding,
            },
    {
        decode_text(self.data.clone())
    }

    /// The payload as text for display: its UTF-8 reading where it has one,
    /// and otherwise one character for each byte.
    pub fn to_string(&self) -> (text: String)
        ensures
            text@ == lossy_text(self@.data),
    {
        decode_text_lossy(self.data.as_slice())
    }

    /// The wire form of the chunk: length, type, data and checksum. The
    /// fields of the chunk agree, so decoding the bytes gives the chunk back.
    pub fn as_bytes(&self) -> (bytes: Vec<u8>)
        ensures
            bytes@ == self@.encode(),
            bytes@.len() == self@.data.len() + 12,
            self@.wf(),
            ChunkView::decode(bytes@) == Ok::<ChunkView, Error>(self@),
    {
        proof {
            use_type_invariant(self);
            lemma_decode_encode(self@);
        }
        let mut bytes: Vec<u8> = Vec::new();
        bytes.extend_from_slice(to_be_bytes(self.data_length).as_slice());
        bytes.extend_from_slice(self.chunk_type.bytes().as_slice());
        bytes.extend_from_slice(self.data.as_slice());
        bytes.extend_from_slice(to_be_bytes(self.crc).as_slice());
        assert(bytes@ =~= self@.encode());
        bytes
    }
}

/// Decoding undoes encoding: the wire form of a chunk whose fields agree
/// decodes to that chunk, with the same length, type, data and checksum.
pub proof fn lemma_decode_encode(v: ChunkView)
    requires
        v.wf(),
    ensures
        v.encode().len() == v.data.len() + 12,
        ChunkView::decode(v.encode()) == Ok::<ChunkView, Error>(v),
{
    let bytes = v.encode();
    let n = bytes.len() as int;
    lemma_be_u32_of_be_bytes(v.length);
    lemma_be_u32_of_be_bytes(v.crc);
    assert(bytes.subrange(n - 4, n) =~= be_bytes(v.crc));
    assert(guarded(bytes) =~= v.chunk_type@ + v.data);
    assert(bytes.subrange(8, n - 4) =~= v.data);
    assert(type_at(bytes).data =~= v.chunk_type.data);
    assert(be_u32(bytes) == be_u32(be_bytes(v.length)));
}

/// Encoding undoes decoding: a buffer that decodes is the wire form of what
/// it decodes to, and the fields of that agree.
pub proof fn lemma_encode_decode(bytes: Seq<u8>)
    requires
        ChunkView::decode(bytes) is Ok,
    ensures
        ChunkView::decode(bytes)->Ok_0.wf(),
        ChunkView::decode(bytes)->Ok_0.encode() == bytes,
{
    let v = ChunkView::decode(bytes)->Ok_0;
    let n = bytes.len() as int;
    lemma_be_bytes_of_be_u32(bytes.subrange(0, 4));
    lemma_be_bytes_of_be_u32(bytes.subrange(n - 4, n));
    assert(be_u32(bytes) == be_u32(bytes.subrange(0, 4)));
    assert(v.chunk_type@ + v.data =~= guarded(bytes));
    assert(v.encode() =~= bytes);
}

/// A chunk that was made of a type and a payload survives the wire: its
/// encoding decodes to a chunk of equal length, type, data and checksum.
pub proof fn lemma_round_trip(chunk_type: ChunkType, data: Seq<u8>)
    requires
        data.len() <= u32::MAX,
    ensures
        ChunkView::fresh(chunk_type, data).wf(),
        ChunkView::decode(ChunkView::fresh(chunk_type, data).encode()) == Ok::<ChunkView, Error>(
            ChunkView::fresh(chunk_type, data),
        ),
{
    lemma_decode_encode(ChunkView::fresh(chunk_type, data));
}

/// The checksum of a chunk depends on the bytes of its type and on its data
/// alone: equal bytes, equal checksum.
pub proof fn lemma_crc_determined_by_bytes(
    type1: ChunkType,
    data1: Seq<u8>,
    type2: ChunkType,
    data2: Seq<u8>,
)
    requires
        type1@ == type2@,
        data1 == data2,
    ensures
        ChunkView::fresh(type1, data1).crc == ChunkView::fresh(type2, data2).crc,
{
}

/// A buffer that keeps the length and the checksum field of an encoded chunk
/// but differs from it in type or data never decodes to that chunk. It is
/// refused with [`Error::CrcMismatch`], unless the changed type and data
/// happen to have the checksum of the old: only then does it decode at all,
/// to another chunk.
pub proof fn lemma_tamper_detected(v: ChunkView, bad: Seq<u8>)
    requires
        v.wf(),
        bad.len() == v.encode().len(),
        bad.subrange(0, 4) == v.encode().subrange(0, 4),
        bad.subrange(bad.len() - 4, bad.len() as int) == v.encode().subrange(
            bad.len() - 4,
            bad.len() as int,
        ),
        bad != v.encode(),
    ensures
        guarded(bad) != guarded(v.encode()),
        ChunkView::decode(bad) != Ok::<ChunkView, Error>(v),
        ChunkView::decode(bad) is Ok <==> crc32(guarded(bad)) == crc32(guarded(v.encode())),
        ChunkView::decode(bad) is Err ==> ChunkView::decode(bad) == Err::<ChunkView, Error>(
            Error::CrcMismatch,
        ),
{
    let good = v.encode();
    let n = good.len() as int;
    lemma_decode_encode(v);
    assert(guarded(good) =~= v.chunk_type@ + v.data);
    assert(be_u32(bad) == be_u32(good)) by {
        assert(bad.subrange(0, 4)[0] == bad[0]);
        assert(bad.subrange(0, 4)[1] == bad[1]);
        assert(bad.subrange(0, 4)[2] == bad[2]);
        assert(bad.subrange(0, 4)[3] == bad[3]);
        assert(good.subrange(0, 4)[0] == good[0]);
        assert(good.subrange(0, 4)[1] == good[1]);
        assert(good.subrange(0, 4)[2] == good[2]);
        assert(good.subrange(0, 4)[3] == good[3]);
    }
    if guarded(bad) == guarded(good) {
        assert(bad =~= bad.subrange(0, 4) + guarded(bad) + bad.subrange(n - 4, n));
        assert(good =~= good.subrange(0, 4) + guarded(good) + good.subrange(n - 4, n));
        assert(false);
    }
    if ChunkView::decode(bad) == Ok::<ChunkView, Error>(v) {
        lemma_encode_decode(bad);
        assert(false);
    }
}

/// The bytes `bytes` with one bit flipped: bit `bit` of the byte at `at`.
pub open spec fn flip_bit(bytes: Seq<u8>, at: int, bit: u8) -> Seq<u8>
    recommends
        0 <= at < bytes.len(),
        bit < 8,
{
    bytes.update(at, bytes[at] ^ (1u8 << bit))
}

/// Flipping one bit in the type or the data of an encoded chunk is noticed:
/// the buffer no longer decodes to the chunk, and it is refused with
/// [`Error::CrcMismatch`] unless the flipped bytes have the checksum of the
/// old.
pub proof fn lemma_bit_flip_detected(v: ChunkView, at: int, bit: u8)
    requires
        v.wf(),
        4 <= at < 8 + v.data.len(),
        bit < 8,
    ensures
        guarded(flip_bit(v.encode(), at, bit)) != guarded(v.encode()),
        ChunkView::decode(flip_bit(v.encode(), at, bit)) != Ok::<ChunkView, Error>(v),
        crc32(guarded(flip_bit(v.encode(), at, bit))) != crc32(guarded(v.encode()))
            ==> ChunkView::decode(flip_bit(v.encode(), at, bit)) == Err::<ChunkView, Error>(
            Error::CrcMismatch,
        ),
{
    let good = v.encode();
    let bad = flip_bit(good, at, bit);
    let n = good.len() as int;
    let byte = good[at];
    lemma_decode_encode(v);
    assert(byte ^ (1u8 << bit) != byte) by (bit_vector)
        requires
            bit < 8,
    ;
    assert(bad[at] != good[at]);
    assert(bad.subrange(0, 4) =~= good.subrange(0, 4));
    assert(bad.subrange(n - 4, n) =~= good.subrange(n - 4, n));
    lemma_tamper_detected(v, bad);
}

/// No buffer of fewer than twelve bytes is a chunk.
pub proof fn lemma_short_buffer_refused(bytes: Seq<u8>)
    requires
        bytes.len() < 12,
    ensures
        ChunkView::decode(bytes) == Err::<ChunkView, Error>(Error::Format),
{
}

/// A buffer of exactly twelve bytes is a chunk where its length field is
/// zero and its checksum field is the checksum of its type alone; the chunk
/// then has no data.
pub proof fn lemma_smallest_chunk(bytes: Seq<u8>)
    requires
        bytes.len() == 12,
    ensures
        ChunkView::decode(bytes) is Ok <==> be_u32(bytes) == 0 && be_u32(bytes.subrange(8, 12))
            == crc32(bytes.subrange(4, 8)),
        ChunkView::decode(bytes) matches Ok(v) ==> v.length == 0 && v.data.len() == 0
            && v.chunk_type == type_at(bytes),
{
}

} // verus!
