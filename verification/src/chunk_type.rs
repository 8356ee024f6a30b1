//! The four-byte type tag of a chunk.
//!
//! A tag is four bytes, by convention four ASCII letters. Bit 5 of each byte,
//! which is the case bit of a letter, carries one flag: whether the chunk is
//! critical, whether it is public, whether the reserved bit is clear, and
//! whether the chunk is safe to copy.

use crate::error::Error;
use crate::text::{bytewise_text, decode_text_lossy, lemma_ascii_text, lossy_text};
use vstd::prelude::*;
use vstd::utf8::{encode_utf8, is_ascii_chars};

verus! {

/// The flag bit of a tag byte: the bit that tells a lower-case letter from an
/// upper-case one.
pub const FLAG_BIT: u8 = 0x20;

/// Whether `byte` is an ASCII letter, `A` to `Z` or `a` to `z`.
pub open spec fn is_letter(byte: u8) -> bool {
    (0x41 <= byte <= 0x5a) || (0x61 <= byte <= 0x7a)
}

/// Whether `c` is an ASCII letter, `A` to `Z` or `a` to `z`.
pub open spec fn is_letter_char(c: char) -> bool {
    ('A' <= c <= 'Z') || ('a' <= c <= 'z')
}

/// Whether `text` can be given as the text of a chunk type: exactly four
/// characters, each an ASCII letter.
pub open spec fn is_type_text(text: Seq<char>) -> bool {
    &&& text.len() == 4
    &&& forall|i: int| 0 <= i < 4 ==> is_letter_char(#[trigger] text[i])
}

/// Whether `bytes` are exactly four bytes, each an ASCII letter.
pub open spec fn is_four_letters(bytes: Seq<u8>) -> bool {
    &&& bytes.len() == 4
    &&& forall|i: int| 0 <= i < 4 ==> is_letter(#[trigger] bytes[i])
}

/// Whether the flag bit of `byte`, bit 5, is clear: whether the byte, counted
/// in thirty-twos, is even.
pub open spec fn flag_clear(byte: u8) -> bool {
    (byte / 0x20) % 2 == 0
}

/// Tests the flag bit of `byte`.
pub fn is_flag_clear(byte: u8) -> (clear: bool)
    ensures
        clear == flag_clear(byte),
{
    assert((byte & 0x20 == 0) == ((byte / 0x20) % 2 == 0)) by (bit_vector);
    byte & FLAG_BIT == 0
}

/// Tells whether a byte is an ASCII letter.
pub fn is_ascii_letter(byte: u8) -> (letter: bool)
    ensures
        letter == is_letter(byte),
{
    (0x41 <= byte && byte <= 0x5a) || (0x61 <= byte && byte <= 0x7a)
}

/// The type tag of a chunk.
#[derive(Clone, Copy, Debug, Eq)]
pub struct ChunkType {
    /// The four bytes of the tag, as they stand in a file.
    pub data: [u8; 4],
}

impl View for ChunkType {
    type V = Seq<u8>;

    /// The four bytes of the tag.
    open spec fn view(&self) -> Seq<u8> {
        self.data@
    }
}

impl PartialEq for ChunkType {
    /// Two tags are equal where their four bytes are.
    fn eq(&self, other: &ChunkType) -> (equal: bool) {
        let equal = self.data[0] == other.data[0] && self.data[1] == other.data[1] && self.data[2]
            == other.data[2] && self.data[3] == other.data[3];
        assert(equal == (self.data =~= other.data));
        equal
    }
}

impl vstd::std_specs::cmp::PartialEqSpecImpl for ChunkType {
    open spec fn obeys_eq_spec() -> bool {
        true
    }

    open spec fn eq_spec(&self, other: &ChunkType) -> bool {
        self.data == other.data
    }
}

impl TryFrom<[u8; 4]> for ChunkType {
    type Error = Error;

    /// As [`ChunkType::try_from`]: any four bytes make a tag.
    fn try_from(value: [u8; 4]) -> (made: Result<ChunkType, Error>) {
        ChunkType::try_from(value)
    }
}

impl vstd::std_specs::convert::TryFromSpecImpl<[u8; 4]> for ChunkType {
    open spec fn obeys_try_from_spec() -> bool {
        true
    }

    open spec fn try_from_spec(value: [u8; 4]) -> Result<ChunkType, Error> {
        Ok(ChunkType { data: value })
    }
}

impl std::str::FromStr for ChunkType {
    type Err = Error;

    /// As [`ChunkType::from_str`]: four ASCII letters make a tag.
    fn from_str(s: &str) -> (made: Result<ChunkType, Error>)
        ensures
            made == ChunkType::parse(s@),
    {
        ChunkType::from_str(s)
    }
}

impl ChunkType {
    /// The tag that `text` spells: four ASCII letters give the tag that
    /// holds them, one in each byte, and any other text is malformed.
    pub open spec fn parse(text: Seq<char>) -> Result<ChunkType, Error> {
        if is_type_text(text) {
            Ok(ChunkType { data: [text[0] as u8, text[1] as u8, text[2] as u8, text[3] as u8] })
        } else {
            Err(Error::Format)
        }
    }

    /// Whether the chunk is critical: the flag bit of the first byte is clear.
    pub open spec fn spec_is_critical(&self) -> bool {
        flag_clear(self.data[0])
    }

    /// Whether the chunk is public: the flag bit of the second byte is clear.
    pub open spec fn spec_is_public(&self) -> bool {
        flag_clear(self.data[1])
    }

    /// Whether the reserved bit is valid: the flag bit of the third byte is
    /// clear.
    pub open spec fn spec_is_reserved_bit_valid(&self) -> bool {
        flag_clear(self.data[2])
    }

    /// Whether the chunk is safe to copy: the flag bit of the fourth byte is
    /// set.
    pub open spec fn spec_is_safe_to_copy(&self) -> bool {
        !flag_clear(self.data[3])
    }

    /// Whether the tag is valid: its reserved bit is.
    pub open spec fn spec_is_valid(&self) -> bool {
        self.spec_is_reserved_bit_valid()
    }

    /// Takes four bytes as a tag, whatever they are. A tag read from a file
    /// is kept even where it is no text: [`ChunkType::is_valid`] tells
    /// afterwards.
    pub fn try_from(value: [u8; 4]) -> (made: Result<ChunkType, Error>)
        ensures
            made == Ok::<ChunkType, Error>(ChunkType { data: value }),
    {
        Ok(ChunkType { data: value })
    }

    /// Reads a tag from text. The text must be exactly four ASCII letters;
    /// any other is refused with [`Error::Format`].
    pub fn from_str(s: &str) -> (made: Result<ChunkType, Error>)
        ensures
            made == ChunkType::parse(s@),
    {
        let bytes = s.as_bytes();
        proof {
            lemma_type_text_bytes(s@);
        }
        if bytes.len() != 4 {
            return Err(Error::Format);
        }
        let data: [u8; 4] = [bytes[0], bytes[1], bytes[2], bytes[3]];
        if is_ascii_letter(data[0]) && is_ascii_letter(data[1]) && is_ascii_letter(data[2])
            && is_ascii_letter(data[3]) {
            Ok(ChunkType { data })
        } else {
            Err(Error::Format)
        }
    }

    /// The four bytes of the tag.
    pub fn bytes(&self) -> (bytes: [u8; 4])
        ensures
            bytes == self.data,
    {
        self.data
    }

    /// The tag as text: its UTF-8 reading, which for a tag of ASCII bytes is
    /// one character for each byte; where the bytes are no UTF-8, one
    /// character for each byte all the same.
    pub fn to_string(&self) -> (text: String)
        ensures
            text@ == lossy_text(self@),
    {
        decode_text_lossy(self.data.as_slice())
    }

    /// Whether the tag is valid. Only the reserved bit decides; the other
    /// flags inform.
    #[verifier::when_used_as_spec(spec_is_valid)]
    pub fn is_valid(&self) -> (valid: bool)
        ensures
            valid == self.spec_is_valid(),
    {
        self.is_reserved_bit_valid()
    }

    /// Whether the chunk is critical, that is, not ancillary.
    #[verifier::when_used_as_spec(spec_is_critical)]
    pub fn is_critical(&self) -> (critical: bool)
        ensures
            critical == self.spec_is_critical(),
    {
        is_flag_clear(self.data[0])
    }

    /// Whether the chunk is public, that is, not private.
    #[verifier::when_used_as_spec(spec_is_public)]
    pub fn is_public(&self) -> (public: bool)
        ensures
            public == self.spec_is_public(),
    {
        is_flag_clear(self.data[1])
    }

    /// Whether the reserved bit of the tag is as the format asks.
    #[verifier::when_used_as_spec(spec_is_reserved_bit_valid)]
    pub fn is_reserved_bit_valid(&self) -> (valid: bool)
        ensures
            valid == self.spec_is_reserved_bit_valid(),
    {
        is_flag_clear(self.data[2])
    }

    /// Whether an editor that does not know the chunk may copy it.
    #[verifier::when_used_as_spec(spec_is_safe_to_copy)]
    pub fn is_safe_to_copy(&self) -> (safe: bool)
        ensures
            safe == self.spec_is_safe_to_copy(),
    {
        !is_flag_clear(self.data[3])
    }
}

/// A text is four ASCII letters exactly where its UTF-8 bytes are four
/// bytes, each an ASCII letter; the bytes are then the letters.
pub proof fn lemma_type_text_bytes(text: Seq<char>)
    ensures
        is_type_text(text) <==> is_four_letters(encode_utf8(text)),
        is_type_text(text) ==> forall|i: int|
            0 <= i < 4 ==> #[trigger] encode_utf8(text)[i] == text[i] as u8,
        ChunkType::parse(text) matches Ok(tag) ==> tag@ == encode_utf8(text),
{
    broadcast use vstd::utf8::encode_utf8_decode_utf8;
    broadcast use vstd::utf8::is_ascii_chars_encode_utf8;

    let bytes = encode_utf8(text);
    if is_four_letters(bytes) {
        assert forall|i: int| 0 <= i < bytes.len() implies #[trigger] bytes[i] < 0x80 by {
            assert(is_letter(bytes[i]));
        }
        lemma_ascii_text(bytes);
        assert(text == bytewise_text(bytes));
        assert forall|i: int| 0 <= i < 4 implies is_letter_char(#[trigger] text[i]) by {
            assert(is_letter(bytes[i]));
        }
    }
    if is_type_text(text) {
        assert(is_ascii_chars(text)) by {
            assert forall|i: int| 0 <= i < text.len() implies '\0' <= #[trigger] text[i]
                <= '\u{7f}' by {
                assert(is_letter_char(text[i]));
            }
        }
        assert(bytes =~= Seq::new(text.len(), |i: int| text[i] as u8));
        assert forall|i: int| 0 <= i < 4 implies is_letter(#[trigger] bytes[i]) by {
            assert(is_letter_char(text[i]));
        }
        assert(ChunkType::parse(text)->Ok_0@ =~= bytes);
    }
}

/// A tag that was given as text reads back as that text.
pub proof fn lemma_text_round_trip(text: Seq<char>)
    requires
        is_type_text(text),
    ensures
        ChunkType::parse(text) is Ok,
        lossy_text(ChunkType::parse(text)->Ok_0@) == text,
{
    broadcast use vstd::utf8::encode_utf8_decode_utf8;
    broadcast use vstd::utf8::encode_utf8_valid_utf8;

    lemma_type_text_bytes(text);
}

/// In a letter the flag bit is the case bit: it is clear in `A` to `Z` and
/// set in `a` to `z`. So a tag of letters is critical, public and valid where
/// its first, second and third letter is a capital, and safe to copy where its
/// fourth is not.
pub proof fn lemma_flag_is_case(byte: u8)
    requires
        is_letter(byte),
    ensures
        flag_clear(byte) <==> 0x41 <= byte <= 0x5a,
{
}

} // verus!
