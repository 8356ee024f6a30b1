//! Reading bytes as text.

use crate::error::Error;
use std::string::FromUtf8Error;
use vstd::prelude::*;
use vstd::utf8::{decode_utf8, pop_first_scalar, valid_utf8};

verus! {

/// The error of `String::from_utf8`, carried through unread.
#[verifier::external_type_specification]
#[verifier::external_body]
pub struct ExFromUtf8Error(FromUtf8Error);

/// Trusted: `String::from_utf8` succeeds exactly on valid UTF-8, and the
/// string it then returns is the text that the bytes encode.
pub assume_specification[ String::from_utf8 ](bytes: Vec<u8>) -> (text: Result<
    String,
    FromUtf8Error,
>)
    ensures
        text is Ok <==> valid_utf8(bytes@),
        text matches Ok(s) ==> s@ == decode_utf8(bytes@),
;

/// Trusted: `String::push` appends the character to the string.
pub assume_specification[ String::push ](text: &mut String, c: char)
    ensures
        final(text)@ == old(text)@.push(c),
;

/// One character for each byte: the character whose code point is the byte.
pub open spec fn bytewise_text(bytes: Seq<u8>) -> Seq<char> {
    Seq::new(bytes.len(), |i: int| bytes[i] as char)
}

/// A best-effort reading of `bytes`: their UTF-8 text where they have one,
/// and otherwise one character for each byte.
pub open spec fn lossy_text(bytes: Seq<u8>) -> Seq<char> {
    if valid_utf8(bytes) {
        decode_utf8(bytes)
    } else {
        bytewise_text(bytes)
    }
}

/// Whether every byte of `bytes` is an ASCII character.
pub open spec fn is_ascii_bytes(bytes: Seq<u8>) -> bool {
    forall|i: int| 0 <= i < bytes.len() ==> #[trigger] bytes[i] < 0x80
}

/// ASCII bytes are valid UTF-8, and their text has one character for each
/// byte: on them the best-effort reading is the plain one.
pub proof fn lemma_ascii_text(bytes: Seq<u8>)
    requires
        is_ascii_bytes(bytes),
    ensures
        valid_utf8(bytes),
        decode_utf8(bytes) == bytewise_text(bytes),
        lossy_text(bytes) == bytewise_text(bytes),
    decreases bytes.len(),
{
    if bytes.len() == 0 {
        assert(decode_utf8(bytes) =~= bytewise_text(bytes));
    } else {
        let first = bytes[0];
        let rest = bytes.subrange(1, bytes.len() as int);
        assert(first < 0x80);
        assert(first & 0x7f == first) by (bit_vector)
            requires
                first < 0x80,
        ;
        assert forall|i: int| 0 <= i < rest.len() implies #[trigger] rest[i] < 0x80 by {
            assert(rest[i] == bytes[i + 1]);
        }
        lemma_ascii_text(rest);
        assert(pop_first_scalar(bytes) == rest);
        assert(valid_utf8(bytes));
        assert(decode_utf8(bytes) =~= bytewise_text(bytes));
    }
}

/// Reads `bytes` as UTF-8.
pub fn decode_text(bytes: Vec<u8>) -> (text: Result<String, Error>)
    ensures
        text is Ok <==> valid_utf8(bytes@),
        text matches Ok(s) ==> s@ == decode_utf8(bytes@),
        text matches Err(e) ==> e == Error::Encoding,
{
    match String::from_utf8(bytes) {
        Ok(s) => Ok(s),
        Err(_) => Err(Error::Encoding),
    }
}

/// Reads `bytes` as text, whatever they hold.
pub fn decode_text_lossy(bytes: &[u8]) -> (text: String)
    ensures
        text@ == lossy_text(bytes@),
{
    match String::from_utf8(vstd::slice::slice_to_vec(bytes)) {
        Ok(s) => s,
        Err(_) => {
            let mut text = String::new();
            let mut i: usize = 0;
            while i < bytes.len()
                invariant
                    i <= bytes.len(),
                    text@ == bytewise_text(bytes@.subrange(0, i as int)),
                decreases bytes.len() - i,
            {
                text.push(bytes[i] as char);
                i += 1;
                assert(text@ =~= bytewise_text(bytes@.subrange(0, i as int)));
            }
            assert(bytes@.subrange(0, i as int) =~= bytes@);
            text
        }
    }
}

} // verus!
