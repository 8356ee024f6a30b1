//! Big-endian encoding of 32-bit integers.

use vstd::prelude::*;

verus! {

/// The integer whose big-endian encoding is the first four bytes of `bytes`.
pub open spec fn be_u32(bytes: Seq<u8>) -> u32
    recommends
        bytes.len() >= 4,
{
    (bytes[0] as int * 0x100_0000 + bytes[1] as int * 0x1_0000 + bytes[2] as int * 0x100
        + bytes[3] as int) as u32
}

/// The four bytes of the big-endian encoding of `value`.
///
/// The definition is opaque, so that proofs about buffers go by the two
/// lemmas below and not by division: `reveal(be_bytes)` brings it in.
#[verifier::opaque]
pub open spec fn be_bytes(value: u32) -> Seq<u8> {
    seq![
        (value / 0x100_0000) as u8,
        (value / 0x1_0000 % 0x100) as u8,
        (value / 0x100 % 0x100) as u8,
        (value % 0x100) as u8,
    ]
}

/// Decoding undoes encoding.
pub proof fn lemma_be_u32_of_be_bytes(value: u32)
    ensures
        be_bytes(value).len() == 4,
        be_u32(be_bytes(value)) == value,
{
    reveal(be_bytes);
}

/// Encoding undoes decoding of any four bytes.
pub proof fn lemma_be_bytes_of_be_u32(bytes: Seq<u8>)
    requires
        bytes.len() == 4,
    ensures
        be_bytes(be_u32(bytes)) == bytes,
{
    reveal(be_bytes);
    lemma_digits(bytes[0] as int, bytes[1] as int, bytes[2] as int, bytes[3] as int);
    assert(be_bytes(be_u32(bytes)) =~= bytes);
}

/// Four base-256 digits can be read back from the number they spell.
proof fn lemma_digits(b0: int, b1: int, b2: int, b3: int)
    requires
        0 <= b0 < 0x100,
        0 <= b1 < 0x100,
        0 <= b2 < 0x100,
        0 <= b3 < 0x100,
    ensures
        ({
            let v = b0 * 0x100_0000 + b1 * 0x1_0000 + b2 * 0x100 + b3;
            &&& 0 <= v <= u32::MAX
            &&& v / 0x100_0000 == b0
            &&& v / 0x1_0000 % 0x100 == b1
            &&& v / 0x100 % 0x100 == b2
            &&& v % 0x100 == b3
        }),
{
    let v = b0 * 0x100_0000 + b1 * 0x1_0000 + b2 * 0x100 + b3;
    let hi = b0 * 0x100 + b1;
    let mid = hi * 0x100 + b2;
    assert(v == mid * 0x100 + b3);
    assert(v / 0x100 == mid && v % 0x100 == b3);
    assert(mid / 0x100 == hi && mid % 0x100 == b2);
    assert(v == hi * 0x1_0000 + (b2 * 0x100 + b3));
    assert(v / 0x1_0000 == hi);
    assert(hi / 0x100 == b0 && hi % 0x100 == b1);
    assert(v == b0 * 0x100_0000 + (b1 * 0x1_0000 + b2 * 0x100 + b3));
    assert(v / 0x100_0000 == b0);
}

/// The big-endian encoding of `value`.
pub fn to_be_bytes(value: u32) -> (bytes: [u8; 4])
    ensures
        bytes@ == be_bytes(value),
{
    let bytes: [u8; 4] = [
        (value / 0x100_0000) as u8,
        (value / 0x1_0000 % 0x100) as u8,
        (value / 0x100 % 0x100) as u8,
        (value % 0x100) as u8,
    ];
    proof {
        reveal(be_bytes);
        assert(bytes@ =~= be_bytes(value));
    }
    bytes
}

} // verus!
