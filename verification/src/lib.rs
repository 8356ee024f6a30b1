//! A codec for PNG chunks: the length-prefixed, type-tagged, checksummed
//! records that make up a PNG file.
//!
//! [`ChunkType`] is the four-byte tag of a chunk, with the flags that the
//! case bits of its letters carry. [`Chunk`] is a whole record: it is made of
//! a tag and a payload or decoded from bytes, and it encodes to bytes that
//! decode to it again. [`Png`] is a file: the PNG signature and the chunks
//! after it.
//!
//! Every function here is verified against its contract. The contracts speak
//! of [`chunk::ChunkView`], the plain values that a chunk holds, and of the
//! functions on bytes beside it. Three things are taken on trust: the CRC-32
//! of the `crc` crate, named [`checksum::crc32`], and `String::from_utf8` and
//! `String::push` of the standard library.

pub mod checksum;
pub mod chunk;
pub mod chunk_type;
pub mod endian;
pub mod error;
pub mod png;
pub mod text;

pub use chunk::Chunk;
pub use chunk_type::ChunkType;
pub use error::Error;
pub use png::Png;
