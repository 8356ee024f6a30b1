use pngme::chunk::{read_be_u32, split_frame, Chunk};
use pngme::chunk_type::ChunkType;
use pngme::endian::to_be_bytes;
use pngme::text::{decode_text, decode_text_lossy};
use pngme::Error;
use std::convert::TryFrom;
use std::str::FromStr;

fn framed(data_length: u32, chunk_type: &[u8], message_bytes: &[u8], crc: u32) -> Vec<u8> {
    data_length
        .to_be_bytes()
        .iter()
        .chain(chunk_type.iter())
        .chain(message_bytes.iter())
        .chain(crc.to_be_bytes().iter())
        .copied()
        .collect()
}

fn testing_chunk() -> Chunk {
    let data_length: u32 = 42;
    let chunk_type = "RuSt".as_bytes();
    let message_bytes = "This is where your secret message will be!".as_bytes();
    let crc: u32 = 2882656334;

    let chunk_data: Vec<u8> = data_length
        .to_be_bytes()
        .iter()
        .chain(chunk_type.iter())
        .chain(message_bytes.iter())
        .chain(crc.to_be_bytes().iter())
        .copied()
        .collect();

    Chunk::try_from(chunk_data.as_ref()).unwrap()
}

#[test]
fn test_new_chunk() {
    let chunk_type = ChunkType::from_str("RuSt").unwrap();
    let data = "This is where your secret message will be!"
        .as_bytes()
        .to_vec();
    let chunk = Chunk::new(chunk_type, data);
    assert_eq!(chunk.length(), 42);
    assert_eq!(chunk.crc(), 2882656334);
}

#[test]
fn test_chunk_length() {
    let chunk = testing_chunk();
    assert_eq!(chunk.length(), 42);
}

#[test]
fn test_chunk_type() {
    let chunk = testing_chunk();
    assert_eq!(chunk.chunk_type().to_string(), String::from("RuSt"));
}

#[test]
fn test_chunk_string() {
    let chunk = testing_chunk();
    let chunk_string = chunk.data_as_string().unwrap();
    let expected_chunk_string = String::from("This is where your secret message will be!");
    assert_eq!(chunk_string, expected_chunk_string);
}

#[test]
fn test_chunk_crc() {
    let chunk = testing_chunk();
    assert_eq!(chunk.crc(), 2882656334);
}

#[test]
fn test_valid_chunk_from_bytes() {
    let data_length: u32 = 42;
    let chunk_type = "RuSt".as_bytes();
    let message_bytes = "This is where your secret message will be!".as_bytes();
    let crc: u32 = 2882656334;

    let chunk_data: Vec<u8> = data_length
        .to_be_bytes()
        .iter()
        .chain(chunk_type.iter())
        .chain(message_bytes.iter())
        .chain(crc.to_be_bytes().iter())
        .copied()
        .collect();

    let chunk = Chunk::try_from(chunk_data.as_ref()).unwrap();

    let chunk_string = chunk.data_as_string().unwrap();
    let expected_chunk_string = String::from("This is where your secret message will be!");

    assert_eq!(chunk.length(), 42);
    assert_eq!(chunk.chunk_type().to_string(), String::from("RuSt"));
    assert_eq!(chunk_string, expected_chunk_string);
    assert_eq!(chunk.crc(), 2882656334);
}

#[test]
fn test_invalid_chunk_from_bytes() {
    let data_length: u32 = 42;
    let chunk_type = "RuSt".as_bytes();
    let message_bytes = "This is where your secret message will be!".as_bytes();
    let crc: u32 = 2882656333;

    let chunk_data: Vec<u8> = data_length
        .to_be_bytes()
        .iter()
        .chain(chunk_type.iter())
        .chain(message_bytes.iter())
        .chain(crc.to_be_bytes().iter())
        .copied()
        .collect();

    let chunk = Chunk::try_from(chunk_data.as_ref());

    assert!(chunk.is_err());
}

#[test]
pub fn test_chunk_trait_impls() {
    let data_length: u32 = 42;
    let chunk_type = "RuSt".as_bytes();
    let message_bytes = "This is where your secret message will be!".as_bytes();
    let crc: u32 = 2882656334;

    let chunk_data: Vec<u8> = data_length
        .to_be_bytes()
        .iter()
        .chain(chunk_type.iter())
        .chain(message_bytes.iter())
        .chain(crc.to_be_bytes().iter())
        .copied()
        .collect();

    let chunk: Chunk = TryFrom::try_from(chunk_data.as_ref()).unwrap();

    let _chunk_string = format!("{}", chunk.to_string());
}

#[test]
fn chunk_end_to_end() {
    let message = "This is where your secret message will be!";
    let chunk = Chunk::new(ChunkType::from_str("RuSt").unwrap(), message.as_bytes().to_vec());
    let bytes = chunk.as_bytes();
    assert_eq!(message.len(), 42);
    assert_eq!(bytes.len(), 4 + 4 + 42 + 4);
    assert_eq!(&bytes[0..4], &[0u8, 0, 0, 42][..]);
    assert_eq!(&bytes[4..8], "RuSt".as_bytes());
    assert_eq!(&bytes[8..50], message.as_bytes());
    assert_eq!(u32::from_be_bytes([bytes[50], bytes[51], bytes[52], bytes[53]]), 2882656334);
    assert_eq!(bytes, framed(42, b"RuSt", message.as_bytes(), 2882656334));

    let decoded = Chunk::try_from(bytes.as_slice()).unwrap();
    assert_eq!(decoded.data_as_string().unwrap(), message);
    assert_eq!(decoded.to_string(), message);
}

#[test]
fn chunk_round_trip() {
    let payloads: [&[u8]; 5] = [b"", b"a", b"hello, world", &[0, 255, 128, 7], &[0x20; 300]];
    for text in ["RuSt", "IHDR", "tEXt", "zzzz"] {
        for payload in payloads {
            let tag = ChunkType::from_str(text).unwrap();
            let made = Chunk::new(tag, payload.to_vec());
            let decoded = Chunk::try_from(made.as_bytes().as_slice()).unwrap();
            assert_eq!(decoded.chunk_type(), made.chunk_type());
            assert_eq!(decoded.data(), made.data());
            assert_eq!(decoded.crc(), made.crc());
            assert_eq!(decoded.length(), made.length());
            assert_eq!(decoded.length() as usize, payload.len());
            assert_eq!(decoded.data(), payload);
            assert_eq!(decoded.as_bytes(), made.as_bytes());
        }
    }
}

#[test]
fn chunk_crc_is_that_of_type_and_data() {
    let made = Chunk::new(ChunkType::from_str("abcd").unwrap(), b"56789".to_vec());
    let again = Chunk::new(ChunkType::try_from(*b"abcd").unwrap(), vec![53, 54, 55, 56, 57]);
    assert_eq!(made.crc(), again.crc());

    // The check value of CRC-32/ISO-HDLC: the checksum of "123456789".
    let tag = ChunkType::try_from(*b"1234").unwrap();
    assert_eq!(Chunk::new(tag, b"56789".to_vec()).crc(), 0xcbf4_3926);
    assert_eq!(Chunk::new(ChunkType::from_str("IEND").unwrap(), Vec::new()).crc(), 0xae42_6082);
    assert_eq!(Chunk::new(ChunkType::from_str("RuSt").unwrap(), Vec::new()).crc(), 3565422908);
}

#[test]
fn chunk_tamper_detection() {
    let message = "This is where your secret message will be!";
    let good = Chunk::new(ChunkType::from_str("RuSt").unwrap(), message.as_bytes().to_vec())
        .as_bytes();
    for at in 4..good.len() - 4 {
        for bit in 0..8 {
            let mut bad = good.clone();
            bad[at] ^= 1 << bit;
            assert_eq!(Chunk::try_from(bad.as_slice()).unwrap_err(), Error::CrcMismatch);
        }
    }
    for at in good.len() - 4..good.len() {
        for bit in 0..8 {
            let mut bad = good.clone();
            bad[at] ^= 1 << bit;
            assert_eq!(Chunk::try_from(bad.as_slice()).unwrap_err(), Error::CrcMismatch);
        }
    }
    for at in 0..4 {
        for bit in 0..8 {
            let mut bad = good.clone();
            bad[at] ^= 1 << bit;
            assert_eq!(Chunk::try_from(bad.as_slice()).unwrap_err(), Error::Format);
        }
    }
}

#[test]
fn chunk_minimum_size() {
    let smallest = framed(0, b"RuSt", b"", 3565422908);
    assert_eq!(smallest.len(), 12);
    let chunk = Chunk::try_from(smallest.as_slice()).unwrap();
    assert_eq!(chunk.length(), 0);
    assert_eq!(chunk.data(), b"");
    assert_eq!(chunk.crc(), 3565422908);
    assert_eq!(chunk.chunk_type().bytes(), *b"RuSt");
    assert_eq!(chunk.data_as_string().unwrap(), "");

    for len in 0..12 {
        assert_eq!(Chunk::try_from(&smallest[..len]).unwrap_err(), Error::Format);
        assert_eq!(Chunk::try_from(vec![0u8; len].as_slice()).unwrap_err(), Error::Format);
    }
}

#[test]
fn chunk_length_field_must_match() {
    let message = "This is where your secret message will be!".as_bytes();
    for declared in [0u32, 41, 43, 54, u32::MAX] {
        let buffer = framed(declared, b"RuSt", message, 2882656334);
        assert_eq!(Chunk::try_from(buffer.as_slice()).unwrap_err(), Error::Format);
    }
    // A wrong length is reported before a wrong checksum.
    let buffer = framed(41, b"RuSt", message, 2882656333);
    assert_eq!(Chunk::try_from(buffer.as_slice()).unwrap_err(), Error::Format);
    let buffer = framed(42, b"RuSt", message, 2882656333);
    assert_eq!(Chunk::try_from(buffer.as_slice()).unwrap_err(), Error::CrcMismatch);
}

#[test]
fn chunk_decode_accepts_any_type_bytes() {
    let made = Chunk::new(ChunkType::try_from([1, 2, 232, 4]).unwrap(), vec![9, 9]);
    let decoded = Chunk::try_from(made.as_bytes().as_slice()).unwrap();
    assert_eq!(decoded.chunk_type().bytes(), [1, 2, 232, 4]);
    assert_eq!(decoded.data(), &[9u8, 9][..]);
    assert!(!decoded.chunk_type().is_valid());
}

#[test]
fn chunk_data_that_is_no_text() {
    let chunk = Chunk::new(ChunkType::from_str("RuSt").unwrap(), vec![0xff, 0xfe]);
    assert_eq!(chunk.crc(), 2195137865);
    assert_eq!(chunk.data_as_string(), Err(Error::Encoding));
    assert_eq!(chunk.to_string(), "\u{ff}\u{fe}");

    let chunk = Chunk::new(ChunkType::from_str("RuSt").unwrap(), "gr\u{fc}\u{df}e".as_bytes().to_vec());
    assert_eq!(chunk.length(), 7);
    assert_eq!(chunk.data_as_string().unwrap(), "gr\u{fc}\u{df}e");
    assert_eq!(chunk.to_string(), "gr\u{fc}\u{df}e");
}

#[test]
fn split_frame_checks_against_the_given_checksum() {
    let buffer = [0u8, 0, 0, 2, 82, 117, 83, 116, 7, 8, 1, 2, 3, 4];
    let (tag, data) = split_frame(&buffer, 0x0102_0304).unwrap();
    assert_eq!(tag.bytes(), *b"RuSt");
    assert_eq!(data, vec![7, 8]);
    assert_eq!(split_frame(&buffer, 0x0102_0305), Err(Error::CrcMismatch));
    assert_eq!(split_frame(&buffer[..11], 0x0102_0304), Err(Error::Format));
    let long = [0u8, 0, 0, 3, 82, 117, 83, 116, 7, 8, 1, 2, 3, 4];
    assert_eq!(split_frame(&long, 0x0102_0304), Err(Error::Format));
    let empty = [0u8, 0, 0, 0, 82, 117, 83, 116, 0, 0, 0, 0];
    assert_eq!(split_frame(&empty, 0), Ok((ChunkType::try_from(*b"RuSt").unwrap(), Vec::new())));
}

#[test]
fn big_endian_values() {
    assert_eq!(read_be_u32(&[0, 0, 0, 42]), 42);
    assert_eq!(read_be_u32(&[1, 2, 3, 4]), 0x0102_0304);
    assert_eq!(read_be_u32(&[0xab, 0xd1, 0xd8, 0x4e, 9, 9]), 2882656334);
    assert_eq!(read_be_u32(&[255, 255, 255, 255]), u32::MAX);
    assert_eq!(to_be_bytes(42), [0, 0, 0, 42]);
    assert_eq!(to_be_bytes(0x0102_0304), [1, 2, 3, 4]);
    assert_eq!(to_be_bytes(2882656334), [0xab, 0xd1, 0xd8, 0x4e]);
    assert_eq!(to_be_bytes(u32::MAX), [255, 255, 255, 255]);
    for value in [0u32, 1, 255, 256, 65535, 65536, 0x00ff_ffff, 0x0100_0000, 0x8000_0000] {
        assert_eq!(to_be_bytes(value), value.to_be_bytes());
        assert_eq!(read_be_u32(&to_be_bytes(value)), value);
    }
}

#[test]
fn text_of_bytes() {
    assert_eq!(decode_text(b"RuSt".to_vec()), Ok(String::from("RuSt")));
    assert_eq!(decode_text(Vec::new()), Ok(String::new()));
    assert_eq!(decode_text(vec![0xe2, 0x82, 0xac]), Ok(String::from("\u{20ac}")));
    assert_eq!(decode_text(vec![0xe2, 0x82]), Err(Error::Encoding));
    assert_eq!(decode_text(vec![0xc0, 0x80]), Err(Error::Encoding));
    assert_eq!(decode_text(vec![0xed, 0xa0, 0x80]), Err(Error::Encoding));
    assert_eq!(decode_text(vec![0x80]), Err(Error::Encoding));

    assert_eq!(decode_text_lossy(b"RuSt"), "RuSt");
    assert_eq!(decode_text_lossy(&[0xe2, 0x82, 0xac]), "\u{20ac}");
    assert_eq!(decode_text_lossy(&[0xe2, 0x82]), "\u{e2}\u{82}");
    assert_eq!(decode_text_lossy(&[0x41, 0x80, 0x42]), "A\u{80}B");
    assert_eq!(decode_text_lossy(&[]), "");
}

#[test]
fn error_messages() {
    assert_eq!(Error::Format.message(), "malformed chunk");
    assert_eq!(Error::CrcMismatch.message(), "checksum mismatch");
    assert_eq!(Error::Encoding.message(), "payload is not valid UTF-8");
}
