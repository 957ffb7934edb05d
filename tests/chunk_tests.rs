use pngme::checksum::crc32;
use pngme::chunk::Chunk;
use pngme::chunk_type::ChunkType;
use pngme::error::PngError;

fn testing_chunk() -> Chunk {
    let data_length: u32 = 42;
    let chunk_type = "RuSt".as_bytes();
    let message_bytes = "This is where your secret message will be!".as_bytes();
    let crc: u32 = 2882656334;

    let chunk_data: Vec<u8> = data_length
        .to_be_bytes()
        .iter()
        .chain(chunk_type.iter())
        .chain(message_bytes.iter())
        .chain(crc.to_be_bytes().iter())
        .copied()
        .collect();

    Chunk::try_from(chunk_data.as_ref()).unwrap()
}

fn record(data_length: u32, chunk_type: &[u8], data: &[u8], crc: u32) -> Vec<u8> {
    data_length
        .to_be_bytes()
        .iter()
        .chain(chunk_type.iter())
        .chain(data.iter())
        .chain(crc.to_be_bytes().iter())
        .copied()
        .collect()
}

#[test]
fn test_crc() {
    assert_eq!(crc32(b"123456789"), 0xCBF43926);
}

#[test]
fn test_new_chunk() {
    let chunk_type = ChunkType::from_string("RuSt").unwrap();
    let data = "This is where your secret message will be!"
        .as_bytes()
        .to_vec();
    let chunk = Chunk::new(chunk_type, data);
    assert_eq!(chunk.length(), 42);
    assert_eq!(chunk.crc(), 2882656334);
}

#[test]
fn test_chunk_length() {
    let chunk = testing_chunk();
    println!("{}", chunk.to_string());
    assert_eq!(chunk.length(), 42);
}

#[test]
fn test_chunk_type() {
    let chunk = testing_chunk();
    assert_eq!(chunk.chunk_type().to_string(), String::from("RuSt"));
}

#[test]
fn test_chunk_string() {
    let chunk = testing_chunk();
    let chunk_string = chunk.data_as_string().unwrap();
    let expected_chunk_string = String::from("This is where your secret message will be!");
    assert_eq!(chunk_string, expected_chunk_string);
}

#[test]
fn test_chunk_crc() {
    let chunk = testing_chunk();
    println!("{}", chunk.to_string());
    assert_eq!(chunk.crc(), 2882656334);
}

#[test]
fn test_valid_chunk_from_bytes() {
    let data_length: u32 = 42;
    let chunk_type = "RuSt".as_bytes();
    let message_bytes = "This is where your secret message will be!".as_bytes();
    let crc: u32 = 2882656334;

    let chunk_data: Vec<u8> = data_length
        .to_be_bytes()
        .iter()
        .chain(chunk_type.iter())
        .chain(message_bytes.iter())
        .chain(crc.to_be_bytes().iter())
        .copied()
        .collect();

    let chunk = Chunk::try_from(chunk_data.as_ref()).unwrap();

    let chunk_string = chunk.data_as_string().unwrap();
    let expected_chunk_string = String::from("This is where your secret message will be!");

    assert_eq!(chunk.length(), 42);
    assert_eq!(chunk.chunk_type().to_string(), String::from("RuSt"));
    assert_eq!(chunk_string, expected_chunk_string);
    assert_eq!(chunk.crc(), 2882656334);
}

#[test]
fn test_invalid_chunk_from_bytes() {
    let data_length: u32 = 42;
    let chunk_type = "RuSt".as_bytes();
    let message_bytes = "This is where your secret message will be!".as_bytes();
    let crc: u32 = 2882656333;

    let chunk_data: Vec<u8> = data_length
        .to_be_bytes()
        .iter()
        .chain(chunk_type.iter())
        .chain(message_bytes.iter())
        .chain(crc.to_be_bytes().iter())
        .copied()
        .collect();

    let chunk = Chunk::try_from(chunk_data.as_ref());

    assert!(chunk.is_err());
}

#[test]
pub fn test_chunk_trait_impls() {
    let data_length: u32 = 42;
    let chunk_type = "RuSt".as_bytes();
    let message_bytes = "This is where your secret message will be!".as_bytes();
    let crc: u32 = 2882656334;

    let chunk_data: Vec<u8> = data_length
        .to_be_bytes()
        .iter()
        .chain(chunk_type.iter())
        .chain(message_bytes.iter())
        .chain(crc.to_be_bytes().iter())
        .copied()
        .collect();

    let chunk: Chunk = Chunk::try_from(chunk_data.as_ref()).unwrap();

    let _chunk_string = chunk.to_string();
}

#[test]
fn crc_of_empty_input() {
    assert_eq!(crc32(b""), 0);
}

#[test]
fn new_chunk_round_trips_through_bytes() {
    let t = ChunkType::from_string("teXt").unwrap();
    let chunk = Chunk::new(t, vec![0, 1, 2, 255, 128]);
    let bytes = chunk.as_bytes();
    assert_eq!(bytes.len(), 12 + 5);
    assert_eq!(&bytes[0..4], &[0, 0, 0, 5]);
    assert_eq!(&bytes[4..8], b"teXt");
    assert_eq!(&bytes[8..13], &[0, 1, 2, 255, 128]);
    assert_eq!(&bytes[13..17], &crc32(&bytes[4..13]).to_be_bytes());
    let back = Chunk::try_from(&bytes).unwrap();
    assert_eq!(back, chunk);
}

#[test]
fn empty_data_round_trips() {
    let t = ChunkType::from_string("IEND").unwrap();
    let chunk = Chunk::new(t, Vec::new());
    assert_eq!(chunk.length(), 0);
    assert_eq!(chunk.crc(), 0xAE426082);
    let back = Chunk::try_from(&chunk.as_bytes()).unwrap();
    assert_eq!(back, chunk);
}

#[test]
fn every_single_bit_flip_is_detected() {
    let bytes = testing_chunk().as_bytes();
    for i in 4..(8 + 42) {
        for bit in 0..8 {
            let mut altered = bytes.clone();
            altered[i] ^= 1 << bit;
            assert_eq!(Chunk::try_from(&altered), Err(PngError::CrcMismatch));
        }
    }
}

#[test]
fn corrupted_crc_byte_is_refused() {
    let mut bytes = testing_chunk().as_bytes();
    let last = bytes.len() - 1;
    bytes[last] ^= 0x01;
    assert_eq!(Chunk::try_from(&bytes), Err(PngError::CrcMismatch));
}

#[test]
fn short_buffers_are_truncated() {
    assert_eq!(Chunk::try_from(&[0u8, 0, 0][..]), Err(PngError::Truncated));
    assert_eq!(Chunk::try_from(&[0u8; 11][..]), Err(PngError::Truncated));
    let full = testing_chunk().as_bytes();
    assert_eq!(
        Chunk::try_from(&full[..full.len() - 1]),
        Err(PngError::Truncated)
    );
    let huge = record(u32::MAX, b"RuSt", b"", 0);
    assert_eq!(Chunk::try_from(&huge), Err(PngError::Truncated));
}

#[test]
fn trailing_bytes_after_a_chunk_are_ignored() {
    let mut bytes = testing_chunk().as_bytes();
    bytes.extend_from_slice(&[1, 2, 3]);
    assert_eq!(Chunk::try_from(&bytes).unwrap(), testing_chunk());
}

#[test]
fn non_letter_type_bytes_are_accepted_when_parsing() {
    let t = ChunkType::from_bytes([b'R', b'1', b'S', b't']);
    assert!(!t.is_valid());
    let chunk = Chunk::new(t, b"x".to_vec());
    let back = Chunk::try_from(&chunk.as_bytes()).unwrap();
    assert_eq!(back.chunk_type().bytes(), [b'R', b'1', b'S', b't']);
}

#[test]
fn data_that_is_not_utf8_is_reported() {
    let t = ChunkType::from_string("RuSt").unwrap();
    let chunk = Chunk::new(t, vec![0xff, 0xfe]);
    assert_eq!(chunk.data_as_string(), Err(PngError::InvalidUtf8));
    assert!(chunk.to_string().contains("<not UTF-8>"));
}

#[test]
fn chunk_text_rendering() {
    let chunk = testing_chunk();
    assert_eq!(
        chunk.to_string(),
        "Chunk {\n  Length: 42\n  Type: RuSt\n  Data: This is where your secret message will be!\n  Crc: 2882656334\n}\n"
    );
}

#[test]
fn chunk_accessors() {
    let chunk = testing_chunk();
    assert_eq!(chunk.data(), "This is where your secret message will be!".as_bytes());
    assert_eq!(chunk.chunk_type().bytes(), *b"RuSt");
}
