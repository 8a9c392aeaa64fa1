use pngecret::chunk::{Chunk, ChunkError};
use pngecret::chunk_type::ChunkType;

fn chunk_bytes(data_length: u32, chunk_type: &str, message_bytes: &[u8], crc: u32) -> Vec<u8> {
    let mut out: Vec<u8> = Vec::new();
    out.extend_from_slice(&data_length.to_be_bytes());
    out.extend_from_slice(chunk_type.as_bytes());
    out.extend_from_slice(message_bytes);
    out.extend_from_slice(&crc.to_be_bytes());
    out
}

fn testing_chunk() -> Chunk {
    let data_length: u32 = 42;
    let chunk_type = "RuSt";
    let message_bytes = "This is where your secret message will be!".as_bytes();
    let crc: u32 = 2882656334;

    let chunk_data = chunk_bytes(data_length, chunk_type, message_bytes, crc);

    Chunk::from_bytes(chunk_data.as_slice()).unwrap()
}

#[test]
fn test_new_chunk() {
    let chunk_type = ChunkType::from_str("RuSt").unwrap();
    let data = "This is where your secret message will be!"
        .as_bytes()
        .to_vec();
    let chunk = Chunk::new(chunk_type, data).unwrap();
    assert_eq!(chunk.length(), 42);
    assert_eq!(chunk.crc(), 2882656334);
}

#[test]
fn test_chunk_length() {
    let chunk = testing_chunk();
    assert_eq!(chunk.length(), 42);
}

#[test]
fn test_chunk_type() {
    let chunk = testing_chunk();
    assert_eq!(chunk.chunk_type().to_text(), String::from("RuSt"));
}

#[test]
fn test_chunk_string() {
    let chunk = testing_chunk();
    let chunk_string = chunk.data_as_string().unwrap();
    let expected_chunk_string = String::from("This is where your secret message will be!");
    assert_eq!(chunk_string, expected_chunk_string);
}

#[test]
fn test_chunk_crc() {
    let chunk = testing_chunk();
    assert_eq!(chunk.crc(), 2882656334);
}

#[test]
fn test_valid_chunk_from_bytes() {
    let data_length: u32 = 42;
    let chunk_type = "RuSt";
    let message_bytes = "This is where your secret message will be!".as_bytes();
    let crc: u32 = 2882656334;

    let chunk_data = chunk_bytes(data_length, chunk_type, message_bytes, crc);

    let chunk = Chunk::from_bytes(chunk_data.as_slice()).unwrap();

    let chunk_string = chunk.data_as_string().unwrap();
    let expected_chunk_string = String::from("This is where your secret message will be!");

    assert_eq!(chunk.length(), 42);
    assert_eq!(chunk.chunk_type().to_text(), String::from("RuSt"));
    assert_eq!(chunk_string, expected_chunk_string);
    assert_eq!(chunk.crc(), 2882656334);
}

#[test]
fn test_invalid_chunk_from_bytes() {
    let data_length: u32 = 42;
    let chunk_type = "RuSt";
    let message_bytes = "This is where your secret message will be!".as_bytes();
    let crc: u32 = 2882656333;

    let chunk_data = chunk_bytes(data_length, chunk_type, message_bytes, crc);

    let chunk = Chunk::from_bytes(chunk_data.as_slice());

    assert!(chunk.is_err());
}

#[test]
pub fn test_chunk_trait_impls() {
    let data_length: u32 = 42;
    let chunk_type = "RuSt";
    let message_bytes = "This is where your secret message will be!".as_bytes();
    let crc: u32 = 2882656334;

    let chunk_data = chunk_bytes(data_length, chunk_type, message_bytes, crc);

    let chunk: Chunk = Chunk::from_bytes(chunk_data.as_slice()).unwrap();

    let _chunk_string = chunk.render_text();
}

#[test]
fn test_chunk_round_trip() {
    let chunk_type = ChunkType::from_str("teXt").unwrap();
    let chunk = Chunk::new(chunk_type, vec![1, 2, 3, 250, 0, 9]).unwrap();
    let bytes = chunk.as_bytes();
    let back = Chunk::from_bytes(bytes.as_slice()).unwrap();
    assert_eq!(back.length(), chunk.length());
    assert_eq!(back.chunk_type().bytes(), chunk.chunk_type().bytes());
    assert_eq!(back.data(), chunk.data());
    assert_eq!(back.crc(), chunk.crc());
}

#[test]
fn test_chunk_render_text_scenario() {
    let chunk = testing_chunk();
    assert_eq!(
        chunk.render_text(),
        "RuSt\tThis is where your secret message will be!"
    );
}

#[test]
fn test_chunk_render_text_placeholder() {
    let chunk_type = ChunkType::from_str("RuSt").unwrap();
    let chunk = Chunk::new(chunk_type, vec![0xff, 0xfe, 0x01]).unwrap();
    assert_eq!(chunk.render_text(), "RuSt\t[data]");
}

#[test]
fn test_chunk_truncated() {
    let r = Chunk::from_bytes(&[0, 0, 0, 0, 82, 117, 83]);
    assert_eq!(r.unwrap_err(), ChunkError::Truncated);

    let r = Chunk::from_bytes(&[]);
    assert_eq!(r.unwrap_err(), ChunkError::Truncated);

    // The type code is read and validated before the trailing checksum
    // bytes are required.
    let r = Chunk::from_bytes(&[0, 0, 0, 0, 82, 117, 83, 116, 1, 2]);
    assert_eq!(r.unwrap_err(), ChunkError::Truncated);
    let r = Chunk::from_bytes(&[0, 0, 0, 0, 82, 49, 83, 116, 1, 2]);
    assert_eq!(r.unwrap_err(), ChunkError::InvalidTypeByte(49));
}

#[test]
fn test_chunk_invalid_type_byte() {
    let chunk_data = chunk_bytes(2, "Ru1t", &[5, 6], 12345);
    let r = Chunk::from_bytes(chunk_data.as_slice());
    assert_eq!(r.unwrap_err(), ChunkError::InvalidTypeByte(b'1'));
}

#[test]
fn test_chunk_length_mismatch() {
    let good = Chunk::new(ChunkType::from_str("RuSt").unwrap(), vec![5, 6, 7]).unwrap();
    let chunk_data = chunk_bytes(9, "RuSt", &[5, 6, 7], good.crc());
    let r = Chunk::from_bytes(chunk_data.as_slice());
    assert_eq!(r.unwrap_err(), ChunkError::LengthMismatch(9));
}

#[test]
fn test_chunk_checksum_mismatch_reported() {
    let good = Chunk::new(ChunkType::from_str("RuSt").unwrap(), vec![5, 6, 7]).unwrap();
    let bad_crc = good.crc() ^ 1;
    let chunk_data = chunk_bytes(3, "RuSt", &[5, 6, 7], bad_crc);
    let r = Chunk::from_bytes(chunk_data.as_slice());
    assert_eq!(r.unwrap_err(), ChunkError::ChecksumMismatch(bad_crc));
}

#[test]
fn test_chunk_bit_flip_detected() {
    let chunk = Chunk::new(
        ChunkType::from_str("RuSt").unwrap(),
        "payload".as_bytes().to_vec(),
    )
    .unwrap();
    let mut bytes = chunk.as_bytes();
    // Flip one bit in the data region (offsets 8 .. len - 4).
    bytes[9] ^= 0x10;
    let r = Chunk::from_bytes(bytes.as_slice());
    assert_eq!(r.unwrap_err(), ChunkError::ChecksumMismatch(chunk.crc()));

    // Flip a bit in the type region that keeps the byte alphabetic.
    let mut bytes = chunk.as_bytes();
    bytes[4] ^= 0x20; // 'R' -> 'r'
    let r = Chunk::from_bytes(bytes.as_slice());
    assert_eq!(r.unwrap_err(), ChunkError::ChecksumMismatch(chunk.crc()));
}
