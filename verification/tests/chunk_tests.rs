use pngme::chunk::Chunk;
use pngme::chunk_type::ChunkType;
use pngme::error::PngError;

fn testing_chunk() -> Chunk {
    let data_length: u32 = 42;
    let chunk_type = "RuSt".as_bytes();
    let message_bytes = "This is where your secret message will be!".as_bytes();
    let crc: u32 = 2882656334;

    let chunk_data: Vec<u8> = data_length
        .to_be_bytes()
        .iter()
        .chain(chunk_type.iter())
        .chain(message_bytes.iter())
        .chain(crc.to_be_bytes().iter())
        .copied()
        .collect();

    Chunk::try_from(chunk_data.as_ref()).unwrap()
}

#[test]
fn test_new_chunk() {
    let chunk_type = ChunkType::from_str("RuSt").unwrap();
    let data = "This is where your secret message will be!"
        .as_bytes()
        .to_vec();
    let chunk = Chunk::new(chunk_type, data);
    assert_eq!(chunk.length(), 42);
    assert_eq!(chunk.crc(), 2882656334);
}

#[test]
fn test_chunk_length() {
    let chunk = testing_chunk();
    assert_eq!(chunk.length(), 42);
}

#[test]
fn test_chunk_type() {
    let chunk = testing_chunk();
    assert_eq!(chunk.chunk_type().to_string(), String::from("RuSt"));
}

#[test]
fn test_chunk_string() {
    let chunk = testing_chunk();
    let chunk_string = chunk.data_as_string().unwrap();
    let expected_chunk_string = String::from("This is where your secret message will be!");
    assert_eq!(chunk_string, expected_chunk_string);
}

#[test]
fn test_chunk_crc() {
    let chunk = testing_chunk();
    assert_eq!(chunk.crc(), 2882656334);
}

#[test]
fn test_valid_chunk_from_bytes() {
    let data_length: u32 = 42;
    let chunk_type = "RuSt".as_bytes();
    let message_bytes = "This is where your secret message will be!".as_bytes();
    let crc: u32 = 2882656334;

    let chunk_data: Vec<u8> = data_length
        .to_be_bytes()
        .iter()
        .chain(chunk_type.iter())
        .chain(message_bytes.iter())
        .chain(crc.to_be_bytes().iter())
        .copied()
        .collect();

    let chunk = Chunk::try_from(chunk_data.as_ref()).unwrap();

    let chunk_string = chunk.data_as_string().unwrap();
    let expected_chunk_string = String::from("This is where your secret message will be!");

    assert_eq!(chunk.length(), 42);
    assert_eq!(chunk.chunk_type().to_string(), String::from("RuSt"));
    assert_eq!(chunk_string, expected_chunk_string);
    assert_eq!(chunk.crc(), 2882656334);
}

#[test]
fn test_invalid_chunk_from_bytes() {
    let data_length: u32 = 42;
    let chunk_type = "RuSt".as_bytes();
    let message_bytes = "This is where your secret message will be!".as_bytes();
    let crc: u32 = 2882656333;

    let chunk_data: Vec<u8> = data_length
        .to_be_bytes()
        .iter()
        .chain(chunk_type.iter())
        .chain(message_bytes.iter())
        .chain(crc.to_be_bytes().iter())
        .copied()
        .collect();

    let chunk = Chunk::try_from(chunk_data.as_ref());

    assert!(chunk.is_err());
}

#[test]
fn test_chunk_trait_impls() {
    let data_length: u32 = 42;
    let chunk_type = "RuSt".as_bytes();
    let message_bytes = "This is where your secret message will be!".as_bytes();
    let crc: u32 = 2882656334;

    let chunk_data: Vec<u8> = data_length
        .to_be_bytes()
        .iter()
        .chain(chunk_type.iter())
        .chain(message_bytes.iter())
        .chain(crc.to_be_bytes().iter())
        .copied()
        .collect();

    let chunk: Chunk = Chunk::try_from(chunk_data.as_ref()).unwrap();

    let _chunk_string = format!("{:?}", chunk);
}

#[test]
fn test_chunk_round_trip() {
    let chunk_type = ChunkType::from_str("ruSt").unwrap();
    let chunk = Chunk::new(chunk_type, vec![1, 2, 3, 4, 5]);
    let bytes = chunk.as_bytes();
    let reparsed = Chunk::try_from(bytes.as_ref()).unwrap();
    assert_eq!(reparsed.length(), chunk.length());
    assert_eq!(*reparsed.chunk_type(), *chunk.chunk_type());
    assert_eq!(reparsed.data(), chunk.data());
    assert_eq!(reparsed.crc(), chunk.crc());
}

#[test]
fn test_chunk_checksum_sensitivity() {
    let chunk = testing_chunk();
    let bytes = chunk.as_bytes();
    // Flip every single bit of the type code and payload in turn, holding
    // the stored crc fixed: parsing must fail with a checksum mismatch.
    for byte_index in 4..(bytes.len() - 4) {
        for bit in 0..8 {
            let mut corrupt = bytes.clone();
            corrupt[byte_index] ^= 1u8 << bit;
            let result = Chunk::try_from(corrupt.as_ref());
            assert_eq!(result.unwrap_err(), PngError::ChecksumMismatch);
        }
    }
}

#[test]
fn test_chunk_too_short() {
    let bytes: Vec<u8> = vec![0, 0, 0, 1, 82, 117, 83, 116];
    let result = Chunk::try_from(bytes.as_ref());
    assert_eq!(result.unwrap_err(), PngError::MalformedChunk);
}

#[test]
fn test_chunk_length_field_mismatch() {
    // The length field claims 3 payload bytes but 2 are present.
    let chunk = Chunk::new(ChunkType::from_str("RuSt").unwrap(), vec![7, 8]);
    let mut bytes = chunk.as_bytes();
    bytes[3] = 3;
    let result = Chunk::try_from(bytes.as_ref());
    assert_eq!(result.unwrap_err(), PngError::MalformedChunk);
}

#[test]
fn test_chunk_empty_payload() {
    let chunk = Chunk::new(ChunkType::from_str("teST").unwrap(), Vec::new());
    assert_eq!(chunk.length(), 0);
    let bytes = chunk.as_bytes();
    assert_eq!(bytes.len(), 12);
    let reparsed = Chunk::try_from(bytes.as_ref()).unwrap();
    assert_eq!(reparsed.crc(), chunk.crc());
    assert_eq!(reparsed.data(), &[] as &[u8]);
}

#[test]
fn test_chunk_data_not_utf8() {
    let chunk = Chunk::new(ChunkType::from_str("RuSt").unwrap(), vec![0xff, 0xfe]);
    let result = chunk.data_as_string();
    assert_eq!(result.unwrap_err(), PngError::InvalidEncoding);
}
