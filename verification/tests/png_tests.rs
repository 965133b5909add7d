use pngme::chunk::Chunk;
use pngme::chunk_type::ChunkType;
use pngme::error::PngError;
use pngme::png::{signature, Png};

fn chunk(type_code: &str, message: &str) -> Chunk {
    let chunk_type = ChunkType::from_str(type_code).unwrap();
    Chunk::new(chunk_type, message.as_bytes().to_vec())
}

fn testing_png() -> Png {
    Png::from_chunks(vec![
        chunk("FrSt", "I am the first chunk"),
        chunk("miDl", "I am another chunk"),
        chunk("LASt", "I am the last chunk"),
    ])
}

fn stream_of(png: &Png) -> Vec<u8> {
    png.as_bytes()
}

#[test]
fn test_png_from_chunks() {
    let png = testing_png();
    assert_eq!(png.chunks().len(), 3);
}

#[test]
fn test_png_parse_round_trip() {
    let original = testing_png();
    let bytes = stream_of(&original);
    let parsed = Png::try_from(bytes.as_ref()).unwrap();
    assert_eq!(parsed.chunks().len(), 3);
    for (a, b) in parsed.chunks().iter().zip(original.chunks().iter()) {
        assert_eq!(*a.chunk_type(), *b.chunk_type());
        assert_eq!(a.data(), b.data());
        assert_eq!(a.crc(), b.crc());
    }
    assert_eq!(parsed.as_bytes(), bytes);
}

#[test]
fn test_png_bad_signature() {
    let original = testing_png();
    let mut bytes = stream_of(&original);
    bytes[0] = 13;
    let result = Png::try_from(bytes.as_ref());
    assert_eq!(result.unwrap_err(), PngError::BadSignature);
}

#[test]
fn test_png_too_short_for_signature() {
    let bytes: Vec<u8> = signature()[..4].to_vec();
    let result = Png::try_from(bytes.as_ref());
    assert_eq!(result.unwrap_err(), PngError::BadSignature);
}

#[test]
fn test_png_signature_only() {
    let bytes: Vec<u8> = signature().to_vec();
    let png = Png::try_from(bytes.as_ref()).unwrap();
    assert_eq!(png.chunks().len(), 0);
    assert_eq!(png.as_bytes(), bytes);
}

#[test]
fn test_png_trailing_garbage() {
    let original = testing_png();
    let mut bytes = stream_of(&original);
    bytes.push(0);
    let result = Png::try_from(bytes.as_ref());
    assert_eq!(result.unwrap_err(), PngError::MalformedChunk);
}

#[test]
fn test_png_propagates_checksum_mismatch() {
    let original = testing_png();
    let mut bytes = stream_of(&original);
    let last = bytes.len() - 1;
    bytes[last] ^= 1;
    let result = Png::try_from(bytes.as_ref());
    assert_eq!(result.unwrap_err(), PngError::ChecksumMismatch);
}

#[test]
fn test_png_find_chunk() {
    let png = testing_png();
    let target = ChunkType::from_str("miDl").unwrap();
    let found = png.find_chunk(&target).unwrap();
    assert_eq!(found.data_as_string().unwrap(), "I am another chunk");
    let absent = ChunkType::from_str("noNe").unwrap();
    assert!(png.find_chunk(&absent).is_none());
}

#[test]
fn test_png_append_then_remove() {
    let mut png = testing_png();
    let appended = chunk("TeSt", "Message");
    let expected_crc = appended.crc();
    png.append_chunk(appended);
    assert_eq!(png.chunks().len(), 4);

    let target = ChunkType::from_str("TeSt").unwrap();
    let removed = png.remove_chunk(&target).unwrap();
    assert_eq!(removed.crc(), expected_crc);
    assert_eq!(removed.data_as_string().unwrap(), "Message");

    // The remaining chunks are the original three, in their order.
    assert_eq!(png.chunks().len(), 3);
    let types: Vec<String> = png
        .chunks()
        .iter()
        .map(|c| c.chunk_type().to_string())
        .collect();
    assert_eq!(types, vec!["FrSt", "miDl", "LASt"]);
}

#[test]
fn test_png_remove_absent_chunk() {
    let mut png = testing_png();
    let target = ChunkType::from_str("noNe").unwrap();
    let result = png.remove_chunk(&target);
    assert_eq!(result.unwrap_err(), PngError::ChunkNotFound);
    assert_eq!(png.chunks().len(), 3);
}

#[test]
fn test_png_remove_first_of_duplicates() {
    let mut png = Png::from_chunks(vec![
        chunk("duPl", "one"),
        chunk("duPl", "two"),
    ]);
    let target = ChunkType::from_str("duPl").unwrap();
    let removed = png.remove_chunk(&target).unwrap();
    assert_eq!(removed.data_as_string().unwrap(), "one");
    assert_eq!(png.chunks().len(), 1);
    assert_eq!(png.chunks()[0].data_as_string().unwrap(), "two");
}

#[test]
fn test_png_stream_layout() {
    let single = chunk("RuSt", "hi");
    let chunk_bytes = single.as_bytes();
    let png = Png::from_chunks(vec![chunk("RuSt", "hi")]);
    let bytes = png.as_bytes();
    assert_eq!(&bytes[..8], &signature());
    assert_eq!(&bytes[8..], chunk_bytes.as_slice());
}
