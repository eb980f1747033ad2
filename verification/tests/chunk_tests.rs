use pngme::chunk::Chunk;
use pngme::chunk::ChunkError;
use pngme::chunk_type::ChunkType;

fn testing_chunk() -> Chunk {
    let data_length: u32 = 42;
    let chunk_type = "RuSt".as_bytes();
    let message_bytes = "This is where your secret message will be!".as_bytes();
    let crc: u32 = 2882656334;

    let chunk_data: Vec<u8> = data_length
        .to_be_bytes()
        .iter()
        .chain(chunk_type.iter())
        .chain(message_bytes.iter())
        .chain(crc.to_be_bytes().iter())
        .copied()
        .collect();

    Chunk::try_from(chunk_data.as_ref()).unwrap()
}

#[test]
fn test_new_chunk() {
    let chunk_type = ChunkType::from_str("RuSt").unwrap();
    let data = "This is where your secret message will be!".as_bytes().to_vec();
    let chunk = Chunk::new(chunk_type, data);
    assert_eq!(chunk.length(), 42);
    assert_eq!(chunk.crc(), 2882656334);
}

#[test]
fn test_chunk_length() {
    let chunk = testing_chunk();
    assert_eq!(chunk.length(), 42);
}

#[test]
fn test_chunk_type() {
    let chunk = testing_chunk();
    assert_eq!(chunk.chunk_type().to_text(), String::from("RuSt"));
}

#[test]
fn test_chunk_string() {
    let chunk = testing_chunk();
    let chunk_string = chunk.data_as_string().unwrap();
    let expected_chunk_string = String::from("This is where your secret message will be!");
    assert_eq!(chunk_string, expected_chunk_string);
}

#[test]
fn test_chunk_crc() {
    let chunk = testing_chunk();
    assert_eq!(chunk.crc(), 2882656334);
}

#[test]
fn test_valid_chunk_from_bytes() {
    let data_length: u32 = 42;
    let chunk_type = "RuSt".as_bytes();
    let message_bytes = "This is where your secret message will be!".as_bytes();
    let crc: u32 = 2882656334;

    let chunk_data: Vec<u8> = data_length
        .to_be_bytes()
        .iter()
        .chain(chunk_type.iter())
        .chain(message_bytes.iter())
        .chain(crc.to_be_bytes().iter())
        .copied()
        .collect();

    let chunk = Chunk::try_from(chunk_data.as_ref()).unwrap();

    let chunk_string = chunk.data_as_string().unwrap();
    let expected_chunk_string = String::from("This is where your secret message will be!");

    assert_eq!(chunk.length(), 42);
    assert_eq!(chunk.chunk_type().to_text(), String::from("RuSt"));
    assert_eq!(chunk_string, expected_chunk_string);
    assert_eq!(chunk.crc(), 2882656334);
}

#[test]
fn test_invalid_chunk_from_bytes() {
    let data_length: u32 = 42;
    let chunk_type = "RuSt".as_bytes();
    let message_bytes = "This is where your secret message will be!".as_bytes();
    let crc: u32 = 2882656333;

    let chunk_data: Vec<u8> = data_length
        .to_be_bytes()
        .iter()
        .chain(chunk_type.iter())
        .chain(message_bytes.iter())
        .chain(crc.to_be_bytes().iter())
        .copied()
        .collect();

    let chunk = Chunk::try_from(chunk_data.as_ref());

    assert!(chunk.is_err());
}

#[test]
pub fn test_chunk_trait_impls() {
    let data_length: u32 = 42;
    let chunk_type = "RuSt".as_bytes();
    let message_bytes = "This is where your secret message will be!".as_bytes();
    let crc: u32 = 2882656334;

    let chunk_data: Vec<u8> = data_length
        .to_be_bytes()
        .iter()
        .chain(chunk_type.iter())
        .chain(message_bytes.iter())
        .chain(crc.to_be_bytes().iter())
        .copied()
        .collect();

    let _chunk: Chunk = Chunk::try_from(chunk_data.as_ref()).unwrap();
}

#[test]
fn test_chunk_round_trip() {
    let chunk_type = ChunkType::from_str("RuSt").unwrap();
    let data = "This is where your secret message will be!".as_bytes().to_vec();
    let chunk = Chunk::new(chunk_type, data.clone());
    let wire = chunk.as_bytes();
    let parsed = Chunk::try_from(wire.as_ref()).unwrap();
    assert_eq!(parsed.length(), chunk.length());
    assert_eq!(parsed.chunk_type().bytes(), chunk.chunk_type().bytes());
    assert_eq!(parsed.data(), chunk.data());
    assert_eq!(parsed.crc(), chunk.crc());
}

#[test]
fn test_checksum_deterministic() {
    let first = Chunk::new(
        ChunkType::from_str("RuSt").unwrap(),
        "payload".as_bytes().to_vec(),
    );
    let second = Chunk::new(
        ChunkType::from_str("RuSt").unwrap(),
        "payload".as_bytes().to_vec(),
    );
    assert_eq!(first.crc(), second.crc());

    let altered = Chunk::new(
        ChunkType::from_str("RuSt").unwrap(),
        "paykoad".as_bytes().to_vec(),
    );
    assert_ne!(first.crc(), altered.crc());
}

#[test]
fn test_one_bit_checksum_corruption_is_crc_error() {
    let chunk = Chunk::new(
        ChunkType::from_str("RuSt").unwrap(),
        "This is where your secret message will be!".as_bytes().to_vec(),
    );
    let mut wire = chunk.as_bytes();
    let last = wire.len() - 1;
    wire[last] ^= 1;
    let result = Chunk::try_from(wire.as_ref());
    assert_eq!(result.unwrap_err(), ChunkError::Crc);
}

#[test]
fn test_truncated_chunk() {
    assert_eq!(
        Chunk::try_from([0u8, 0, 0].as_ref()).unwrap_err(),
        ChunkError::Truncated
    );
    // A header that promises more payload bytes than the buffer holds.
    let chunk = Chunk::new(ChunkType::from_str("RuSt").unwrap(), vec![1, 2, 3, 4]);
    let wire = chunk.as_bytes();
    let cut = &wire[..wire.len() - 5];
    assert_eq!(Chunk::try_from(cut).unwrap_err(), ChunkError::Truncated);
}

#[test]
fn test_bad_type_code_in_chunk() {
    // Length 0, type "Rust" (reserved bit violation), checksum irrelevant.
    let wire: Vec<u8> = vec![0, 0, 0, 0, 82, 117, 115, 116, 0, 0, 0, 0];
    let err = Chunk::try_from(wire.as_ref()).unwrap_err();
    assert!(matches!(err, ChunkError::ChunkType(_)));
}

#[test]
fn test_non_text_payload_is_decode_error() {
    let chunk = Chunk::new(ChunkType::from_str("RuSt").unwrap(), vec![0xff, 0xfe]);
    assert!(chunk.data_as_string().is_err());
}
