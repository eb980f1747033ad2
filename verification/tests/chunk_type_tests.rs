use pngme::chunk_type::ChunkType;
use pngme::chunk_type::ChunkTypeError;

#[test]
pub fn test_chunk_type_from_bytes() {
    let expected = [82, 117, 83, 116];
    let actual = ChunkType::try_from(&[82, 117, 83, 116]).unwrap();

    assert_eq!(expected, actual.bytes());
}

#[test]
pub fn test_chunk_type_from_str() {
    let expected = ChunkType::try_from(&[82, 117, 83, 116]).unwrap();
    let actual = ChunkType::from_str("RuSt").unwrap();
    assert_eq!(expected, actual);
}

#[test]
pub fn test_chunk_type_is_critical() {
    let chunk = ChunkType::from_str("RuSt").unwrap();
    assert!(chunk.is_critical());
}

#[test]
pub fn test_chunk_type_is_not_critical() {
    let chunk = ChunkType::from_str("ruSt").unwrap();
    assert!(!chunk.is_critical());
}

#[test]
pub fn test_chunk_type_is_public() {
    let chunk = ChunkType::from_str("RUSt").unwrap();
    assert!(chunk.is_public());
}

#[test]
pub fn test_chunk_type_is_not_public() {
    let chunk = ChunkType::from_str("RuSt").unwrap();
    assert!(!chunk.is_public());
}

#[test]
pub fn test_chunk_type_is_reserved_bit_invalid() {
    let chunk_err = ChunkType::from_str("Rust").unwrap_err();
    assert_eq!(chunk_err, ChunkTypeError::InvalidBit);
}

#[test]
pub fn test_chunk_type_is_safe_to_copy() {
    let chunk = ChunkType::from_str("RuSt").unwrap();
    assert!(chunk.is_safe_to_copy());
}

#[test]
pub fn test_chunk_type_is_unsafe_to_copy() {
    let chunk = ChunkType::from_str("RuST").unwrap();
    assert!(!chunk.is_safe_to_copy());
}

#[test]
pub fn test_invalid_chunk_is_valid() {
    let chunk_err = ChunkType::from_str("Ru1t").unwrap_err();
    assert_eq!(chunk_err, ChunkTypeError::Ascii)
}

#[test]
pub fn test_chunk_type_string() {
    let chunk = ChunkType::from_str("RuSt").unwrap();
    assert_eq!(&chunk.to_text(), "RuSt");
}

#[test]
pub fn test_chunk_type_trait_impls() {
    let chunk_type_1: ChunkType = ChunkType::try_from(&[82, 117, 83, 116]).unwrap();
    let chunk_type_2: ChunkType = ChunkType::from_str("RuSt").unwrap();
    let _chunk_string = chunk_type_1.to_text();
    let _are_chunks_equal = chunk_type_1 == chunk_type_2;
}

#[test]
pub fn test_rust_code_flags() {
    let chunk = ChunkType::try_from(&[82, 117, 83, 116]).unwrap();
    assert!(chunk.is_critical());
    assert!(!chunk.is_public());
    assert!(chunk.is_safe_to_copy());
}

#[test]
pub fn test_reserved_bit_invalid_regardless_of_other_bytes() {
    assert_eq!(
        ChunkType::from_str("abcd").unwrap_err(),
        ChunkTypeError::InvalidBit
    );
    assert_eq!(
        ChunkType::from_str("ZZzz").unwrap_err(),
        ChunkTypeError::InvalidBit
    );
}

#[test]
pub fn test_punctuation_code_is_ascii_error() {
    let chunk_err = ChunkType::from_str("Ru!t").unwrap_err();
    assert_eq!(chunk_err, ChunkTypeError::Ascii);
}

#[test]
pub fn test_wrong_length_code() {
    let chunk_err = ChunkType::from_str("RuSts").unwrap_err();
    assert_eq!(chunk_err, ChunkTypeError::InvalidLength { num_bit_received: 5 });
    let chunk_err = ChunkType::try_from(&[82, 117, 83]).unwrap_err();
    assert_eq!(chunk_err, ChunkTypeError::InvalidLength { num_bit_received: 3 });
}

#[test]
pub fn test_length_counts_decoded_characters() {
    // One accented character, encoded as two bytes: the count reported is 1.
    let chunk_err = ChunkType::try_from("é".as_bytes()).unwrap_err();
    assert_eq!(chunk_err, ChunkTypeError::InvalidLength { num_bit_received: 1 });
    // Four bytes that decode to two characters: still a length error.
    let chunk_err = ChunkType::try_from("éé".as_bytes()).unwrap_err();
    assert_eq!(chunk_err, ChunkTypeError::InvalidLength { num_bit_received: 2 });
}

#[test]
pub fn test_four_characters_non_ascii_is_ascii_error() {
    // Four characters (five bytes), one of them outside ASCII.
    let chunk_err = ChunkType::from_str("éABC").unwrap_err();
    assert_eq!(chunk_err, ChunkTypeError::Ascii);
}

#[test]
pub fn test_non_utf8_code() {
    let chunk_err = ChunkType::try_from(&[0xff, 0x80, 0x41, 0x42]).unwrap_err();
    assert_eq!(chunk_err, ChunkTypeError::Utf8 { valid_up_to: 0 });
}

#[test]
pub fn test_non_utf8_code_reports_valid_prefix() {
    // Two good bytes, then an invalid one.
    let chunk_err = ChunkType::try_from(&[0x41, 0x42, 0xff, 0x44]).unwrap_err();
    assert_eq!(chunk_err, ChunkTypeError::Utf8 { valid_up_to: 2 });
    // A two-byte encoding cut short at the end of the input.
    let chunk_err = ChunkType::try_from(&[0x41, 0xc3]).unwrap_err();
    assert_eq!(chunk_err, ChunkTypeError::Utf8 { valid_up_to: 1 });
}
