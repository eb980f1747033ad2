use pngme::chunk::Chunk;
use pngme::chunk::ChunkError;
use pngme::chunk_type::ChunkType;
use pngme::png::Png;
use pngme::png::PngError;

fn chunk_of(code: &str, message: &str) -> Chunk {
    Chunk::new(
        ChunkType::from_str(code).unwrap(),
        message.as_bytes().to_vec(),
    )
}

fn testing_png() -> Png {
    let chunks = vec![
        chunk_of("FrSt", "I am the first chunk"),
        chunk_of("miDl", "I am another chunk"),
        chunk_of("LASt", "I am the last chunk"),
    ];
    Png::from_chunks(chunks)
}

#[test]
fn test_png_round_trip() {
    let png = testing_png();
    let wire = png.as_bytes();
    let parsed = Png::try_from(wire.as_ref()).unwrap();
    assert_eq!(parsed.as_bytes(), wire);
    assert_eq!(parsed.chunks().len(), 3);
    assert_eq!(parsed.chunks()[1].chunk_type().to_text(), "miDl");
    assert_eq!(
        parsed.chunks()[1].data_as_string().unwrap(),
        "I am another chunk"
    );
}

#[test]
fn test_append_then_remove_restores_bytes() {
    let png = testing_png();
    let original = png.as_bytes();

    let mut parsed = Png::try_from(original.as_ref()).unwrap();
    parsed.append_chunk(chunk_of("RuSt", "Hidden message"));
    let removed = parsed.remove_chunk("RuSt").unwrap();
    assert_eq!(removed.data_as_string().unwrap(), "Hidden message");
    assert_eq!(parsed.as_bytes(), original);
}

#[test]
fn test_chunk_by_type_present() {
    let png = testing_png();
    let chunk = png.chunk_by_type("FrSt").unwrap();
    assert_eq!(chunk.chunk_type().to_text(), "FrSt");
    assert_eq!(chunk.data_as_string().unwrap(), "I am the first chunk");
}

#[test]
fn test_chunk_by_type_absent_is_not_an_error() {
    let png = testing_png();
    assert!(png.chunk_by_type("TeSt").is_none());
}

#[test]
fn test_chunk_by_type_finds_first_match() {
    let png = Png::from_chunks(vec![
        chunk_of("DuPe", "one"),
        chunk_of("DuPe", "two"),
    ]);
    let chunk = png.chunk_by_type("DuPe").unwrap();
    assert_eq!(chunk.data_as_string().unwrap(), "one");
}

#[test]
fn test_remove_chunk_keeps_order() {
    let mut png = testing_png();
    let removed = png.remove_chunk("miDl").unwrap();
    assert_eq!(removed.chunk_type().to_text(), "miDl");
    assert_eq!(png.chunks().len(), 2);
    assert_eq!(png.chunks()[0].chunk_type().to_text(), "FrSt");
    assert_eq!(png.chunks()[1].chunk_type().to_text(), "LASt");
}

#[test]
fn test_remove_missing_chunk_is_not_found() {
    let mut png = testing_png();
    let err = png.remove_chunk("TeSt").unwrap_err();
    assert_eq!(err, PngError::ChunkTypeNotFound(String::from("TeSt")));
}

#[test]
fn test_bad_signature() {
    let wire: Vec<u8> = vec![13, 80, 78, 71, 13, 10, 26, 10];
    assert_eq!(Png::try_from(wire.as_ref()).unwrap_err(), PngError::BadSignature);
    let short: Vec<u8> = vec![137, 80];
    assert_eq!(Png::try_from(short.as_ref()).unwrap_err(), PngError::BadSignature);
}

#[test]
fn test_trailing_garbage_is_a_chunk_error() {
    let png = testing_png();
    let mut wire = png.as_bytes();
    wire.push(0);
    let err = Png::try_from(wire.as_ref()).unwrap_err();
    assert_eq!(err, PngError::Chunk(ChunkError::Truncated));
}

#[test]
fn test_corrupt_chunk_rejects_whole_container() {
    let png = testing_png();
    let mut wire = png.as_bytes();
    let last = wire.len() - 1;
    wire[last] ^= 1;
    let err = Png::try_from(wire.as_ref()).unwrap_err();
    assert_eq!(err, PngError::Chunk(ChunkError::Crc));
}

#[test]
fn test_empty_container_round_trip() {
    let png = Png::from_chunks(Vec::new());
    let wire = png.as_bytes();
    assert_eq!(wire, vec![137, 80, 78, 71, 13, 10, 26, 10]);
    let parsed = Png::try_from(wire.as_ref()).unwrap();
    assert_eq!(parsed.chunks().len(), 0);
}
