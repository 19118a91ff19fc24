use pngme::chunk::Chunk;
use pngme::chunk_type::ChunkType;
use pngme::commands::{decode, encode, print, remove};
use pngme::error::{DecodeError, NotFoundError, PngError};
use pngme::png::Png;
use std::str::FromStr;

fn chunk_from_strings(chunk_type: &str, data: &str) -> Chunk {
    Chunk::new(ChunkType::from_str(chunk_type).unwrap(), data.bytes().collect())
}

fn testing_chunks() -> Vec<Chunk> {
    vec![
        chunk_from_strings("FrSt", "I am the first chunk"),
        chunk_from_strings("miDl", "I am another chunk"),
        chunk_from_strings("LASt", "I am the last chunk"),
    ]
}

fn testing_png() -> Png {
    Png::from_chunks(testing_chunks())
}

fn type_names(png: &Png) -> Vec<String> {
    png.chunks().iter().map(|c| c.chunk_type().to_string()).collect()
}

#[test]
fn from_chunks_keeps_the_order() {
    let png = testing_png();
    assert_eq!(png.chunks().len(), 3);
    assert_eq!(type_names(&png), vec!["FrSt", "miDl", "LASt"]);
}

#[test]
fn header_is_the_png_signature() {
    let png = Png::from_chunks(Vec::new());
    assert_eq!(png.header(), [137, 80, 78, 71, 13, 10, 26, 10]);
    assert_eq!(Png::STANDARD_HEADER, [0x89, 0x50, 0x4E, 0x47, 0x0D, 0x0A, 0x1A, 0x0A]);
    assert_eq!(png.as_bytes(), vec![137, 80, 78, 71, 13, 10, 26, 10]);
}

#[test]
fn as_bytes_is_signature_then_frames() {
    let png = testing_png();
    let mut expected: Vec<u8> = vec![137, 80, 78, 71, 13, 10, 26, 10];
    for chunk in testing_chunks() {
        expected.extend(chunk.as_bytes());
    }
    assert_eq!(png.as_bytes(), expected);
}

#[test]
fn parsing_what_was_written_gives_the_same_chunks() {
    let mut png = Png::from_chunks(Vec::new());
    for chunk in testing_chunks() {
        png.append_chunk(chunk);
    }
    png.append_chunk(chunk_from_strings("FrSt", ""));
    let bytes = png.as_bytes();
    let read = Png::try_from(bytes.as_ref()).unwrap();
    assert_eq!(read.chunks().len(), 4);
    for (a, b) in read.chunks().iter().zip(png.chunks().iter()) {
        assert_eq!(a.length(), b.length());
        assert_eq!(a.chunk_type(), b.chunk_type());
        assert_eq!(a.data(), b.data());
        assert_eq!(a.crc(), b.crc());
    }
    assert_eq!(read.as_bytes(), bytes);
}

#[test]
fn a_file_of_the_signature_alone_has_no_chunks() {
    let bytes: Vec<u8> = vec![137, 80, 78, 71, 13, 10, 26, 10];
    let png = Png::try_from(bytes.as_ref()).unwrap();
    assert_eq!(png.chunks().len(), 0);
}

#[test]
fn a_wrong_or_short_signature_is_a_header_error() {
    let mut bytes = testing_png().as_bytes();
    bytes[0] = 13;
    assert!(matches!(Png::try_from(bytes.as_ref()), Err(PngError::ChunkHeaderError)));
    let short: Vec<u8> = vec![137, 80, 78, 71, 13, 10, 26];
    assert!(matches!(Png::try_from(short.as_ref()), Err(PngError::ChunkHeaderError)));
    let empty: Vec<u8> = Vec::new();
    assert!(matches!(Png::try_from(empty.as_ref()), Err(PngError::ChunkHeaderError)));
}

#[test]
fn a_truncated_file_is_a_chunk_error() {
    let bytes = testing_png().as_bytes();
    let cut = &bytes[..bytes.len() - 1];
    assert!(matches!(Png::try_from(cut), Err(PngError::ChunkError)));
    let stub = &bytes[..8 + 3];
    assert!(matches!(Png::try_from(stub), Err(PngError::ChunkError)));
    let mut trailing = bytes.clone();
    trailing.extend([0u8, 0, 0]);
    assert!(matches!(Png::try_from(trailing.as_ref()), Err(PngError::ChunkError)));
}

#[test]
fn a_corrupt_chunk_fails_the_whole_file_with_a_crc_error() {
    let mut bytes = testing_png().as_bytes();
    let last = bytes.len() - 1;
    bytes[last] ^= 0xff;
    assert!(matches!(Png::try_from(bytes.as_ref()), Err(PngError::CRCError)));
    let mut first = testing_png().as_bytes();
    first[8 + 8] ^= 1;
    assert!(matches!(Png::try_from(first.as_ref()), Err(PngError::CRCError)));
}

#[test]
fn the_first_bad_chunk_decides_the_error() {
    let mut bytes = testing_png().as_bytes();
    bytes[8 + 8] ^= 1;
    bytes.pop();
    assert!(matches!(Png::try_from(bytes.as_ref()), Err(PngError::CRCError)));
}

#[test]
fn append_chunk_adds_at_the_end() {
    let mut png = testing_png();
    png.append_chunk(chunk_from_strings("TeSt", "Message"));
    assert_eq!(type_names(&png), vec!["FrSt", "miDl", "LASt", "TeSt"]);
    png.append_chunk(chunk_from_strings("FrSt", "again"));
    assert_eq!(type_names(&png), vec!["FrSt", "miDl", "LASt", "TeSt", "FrSt"]);
}

#[test]
fn removing_an_absent_type_changes_nothing() {
    let mut png = testing_png();
    let before = png.as_bytes();
    assert_eq!(png.remove_first_chunk("none"), Err(NotFoundError));
    assert_eq!(png.remove_first_chunk("FrS"), Err(NotFoundError));
    assert_eq!(png.remove_first_chunk(""), Err(NotFoundError));
    assert_eq!(png.as_bytes(), before);
}

#[test]
fn removing_takes_the_first_match_and_keeps_the_order() {
    let mut png = testing_png();
    png.append_chunk(chunk_from_strings("miDl", "second of its type"));
    png.append_chunk(chunk_from_strings("TeSt", "Message"));
    assert_eq!(png.remove_first_chunk("miDl"), Ok(()));
    assert_eq!(type_names(&png), vec!["FrSt", "LASt", "miDl", "TeSt"]);
    assert_eq!(png.chunks()[2].data_as_string().unwrap(), "second of its type");
    assert_eq!(png.remove_first_chunk("miDl"), Ok(()));
    assert_eq!(type_names(&png), vec!["FrSt", "LASt", "TeSt"]);
    assert_eq!(png.remove_first_chunk("miDl"), Err(NotFoundError));
    assert_eq!(png.remove_first_chunk("FrSt"), Ok(()));
    assert_eq!(type_names(&png), vec!["LASt", "TeSt"]);
}

#[test]
fn position_finds_the_first_of_a_type() {
    let mut png = testing_png();
    png.append_chunk(chunk_from_strings("miDl", "again"));
    assert_eq!(png.position(b"FrSt"), Some(0));
    assert_eq!(png.position(b"miDl"), Some(1));
    assert_eq!(png.position(b"LASt"), Some(2));
    assert_eq!(png.position(b"midl"), None);
    assert_eq!(png.remove_first_tagged(b"LASt"), Ok(()));
    assert_eq!(png.position(b"miDl"), Some(1));
    assert_eq!(png.position(b"LASt"), None);
}

#[test]
fn encode_adds_one_frame_to_the_file() {
    let file = testing_png().as_bytes();
    let chunk_type = ChunkType::from_str("RuSt").unwrap();
    let out = encode(&file, chunk_type, String::from("hello")).unwrap();
    let mut expected = file.clone();
    expected.extend(chunk_from_strings("RuSt", "hello").as_bytes());
    assert_eq!(out, expected);
    let png = Png::try_from(out.as_ref()).unwrap();
    assert_eq!(type_names(&png), vec!["FrSt", "miDl", "LASt", "RuSt"]);
    assert_eq!(decode(&png, &chunk_type), Ok(Some(String::from("hello"))));
}

#[test]
fn encode_refuses_what_is_no_png_file() {
    let chunk_type = ChunkType::from_str("RuSt").unwrap();
    let no_png = vec![1u8, 2, 3];
    assert!(matches!(
        encode(&no_png, chunk_type, String::from("hello")),
        Err(PngError::ChunkHeaderError)
    ));
    let mut corrupt = testing_png().as_bytes();
    corrupt[20] ^= 1;
    assert!(matches!(encode(&corrupt, chunk_type, String::from("hello")), Err(PngError::CRCError)));
}

#[test]
fn decode_gives_the_first_message_of_the_type() {
    let mut png = testing_png();
    png.append_chunk(chunk_from_strings("miDl", "not me"));
    let found = decode(&png, &ChunkType::from_str("miDl").unwrap());
    assert_eq!(found, Ok(Some(String::from("I am another chunk"))));
    assert_eq!(decode(&png, &ChunkType::from_str("none").unwrap()), Ok(None));
}

#[test]
fn decode_reports_a_payload_that_is_not_text() {
    let mut png = testing_png();
    png.append_chunk(Chunk::new(ChunkType::from_str("biNa").unwrap(), vec![0xc3, 0x28]));
    assert_eq!(decode(&png, &ChunkType::from_str("biNa").unwrap()), Err(DecodeError));
}

#[test]
fn remove_takes_the_first_chunk_of_the_type() {
    let mut png = testing_png();
    assert_eq!(remove(&mut png, &ChunkType::from_str("FrSt").unwrap()), Ok(()));
    assert_eq!(type_names(&png), vec!["miDl", "LASt"]);
    assert_eq!(remove(&mut png, &ChunkType::from_str("FrSt").unwrap()), Err(NotFoundError));
    assert_eq!(type_names(&png), vec!["miDl", "LASt"]);
}

#[test]
fn print_lists_every_payload_in_order() {
    let mut png = testing_png();
    png.append_chunk(Chunk::new(ChunkType::from_str("biNa").unwrap(), vec![0xff]));
    let lines = print(&png);
    assert_eq!(
        lines,
        vec![
            Ok(String::from("I am the first chunk")),
            Ok(String::from("I am another chunk")),
            Ok(String::from("I am the last chunk")),
            Err(DecodeError),
        ]
    );
}
