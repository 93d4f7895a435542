use pngme::chunk::Chunk;
use pngme::chunk_type::ChunkType;
use pngme::error::Error;
use pngme::png::{header, Png};
use std::str::FromStr;

const SIGNATURE: [u8; 8] = [137, 80, 78, 71, 13, 10, 26, 10];

// A picture of one pixel.
const ONE_PIXEL: [u8; 67] = [
    137, 80, 78, 71, 13, 10, 26, 10, 0, 0, 0, 13, 73, 72, 68, 82, 0, 0, 0, 1, 0, 0, 0, 1, 8, 6,
    0, 0, 0, 31, 21, 196, 137, 0, 0, 0, 10, 73, 68, 65, 84, 120, 156, 99, 0, 1, 0, 0, 5, 0, 1,
    13, 10, 45, 180, 0, 0, 0, 0, 73, 69, 78, 68, 174, 66, 96, 130,
];

fn chunk_of(name: &str, payload: &[u8]) -> Chunk {
    Chunk::new(ChunkType::from_str(name).unwrap(), payload.to_vec())
}

fn three_chunks() -> Png {
    Png::from_chunks(vec![
        chunk_of("FrSt", b"I am the first chunk"),
        chunk_of("miDl", b"I am another chunk"),
        chunk_of("LASt", b"I am the last chunk"),
    ])
}

fn types_of(png: &Png) -> Vec<String> {
    png.chunks().iter().map(|c| c.chunk_type().to_string().unwrap()).collect()
}

#[test]
fn header_is_the_png_signature() {
    assert_eq!(header(), SIGNATURE);
    assert_eq!(header(), [0x89, b'P', b'N', b'G', b'\r', b'\n', 0x1a, b'\n']);
}

#[test]
fn signature_alone_is_a_file_without_chunks() {
    let png = Png::try_from(&SIGNATURE[..]).unwrap();
    assert_eq!(png.chunks().len(), 0);
    assert_eq!(png.as_bytes(), SIGNATURE);
    assert_eq!(Png::from_chunks(Vec::new()).as_bytes(), SIGNATURE);
}

#[test]
fn a_real_file_is_read_and_written_back_byte_for_byte() {
    let png = Png::try_from(&ONE_PIXEL[..]).unwrap();
    assert_eq!(types_of(&png), ["IHDR", "IDAT", "IEND"]);
    assert_eq!(png.chunks()[0].length(), 13);
    assert_eq!(png.chunks()[1].length(), 10);
    assert_eq!(png.chunks()[2].length(), 0);
    assert_eq!(png.chunks()[0].crc(), 0x1f15_c489);
    assert_eq!(png.as_bytes(), ONE_PIXEL);
}

#[test]
fn file_round_trip_keeps_the_chunks_and_their_order() {
    let png = three_chunks();
    let bytes = png.as_bytes();
    let read = Png::try_from(&bytes[..]).unwrap();
    assert_eq!(types_of(&read), ["FrSt", "miDl", "LASt"]);
    for (a, b) in png.chunks().iter().zip(read.chunks().iter()) {
        assert_eq!(a.chunk_type().bytes(), b.chunk_type().bytes());
        assert_eq!(a.data(), b.data());
    }
    assert_eq!(read.as_bytes(), bytes);
    // Writing does not use up the file.
    assert_eq!(png.as_bytes(), bytes);
}

#[test]
fn as_bytes_is_the_signature_and_then_each_chunk() {
    let png = three_chunks();
    let mut expected: Vec<u8> = SIGNATURE.to_vec();
    for chunk in png.chunks() {
        expected.extend(chunk.as_bytes());
    }
    assert_eq!(png.as_bytes(), expected);
}

#[test]
fn a_wrong_or_short_signature_is_refused() {
    assert_eq!(Png::try_from(&[][..]).err(), Some(Error::BadSignature));
    assert_eq!(Png::try_from(&SIGNATURE[..7]).err(), Some(Error::BadSignature));
    for k in 0..8 {
        let mut bytes = ONE_PIXEL.to_vec();
        bytes[k] ^= 1;
        assert_eq!(Png::try_from(&bytes[..]).err(), Some(Error::BadSignature));
    }
    assert_eq!(Png::try_from(&ONE_PIXEL[8..]).err(), Some(Error::BadSignature));
}

#[test]
fn one_to_three_bytes_after_the_last_chunk_are_trailing_bytes() {
    for extra in 1..4 {
        let mut bytes = ONE_PIXEL.to_vec();
        bytes.extend(vec![0u8; extra]);
        assert_eq!(Png::try_from(&bytes[..]).err(), Some(Error::UnexpectedTrailingBytes));
        let mut bytes = SIGNATURE.to_vec();
        bytes.extend(vec![7u8; extra]);
        assert_eq!(Png::try_from(&bytes[..]).err(), Some(Error::UnexpectedTrailingBytes));
    }
}

#[test]
fn a_cut_chunk_at_the_end_is_truncated_input() {
    let mut bytes = ONE_PIXEL.to_vec();
    bytes.extend([0, 0, 0, 0]);
    assert_eq!(
        Png::try_from(&bytes[..]).err(),
        Some(Error::TruncatedInput { declared_length: 0, available: 0 })
    );
    assert_eq!(
        Png::try_from(&ONE_PIXEL[..66]).err(),
        Some(Error::TruncatedInput { declared_length: 0, available: 7 })
    );
    assert_eq!(
        Png::try_from(&ONE_PIXEL[..40]).err(),
        Some(Error::TruncatedInput { declared_length: 10, available: 3 })
    );
}

#[test]
fn the_first_chunk_that_is_refused_decides_the_error() {
    // Damage the payload of the second chunk and the type of the third.
    let mut bytes = ONE_PIXEL.to_vec();
    bytes[45] ^= 0xff;
    bytes[60] = b'1';
    assert_eq!(
        Png::try_from(&bytes[..]).err(),
        Some(Error::CrcMismatch { expected: 3922626168, found: 0x0d0a_2db4 })
    );
    // Only the type of the third.
    let mut bytes = ONE_PIXEL.to_vec();
    bytes[60] = b'1';
    assert_eq!(Png::try_from(&bytes[..]).err(), Some(Error::InvalidTypeBytes));
    // A reserved bit in the first.
    let mut bytes = ONE_PIXEL.to_vec();
    bytes[14] = b'd';
    assert_eq!(Png::try_from(&bytes[..]).err(), Some(Error::InvalidChunkType));
}

#[test]
fn append_puts_the_chunk_last() {
    let mut png = three_chunks();
    png.append_chunk(chunk_of("TeSt", b"Message"));
    assert_eq!(types_of(&png), ["FrSt", "miDl", "LASt", "TeSt"]);
    assert_eq!(png.chunks()[3].data(), b"Message");
    // No type is special, and nothing is made unique.
    png.append_chunk(chunk_of("FrSt", b"again"));
    assert_eq!(types_of(&png), ["FrSt", "miDl", "LASt", "TeSt", "FrSt"]);
}

#[test]
fn append_then_lookup_finds_the_payload() {
    let mut png = three_chunks();
    png.append_chunk(chunk_of("TeSt", b"Message"));
    let found = png.chunk_by_type("TeSt").unwrap();
    assert_eq!(found.chunk_type().to_string().unwrap(), "TeSt");
    assert_eq!(found.data(), b"Message");
    assert_eq!(found.data_as_string().unwrap(), "Message");
    assert_eq!(png.position_by_type("TeSt"), Some(3));
}

#[test]
fn lookup_after_append_prefers_an_earlier_chunk_of_the_type() {
    let mut png = three_chunks();
    png.append_chunk(chunk_of("miDl", b"newer"));
    assert_eq!(png.chunk_by_type("miDl").unwrap().data(), b"I am another chunk");
    assert_eq!(png.position_by_type("miDl"), Some(1));
}

#[test]
fn lookup_finds_the_first_of_several() {
    let png = Png::from_chunks(vec![
        chunk_of("IHDR", b"head"),
        chunk_of("teXt", b"one"),
        chunk_of("teXt", b"two"),
        chunk_of("IEND", b""),
    ]);
    assert_eq!(png.chunk_by_type("teXt").unwrap().data(), b"one");
    assert_eq!(png.position_by_type("teXt"), Some(1));
    assert_eq!(png.position_by_type("IHDR"), Some(0));
    assert_eq!(png.position_by_type("IEND"), Some(3));
}

#[test]
fn lookup_is_none_for_an_absent_type_and_for_what_is_no_type() {
    let png = three_chunks();
    assert!(png.chunk_by_type("TeSt").is_none());
    // The case of each letter counts.
    assert!(png.chunk_by_type("frSt").is_none());
    assert!(png.chunk_by_type("FRST").is_none());
    for name in ["", "Fr", "FrStt", "Fr1t", "éé", "FrS\0"] {
        assert!(png.chunk_by_type(name).is_none(), "{:?}", name);
        assert_eq!(png.position_by_type(name), None, "{:?}", name);
    }
}

#[test]
fn remove_takes_out_one_chunk_and_keeps_the_order() {
    let mut png = three_chunks();
    png.append_chunk(chunk_of("TeSt", b"Message"));
    let removed = png.remove_chunk("miDl").unwrap();
    assert_eq!(removed.chunk_type().to_string().unwrap(), "miDl");
    assert_eq!(removed.data(), b"I am another chunk");
    assert_eq!(types_of(&png), ["FrSt", "LASt", "TeSt"]);
    assert!(png.chunk_by_type("miDl").is_none());
}

#[test]
fn remove_takes_only_the_first_of_several() {
    let mut png = Png::from_chunks(vec![
        chunk_of("teXt", b"one"),
        chunk_of("IDAT", b"pixels"),
        chunk_of("teXt", b"two"),
        chunk_of("teXt", b"three"),
    ]);
    assert_eq!(png.remove_chunk("teXt").unwrap().data(), b"one");
    assert_eq!(types_of(&png), ["IDAT", "teXt", "teXt"]);
    assert_eq!(png.remove_chunk("teXt").unwrap().data(), b"two");
    assert_eq!(png.remove_chunk("teXt").unwrap().data(), b"three");
    assert_eq!(types_of(&png), ["IDAT"]);
    assert_eq!(
        png.remove_chunk("teXt").err(),
        Some(Error::ChunkNotFound { name: String::from("teXt") })
    );
}

#[test]
fn remove_without_a_match_changes_nothing() {
    let mut png = three_chunks();
    let before = png.as_bytes();
    assert_eq!(
        png.remove_chunk("TeSt").err(),
        Some(Error::ChunkNotFound { name: String::from("TeSt") })
    );
    assert_eq!(
        png.remove_chunk("no").err(),
        Some(Error::ChunkNotFound { name: String::from("no") })
    );
    assert_eq!(png.chunks().len(), 3);
    assert_eq!(png.as_bytes(), before);
}

#[test]
fn hidden_message_survives_writing_and_reading() {
    let mut png = Png::try_from(&SIGNATURE[..]).unwrap();
    png.append_chunk(chunk_of("RuSt", b"hello"));
    let bytes = png.as_bytes();
    assert_eq!(
        bytes,
        [
            137, 80, 78, 71, 13, 10, 26, 10, 0, 0, 0, 5, 82, 117, 83, 116, 104, 101, 108, 108,
            111, 44, 161, 15, 204
        ]
    );
    let read = Png::try_from(&bytes[..]).unwrap();
    assert_eq!(read.chunk_by_type("RuSt").unwrap().data_as_string().unwrap(), "hello");
}

#[test]
fn file_text_is_the_text_of_each_chunk() {
    assert_eq!(Png::from_chunks(Vec::new()).to_string(), "");
    let png = Png::try_from(&ONE_PIXEL[..]).unwrap();
    assert_eq!(
        png.to_string(),
        "Chunk {\n  Length: 13\n  Type: IHDR\n  Data: 13 bytes\n  Crc: 521520265\n}\n\
         Chunk {\n  Length: 10\n  Type: IDAT\n  Data: 10 bytes\n  Crc: 218770868\n}\n\
         Chunk {\n  Length: 0\n  Type: IEND\n  Data: 0 bytes\n  Crc: 2923585666\n}\n"
    );
    let mut shown = String::new();
    for chunk in png.chunks() {
        shown.push_str(&chunk.to_string());
    }
    assert_eq!(png.to_string(), shown);
}
