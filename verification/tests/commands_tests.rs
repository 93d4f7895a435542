use pngme::commands::{decode, encode, print, remove};
use pngme::error::Error;

const BARE: [u8; 8] = [137, 80, 78, 71, 13, 10, 26, 10];

const PICTURE: [u8; 67] = [
    137, 80, 78, 71, 13, 10, 26, 10, 0, 0, 0, 13, 73, 72, 68, 82, 0, 0, 0, 1, 0, 0, 0, 1, 8, 6,
    0, 0, 0, 31, 21, 196, 137, 0, 0, 0, 10, 73, 68, 65, 84, 120, 156, 99, 0, 1, 0, 0, 5, 0, 1,
    13, 10, 45, 180, 0, 0, 0, 0, 73, 69, 78, 68, 174, 66, 96, 130,
];

const HELLO: [u8; 17] = [0, 0, 0, 5, 82, 117, 83, 116, 104, 101, 108, 108, 111, 44, 161, 15, 204];

#[test]
fn encode_appends_one_chunk_and_leaves_the_rest() {
    let out = encode(&PICTURE, "RuSt", "hello").unwrap();
    assert_eq!(&out[..67], PICTURE);
    assert_eq!(&out[67..], HELLO);
    let bare = encode(&BARE, "RuSt", "hello").unwrap();
    assert_eq!(&bare[..8], BARE);
    assert_eq!(&bare[8..], HELLO);
}

#[test]
fn encode_takes_an_empty_message_and_text_beyond_ascii() {
    let out = encode(&BARE, "RuSt", "").unwrap();
    assert_eq!(out.len(), 20);
    assert_eq!(decode(&out, "RuSt").unwrap(), "");
    let out = encode(&PICTURE, "seCr", "grüße ✓").unwrap();
    assert_eq!(out.len(), 67 + 12 + "grüße ✓".len());
    assert_eq!(decode(&out, "seCr").unwrap(), "grüße ✓");
}

#[test]
fn encode_refuses_a_bad_file_before_a_bad_type() {
    assert_eq!(encode(&PICTURE[..20], "RuSt", "m").err().map(|e| matches!(e, Error::TruncatedInput { .. })), Some(true));
    assert_eq!(encode(b"not a png", "Ru1t", "m"), Err(Error::BadSignature));
    assert_eq!(encode(&PICTURE, "Ru1t", "m"), Err(Error::InvalidTypeBytes));
    assert_eq!(encode(&PICTURE, "RuStt", "m"), Err(Error::InvalidTypeString));
}

#[test]
fn encode_writes_a_type_that_reading_refuses() {
    // The reserved bit is checked when a file is read, not when a chunk is made.
    let out = encode(&BARE, "Rust", "x").unwrap();
    assert_eq!(&out[8..], [0, 0, 0, 1, 82, 117, 115, 116, 120, 155, 42, 168, 237]);
    assert_eq!(decode(&out, "Rust"), Err(Error::InvalidChunkType));
}

#[test]
fn decode_finds_what_encode_hid() {
    let out = encode(&PICTURE, "RuSt", "This is where your secret message will be!").unwrap();
    assert_eq!(decode(&out, "RuSt").unwrap(), "This is where your secret message will be!");
}

#[test]
fn decode_reads_the_first_chunk_of_the_type() {
    let once = encode(&PICTURE, "RuSt", "first").unwrap();
    let twice = encode(&once, "RuSt", "second").unwrap();
    assert_eq!(decode(&twice, "RuSt").unwrap(), "first");
}

#[test]
fn decode_tells_a_missing_chunk_from_a_payload_that_is_no_text() {
    assert_eq!(
        decode(&PICTURE, "RuSt"),
        Err(Error::ChunkNotFound { name: String::from("RuSt") })
    );
    assert_eq!(
        decode(&PICTURE, "nonsense"),
        Err(Error::ChunkNotFound { name: String::from("nonsense") })
    );
    // The compressed pixels are not UTF-8.
    assert_eq!(decode(&PICTURE, "IDAT"), Err(Error::NonUtf8Payload));
    assert_eq!(decode(&PICTURE, "IEND").unwrap(), "");
    assert_eq!(decode(&PICTURE[1..], "IEND"), Err(Error::BadSignature));
}

#[test]
fn remove_undoes_encode() {
    let out = encode(&PICTURE, "RuSt", "hello").unwrap();
    assert_eq!(remove(&out, "RuSt").unwrap(), PICTURE);
}

#[test]
fn remove_takes_out_the_first_chunk_of_the_type_only() {
    let once = encode(&PICTURE, "RuSt", "first").unwrap();
    let twice = encode(&once, "RuSt", "second").unwrap();
    let left = remove(&twice, "RuSt").unwrap();
    assert_eq!(decode(&left, "RuSt").unwrap(), "second");
    assert_eq!(left, encode(&PICTURE, "RuSt", "second").unwrap());
    let without_pixels = remove(&PICTURE, "IDAT").unwrap();
    assert_eq!(&without_pixels[..33], &PICTURE[..33]);
    assert_eq!(&without_pixels[33..], &PICTURE[55..]);
}

#[test]
fn remove_reports_a_missing_chunk_and_a_bad_file() {
    assert_eq!(
        remove(&PICTURE, "RuSt"),
        Err(Error::ChunkNotFound { name: String::from("RuSt") })
    );
    assert_eq!(remove(&BARE[..4], "RuSt"), Err(Error::BadSignature));
    let mut damaged = PICTURE.to_vec();
    damaged[66] ^= 1;
    assert_eq!(
        remove(&damaged, "IDAT"),
        Err(Error::CrcMismatch { expected: 0xae42_6082, found: 0xae42_6083 })
    );
}

#[test]
fn print_shows_each_chunk() {
    assert_eq!(print(&BARE).unwrap(), "");
    let out = encode(&BARE, "RuSt", "This is where your secret message will be!").unwrap();
    assert_eq!(
        print(&out).unwrap(),
        "Chunk {\n  Length: 42\n  Type: RuSt\n  Data: 42 bytes\n  Crc: 2882656334\n}\n"
    );
    assert_eq!(print(&PICTURE).unwrap().lines().count(), 18);
    assert_eq!(print(&PICTURE[..60]).err().map(|e| matches!(e, Error::TruncatedInput { .. })), Some(true));
    assert_eq!(print(b""), Err(Error::BadSignature));
}
