//! The four things that are done to a file, from its bytes to the bytes or
//! the text that come of it. Reading and writing the file is the caller's
//! part.

use crate::chunk::{Chunk, ChunkView};
use crate::chunk_type::{parse_type_text, ChunkType};
use crate::error::Error;
use crate::png::{
    chunks_rendering, file_encoding, is_first_match, no_match, parse_file, Png,
};
use std::str::FromStr;
use vstd::prelude::*;
use vstd::slice::slice_to_vec;
use vstd::utf8::*;

verus! {

/// The file with one more chunk at its end, of type `name` and with the
/// bytes of `message` as its payload. A file that cannot be read is refused
/// before the type is looked at.
pub open spec fn encoded(file: Seq<u8>, name: Seq<char>, message: Seq<char>) -> Result<
    Seq<u8>,
    Error,
> {
    match parse_file(file) {
        Err(e) => Err(e),
        Ok(chunks) => match parse_type_text(encode_utf8(name)) {
            Err(e) => Err(e),
            Ok(code) => Ok(
                file_encoding(
                    chunks.push(ChunkView { chunk_type: code, data: encode_utf8(message) }),
                ),
            ),
        },
    }
}

/// Hides `message` in the file: appends a chunk of type `chunk_type` that
/// holds it, and returns the bytes of the new file.
pub fn encode(file: &[u8], chunk_type: &str, message: &str) -> (r: Result<Vec<u8>, Error>)
    ensures
        match r {
            Ok(out) => encoded(file@, chunk_type@, message@) == Ok::<Seq<u8>, Error>(out@),
            Err(e) => encoded(file@, chunk_type@, message@) == Err::<Seq<u8>, Error>(e),
        },
{
    let mut png: Png = match Png::try_from(file) {
        Ok(png) => png,
        Err(e) => {
            return Err(e);
        },
    };
    let code: ChunkType = match ChunkType::from_str(chunk_type) {
        Ok(t) => t,
        Err(e) => {
            return Err(e);
        },
    };
    let chunk: Chunk = Chunk::new(code, slice_to_vec(message.as_bytes()));
    png.append_chunk(chunk);
    Ok(png.as_bytes())
}

/// Finds the message that the first chunk of type `chunk_type` holds.
pub fn decode(file: &[u8], chunk_type: &str) -> (r: Result<String, Error>)
    ensures
        match r {
            Ok(text) => parse_file(file@) matches Ok(chunks) && exists|i: int|
                {
                    &&& #[trigger] is_first_match(chunks, chunk_type@, i)
                    &&& valid_utf8(chunks[i].data)
                    &&& text@ == decode_utf8(chunks[i].data)
                },
            Err(e) => match parse_file(file@) {
                Err(refused) => e == refused,
                Ok(chunks) => match e {
                    Error::NonUtf8Payload => exists|i: int|
                        #[trigger] is_first_match(chunks, chunk_type@, i) && !valid_utf8(
                            chunks[i].data,
                        ),
                    Error::ChunkNotFound { name } => no_match(chunks, chunk_type@) && name@
                        == chunk_type@,
                    _ => false,
                },
            },
        },
{
    let png: Png = match Png::try_from(file) {
        Ok(png) => png,
        Err(e) => {
            return Err(e);
        },
    };
    assert(parse_file(file@)->Ok_0 == png@);
    match png.chunk_by_type(chunk_type) {
        Some(chunk) => chunk.data_as_string(),
        None => Err(Error::ChunkNotFound { name: chunk_type.to_owned() }),
    }
}

/// Takes the first chunk of type `chunk_type` out of the file and returns
/// the bytes of the new file.
pub fn remove(file: &[u8], chunk_type: &str) -> (r: Result<Vec<u8>, Error>)
    ensures
        match r {
            Ok(out) => parse_file(file@) matches Ok(chunks) && exists|i: int|
                #[trigger] is_first_match(chunks, chunk_type@, i) && out@ == file_encoding(
                    chunks.remove(i),
                ),
            Err(e) => match parse_file(file@) {
                Err(refused) => e == refused,
                Ok(chunks) => {
                    &&& no_match(chunks, chunk_type@)
                    &&& e matches Error::ChunkNotFound { name }
                    &&& name@ == chunk_type@
                },
            },
        },
{
    let mut png: Png = match Png::try_from(file) {
        Ok(png) => png,
        Err(e) => {
            return Err(e);
        },
    };
    assert(parse_file(file@)->Ok_0 == png@);
    match png.remove_chunk(chunk_type) {
        Ok(_) => Ok(png.as_bytes()),
        Err(e) => Err(e),
    }
}

/// The chunks of the file as text for a reader.
pub fn print(file: &[u8]) -> (r: Result<String, Error>)
    ensures
        match r {
            Ok(text) => parse_file(file@) matches Ok(chunks) && text@ == chunks_rendering(chunks),
            Err(e) => parse_file(file@) == Err::<Seq<ChunkView>, Error>(e),
        },
{
    match Png::try_from(file) {
        Ok(png) => Ok(png.to_string()),
        Err(e) => Err(e),
    }
}

} // verus!
