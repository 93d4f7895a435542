//! The one error type of the crate.

use crate::text::{decimal, decimal_string};
use vstd::prelude::*;
use vstd::string::StringExecFns;

verus! {

/// Why a type code, a chunk or a file was refused.
#[derive(Debug, PartialEq, Eq)]
pub enum Error {
    /// One of the four bytes of a type code is not an ASCII letter.
    InvalidTypeBytes,
    /// The text given as a type code is not four bytes long.
    InvalidTypeString,
    /// The bytes of a type code are not UTF-8.
    NonUtf8TypeBytes,
    /// The input ends before the chunk that its length field announces.
    /// `available` counts the bytes that follow the length field. Input
    /// that is too short to hold a length field declares nothing and has
    /// nothing after it: both are zero.
    TruncatedInput { declared_length: usize, available: usize },
    /// The reserved bit of a chunk's type code is set: its third letter is
    /// lower case.
    InvalidChunkType,
    /// The checksum that a chunk carries (`found`) is not the checksum of
    /// its type and payload (`expected`).
    CrcMismatch { expected: u32, found: u32 },
    /// A payload that was asked for as text is not UTF-8.
    NonUtf8Payload,
    /// The input does not start with the eight bytes of the PNG signature.
    BadSignature,
    /// After the last chunk there are bytes left, too few to hold a length
    /// field.
    UnexpectedTrailingBytes,
    /// The file has no chunk of the type that was named.
    ChunkNotFound { name: String },
}

/// The words for an error.
pub open spec fn message(e: Error) -> Seq<char> {
    match e {
        Error::InvalidTypeBytes => "invalid byte array"@,
        Error::InvalidTypeString => "invalid string"@,
        Error::NonUtf8TypeBytes => "Chunk type is not UTF-8"@,
        Error::TruncatedInput { declared_length, available } => "Input size "@ + decimal(
            available as nat,
        ) + " too small, expected "@ + decimal(declared_length as nat),
        Error::InvalidChunkType => "Invalid chunk type"@,
        Error::CrcMismatch { expected, found } => "Invalid CRC "@ + decimal(found as nat)
            + ", expected "@ + decimal(expected as nat),
        Error::NonUtf8Payload => "Chunk data is not UTF-8"@,
        Error::BadSignature => "Invalid PNG signature"@,
        Error::UnexpectedTrailingBytes => "Unexpected bytes after the last chunk"@,
        Error::ChunkNotFound { name } => "No chunk of type "@ + name@,
    }
}

impl Error {
    /// The error in words.
    pub fn to_string(&self) -> (s: String)
        ensures
            s@ == message(*self),
    {
        match self {
            Error::InvalidTypeBytes => "invalid byte array".to_owned(),
            Error::InvalidTypeString => "invalid string".to_owned(),
            Error::NonUtf8TypeBytes => "Chunk type is not UTF-8".to_owned(),
            Error::TruncatedInput { declared_length, available } => {
                let mut s: String = "Input size ".to_owned();
                s.append(decimal_string(*available as u64).as_str());
                s.append(" too small, expected ");
                s.append(decimal_string(*declared_length as u64).as_str());
                s
            },
            Error::InvalidChunkType => "Invalid chunk type".to_owned(),
            Error::CrcMismatch { expected, found } => {
                let mut s: String = "Invalid CRC ".to_owned();
                s.append(decimal_string(*found as u64).as_str());
                s.append(", expected ");
                s.append(decimal_string(*expected as u64).as_str());
                s
            },
            Error::NonUtf8Payload => "Chunk data is not UTF-8".to_owned(),
            Error::BadSignature => "Invalid PNG signature".to_owned(),
            Error::UnexpectedTrailingBytes => "Unexpected bytes after the last chunk".to_owned(),
            Error::ChunkNotFound { name } => {
                let mut s: String = "No chunk of type ".to_owned();
                s.append(name.as_str());
                s
            },
        }
    }
}

} // verus!
