//! The four-letter type code of a chunk.
//!
//! A type code is four ASCII letters. The case of each letter is a flag: an
//! upper-case first letter marks a critical chunk, an upper-case second
//! letter a public one, the third letter is reserved and must be upper case,
//! and a lower-case fourth letter marks a chunk that is safe to copy.

use crate::error::Error;
use crate::text::{ascii_text, lemma_ascii_is_utf8, utf8_string};
use vstd::prelude::*;
use vstd::std_specs::cmp::PartialEqSpecImpl;
use vstd::std_specs::convert::TryFromSpecImpl;
use vstd::utf8::*;

verus! {

/// `A` to `Z`.
pub open spec fn is_upper(b: u8) -> bool {
    0x41 <= b <= 0x5a
}

/// `a` to `z`.
pub open spec fn is_lower(b: u8) -> bool {
    0x61 <= b <= 0x7a
}

/// An ASCII letter of either case.
pub open spec fn is_letter(b: u8) -> bool {
    is_upper(b) || is_lower(b)
}

/// Four bytes, each an ASCII letter: what a `ChunkType` can hold.
pub open spec fn is_type_code(code: Seq<u8>) -> bool {
    &&& code.len() == 4
    &&& forall|i: int| 0 <= i < 4 ==> is_letter(#[trigger] code[i])
}

/// A type code that may stand in a file: its reserved third letter is upper
/// case.
pub open spec fn is_conforming(code: Seq<u8>) -> bool {
    is_type_code(code) && is_upper(code[2])
}

/// What `from_str` makes of the bytes that spell a string.
pub open spec fn parse_type_text(bytes: Seq<u8>) -> Result<Seq<u8>, Error> {
    if bytes.len() != 4 {
        Err(Error::InvalidTypeString)
    } else if !is_type_code(bytes) {
        Err(Error::InvalidTypeBytes)
    } else {
        Ok(bytes)
    }
}

/// A type code. Its view is its four bytes.
#[derive(Debug, Clone, Copy)]
pub struct ChunkType([u8; 4]);

impl View for ChunkType {
    type V = Seq<u8>;

    closed spec fn view(&self) -> Seq<u8> {
        self.0@
    }
}

fn upper(b: u8) -> (r: bool)
    ensures
        r == is_upper(b),
{
    0x41 <= b && b <= 0x5a
}

fn lower(b: u8) -> (r: bool)
    ensures
        r == is_lower(b),
{
    0x61 <= b && b <= 0x7a
}

fn letter(b: u8) -> (r: bool)
    ensures
        r == is_letter(b),
{
    upper(b) || lower(b)
}

impl ChunkType {
    /// Every value of the type holds four letters.
    #[verifier::type_invariant]
    pub open spec fn wf(&self) -> bool {
        is_type_code(self@)
    }

    fn new(bytes: [u8; 4]) -> (r: Result<ChunkType, Error>)
        ensures
            match r {
                Ok(t) => is_type_code(bytes@) && t == ChunkType(bytes),
                Err(e) => !is_type_code(bytes@) && e == Error::InvalidTypeBytes,
            },
    {
        if letter(bytes[0]) && letter(bytes[1]) && letter(bytes[2]) && letter(bytes[3]) {
            Ok(ChunkType(bytes))
        } else {
            Err(Error::InvalidTypeBytes)
        }
    }

    /// The four bytes.
    pub fn bytes(&self) -> (r: [u8; 4])
        ensures
            r@ == self@,
    {
        self.0
    }

    /// Whether the code may stand in a file: four letters, the third of them
    /// upper case.
    pub fn is_valid(&self) -> (r: bool)
        ensures
            r == is_conforming(self@),
    {
        letter(self.0[0]) && letter(self.0[1]) && letter(self.0[2]) && letter(self.0[3])
            && self.is_reserved_bit_valid()
    }

    /// Whether the first letter is upper case.
    pub fn is_critical(&self) -> (r: bool)
        ensures
            r == is_upper(self@[0]),
    {
        upper(self.0[0])
    }

    /// Whether the second letter is upper case.
    pub fn is_public(&self) -> (r: bool)
        ensures
            r == is_upper(self@[1]),
    {
        upper(self.0[1])
    }

    /// Whether the third letter is upper case.
    pub fn is_reserved_bit_valid(&self) -> (r: bool)
        ensures
            r == is_upper(self@[2]),
    {
        upper(self.0[2])
    }

    /// Whether the fourth letter is lower case.
    pub fn is_safe_to_copy(&self) -> (r: bool)
        ensures
            r == is_lower(self@[3]),
    {
        lower(self.0[3])
    }

    /// The code as text: one character for each byte. A type code is four
    /// letters, so this never fails.
    pub fn to_string(&self) -> (r: Result<String, Error>)
        ensures
            r matches Ok(s) && s@ == ascii_text(self@),
    {
        proof {
            use_type_invariant(self);
            lemma_ascii_is_utf8(self.0@);
        }
        match utf8_string(self.0.as_slice()) {
            Some(s) => Ok(s),
            None => Err(Error::NonUtf8TypeBytes),
        }
    }
}

/// Makes a type code of four bytes, if each is an ASCII letter. The reserved
/// bit is not looked at here.
impl TryFrom<[u8; 4]> for ChunkType {
    type Error = Error;

    fn try_from(bytes: [u8; 4]) -> (r: Result<ChunkType, Error>)
        ensures
            match r {
                Ok(t) => is_type_code(bytes@) && t@ == bytes@ && t.wf(),
                Err(e) => !is_type_code(bytes@) && e == Error::InvalidTypeBytes,
            },
    {
        ChunkType::new(bytes)
    }
}

impl TryFromSpecImpl<[u8; 4]> for ChunkType {
    open spec fn obeys_try_from_spec() -> bool {
        true
    }

    closed spec fn try_from_spec(bytes: [u8; 4]) -> Result<ChunkType, Error> {
        if is_type_code(bytes@) {
            Ok(ChunkType(bytes))
        } else {
            Err(Error::InvalidTypeBytes)
        }
    }
}

/// Makes a type code of a string, if it is four bytes long and each is an
/// ASCII letter.
impl std::str::FromStr for ChunkType {
    type Err = Error;

    fn from_str(s: &str) -> (r: Result<ChunkType, Error>)
        ensures
            match r {
                Ok(t) => parse_type_text(encode_utf8(s@)) == Ok::<Seq<u8>, Error>(t@) && t.wf(),
                Err(e) => parse_type_text(encode_utf8(s@)) == Err::<Seq<u8>, Error>(e),
            },
    {
        if s.len() != 4 {
            return Err(Error::InvalidTypeString);
        }
        let bytes = s.as_bytes();
        let code: [u8; 4] = [bytes[0], bytes[1], bytes[2], bytes[3]];
        assert(code@ =~= bytes@);
        ChunkType::new(code)
    }
}

/// Two type codes are equal if their bytes are.
impl PartialEq for ChunkType {
    fn eq(&self, other: &Self) -> (r: bool) {
        let same = self.0[0] == other.0[0] && self.0[1] == other.0[1] && self.0[2] == other.0[2]
            && self.0[3] == other.0[3];
        assert(same == (self@ =~= other@));
        same
    }
}

impl PartialEqSpecImpl for ChunkType {
    open spec fn obeys_eq_spec() -> bool {
        true
    }

    open spec fn eq_spec(&self, other: &Self) -> bool {
        self@ == other@
    }
}

impl Eq for ChunkType {

}

/// A string of four ASCII letters is spelled by four bytes, one for each
/// letter, and they make a type code.
pub proof fn lemma_letters_are_a_type_code(name: Seq<char>)
    requires
        name.len() == 4,
        forall|i: int| 0 <= i < 4 ==> ('A' <= #[trigger] name[i] <= 'Z' || 'a' <= name[i] <= 'z'),
    ensures
        encode_utf8(name) == Seq::new(4, |i: int| name[i] as u8),
        parse_type_text(encode_utf8(name)) == Ok::<Seq<u8>, Error>(encode_utf8(name)),
{
    is_ascii_chars_encode_utf8(name);
    assert(encode_utf8(name) =~= Seq::new(4, |i: int| name[i] as u8));
}

/// A type code is always four bytes long.
pub proof fn lemma_type_len(t: ChunkType)
    ensures
        t@.len() == 4,
{
}

/// Among type codes, the one with a lower-case third letter is the one that
/// does not conform.
pub proof fn lemma_conforming_iff_third_not_lower(code: Seq<u8>)
    requires
        is_type_code(code),
    ensures
        is_conforming(code) <==> !is_lower(code[2]),
{
}

} // verus!
