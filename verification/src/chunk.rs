//! One chunk: a type code and a payload, framed by a length and a checksum.
//!
//! On the wire a chunk is `length | type | payload | crc`: the length of the
//! payload as a big-endian `u32`, the four bytes of the type code, the payload,
//! and the CRC-32 of type and payload as a big-endian `u32`.

use crate::checksum::{checksum, crc32_iso_hdlc};
use crate::chunk_type::{is_conforming, is_type_code, is_upper, ChunkType};
use crate::endian::{be32, be32_bytes, be32_value, read_be32};
use crate::error::Error;
use crate::text::{ascii_text, decimal, decimal_string, utf8_string};
use vstd::prelude::*;
use vstd::slice::{slice_subrange, slice_to_vec};
use vstd::std_specs::convert::TryFromSpecImpl;
use vstd::string::StringExecFns;
use vstd::utf8::*;

verus! {

/// What a chunk is: the four bytes of its type code and its payload.
pub struct ChunkView {
    pub chunk_type: Seq<u8>,
    pub data: Seq<u8>,
}

/// The checksum of a chunk: that of its type code followed by its payload.
pub open spec fn checksum_of(c: ChunkView) -> u32 {
    crc32_iso_hdlc(c.chunk_type + c.data)
}

/// The length field of a chunk: the length of its payload. A payload of
/// 4 GiB or more does not fit the field, which then holds the low 32 bits of
/// the length.
pub open spec fn length_field(c: ChunkView) -> u32 {
    c.data.len() as u32
}

/// The bytes of a chunk with `crc` in the checksum field.
pub open spec fn framing(c: ChunkView, crc: u32) -> Seq<u8> {
    be32_bytes(length_field(c) as int) + c.chunk_type + c.data + be32_bytes(crc as int)
}

/// The bytes of a chunk.
pub open spec fn encoding(c: ChunkView) -> Seq<u8> {
    framing(c, checksum_of(c))
}

/// The fields at the head of `bytes`, before the checksum is looked at: the
/// chunk and the checksum that the bytes declare.
///
/// The length comes first: a chunk whose announced payload, type code and
/// checksum do not fit in the bytes after the length field is truncated.
/// Fewer than four bytes hold no length field: then nothing is declared and
/// nothing comes after it. Then the type code must be four letters, and its
/// reserved bit must be clear.
pub open spec fn parse_fields(bytes: Seq<u8>) -> Result<(ChunkView, u32), Error> {
    if bytes.len() < 4 {
        Err(Error::TruncatedInput { declared_length: 0, available: 0 })
    } else {
        let declared = be32_value(bytes.subrange(0, 4));
        let available = bytes.len() - 4;
        let code = bytes.subrange(4, 8);
        if available < declared + 8 {
            Err(
                Error::TruncatedInput {
                    declared_length: declared as usize,
                    available: available as usize,
                },
            )
        } else if !is_type_code(code) {
            Err(Error::InvalidTypeBytes)
        } else if !is_upper(code[2]) {
            Err(Error::InvalidChunkType)
        } else {
            Ok(
                (
                    ChunkView { chunk_type: code, data: bytes.subrange(8, 8 + declared) },
                    be32_value(bytes.subrange(8 + declared, 12 + declared)) as u32,
                ),
            )
        }
    }
}

/// The verdict on a chunk whose bytes declare the checksum `found` while its
/// type and payload have the checksum `computed`.
pub open spec fn accept(c: ChunkView, found: u32, computed: u32) -> Result<ChunkView, Error> {
    if found == computed {
        Ok(c)
    } else {
        Err(Error::CrcMismatch { expected: computed, found })
    }
}

/// The chunk at the head of `bytes`. Bytes after the chunk are ignored.
///
/// The definition is opaque, so that a proof about a whole file need not
/// look into each chunk: `reveal(parse)` shows it.
#[verifier::opaque]
pub open spec fn parse(bytes: Seq<u8>) -> Result<ChunkView, Error> {
    match parse_fields(bytes) {
        Ok((c, found)) => accept(c, found, checksum_of(c)),
        Err(e) => Err(e),
    }
}

/// The number of bytes that the encoding of a chunk takes.
pub open spec fn encoded_len(c: ChunkView) -> int {
    12 + c.data.len() as int
}

/// What is shown of a chunk whose checksum is `crc`: its length, its type
/// code, the size of its payload and the checksum, each on a line of its own.
pub open spec fn rendering(c: ChunkView, crc: u32) -> Seq<char> {
    "Chunk {\n  Length: "@ + decimal(c.data.len()) + "\n  Type: "@ + ascii_text(c.chunk_type)
        + "\n  Data: "@ + decimal(c.data.len()) + " bytes\n  Crc: "@ + decimal(crc as nat)
        + "\n}\n"@
}

/// A chunk. It owns its payload; length and checksum are computed when asked
/// for, never stored.
pub struct Chunk {
    chunk_type: ChunkType,
    data: Vec<u8>,
}

impl View for Chunk {
    type V = ChunkView;

    closed spec fn view(&self) -> ChunkView {
        ChunkView { chunk_type: self.chunk_type@, data: self.data@ }
    }
}

/// Appends `src` to `out`.
pub(crate) fn append_bytes(out: &mut Vec<u8>, src: &[u8])
    ensures
        final(out)@ == old(out)@ + src@,
{
    let mut i: usize = 0;
    while i < src.len()
        invariant
            i <= src@.len(),
            out@ == old(out)@ + src@.subrange(0, i as int),
        decreases src@.len() - i,
    {
        out.push(src[i]);
        i = i + 1;
        assert(out@ =~= old(out)@ + src@.subrange(0, i as int));
    }
    assert(src@.subrange(0, i as int) =~= src@);
}

impl Chunk {
    /// A chunk of the given type and payload. The type code is taken as it
    /// is: whether it conforms is checked when a chunk is read, not when one
    /// is made.
    pub fn new(chunk_type: ChunkType, data: Vec<u8>) -> (c: Chunk)
        ensures
            c@ == (ChunkView { chunk_type: chunk_type@, data: data@ }),
    {
        Chunk { chunk_type, data }
    }

    /// The number of bytes in the payload.
    pub fn length(&self) -> (n: usize)
        ensures
            n == self@.data.len(),
    {
        self.data.len()
    }

    /// The type code.
    pub fn chunk_type(&self) -> (t: &ChunkType)
        ensures
            t@ == self@.chunk_type,
            t.wf(),
    {
        proof {
            use_type_invariant(&self.chunk_type);
        }
        &self.chunk_type
    }

    /// The payload.
    pub fn data(&self) -> (d: &[u8])
        ensures
            d@ == self@.data,
    {
        self.data.as_slice()
    }

    /// The checksum of type code and payload.
    pub fn crc(&self) -> (sum: u32)
        ensures
            sum == checksum_of(self@),
    {
        let code: [u8; 4] = self.chunk_type.bytes();
        let mut covered: Vec<u8> = Vec::new();
        append_bytes(&mut covered, code.as_slice());
        append_bytes(&mut covered, self.data.as_slice());
        assert(covered@ =~= self@.chunk_type + self@.data);
        checksum(covered.as_slice())
    }

    /// The payload as text, if it is UTF-8.
    pub fn data_as_string(&self) -> (r: Result<String, Error>)
        ensures
            match r {
                Ok(s) => valid_utf8(self@.data) && s@ == decode_utf8(self@.data),
                Err(e) => !valid_utf8(self@.data) && e == Error::NonUtf8Payload,
            },
    {
        match utf8_string(self.data.as_slice()) {
            Some(s) => Ok(s),
            None => Err(Error::NonUtf8Payload),
        }
    }

    /// The bytes of the chunk with `crc` in the checksum field.
    pub fn frame(&self, crc: u32) -> (out: Vec<u8>)
        ensures
            out@ == framing(self@, crc),
    {
        let len_field: [u8; 4] = be32(#[verifier::truncate] (self.data.len() as u32));
        let code: [u8; 4] = self.chunk_type.bytes();
        let crc_field: [u8; 4] = be32(crc);
        let mut out: Vec<u8> = Vec::new();
        append_bytes(&mut out, len_field.as_slice());
        append_bytes(&mut out, code.as_slice());
        append_bytes(&mut out, self.data.as_slice());
        append_bytes(&mut out, crc_field.as_slice());
        assert(out@ =~= framing(self@, crc));
        out
    }

    /// The bytes of the chunk, with its checksum freshly computed.
    pub fn as_bytes(&self) -> (out: Vec<u8>)
        ensures
            out@ == encoding(self@),
    {
        self.frame(self.crc())
    }

    /// The chunk as text for a reader, with `crc` shown as its checksum.
    pub fn render(&self, crc: u32) -> (s: String)
        ensures
            s@ == rendering(self@, crc),
    {
        let len: String = decimal_string(self.data.len() as u64);
        let code: String = self.chunk_type.to_string().unwrap();
        let sum: String = decimal_string(crc as u64);
        let mut s: String = String::new();
        s.append("Chunk {\n  Length: ");
        s.append(len.as_str());
        s.append("\n  Type: ");
        s.append(code.as_str());
        s.append("\n  Data: ");
        s.append(len.as_str());
        s.append(" bytes\n  Crc: ");
        s.append(sum.as_str());
        s.append("\n}\n");
        assert(s@ =~= rendering(self@, crc));
        s
    }

    /// The chunk as text for a reader.
    pub fn to_string(&self) -> (s: String)
        ensures
            s@ == rendering(self@, checksum_of(self@)),
    {
        self.render(self.crc())
    }

    /// Reads length, type code, payload and declared checksum from the head
    /// of `bytes`. The checksum is handed back, not checked.
    pub fn read_fields(bytes: &[u8]) -> (r: Result<(Chunk, u32), Error>)
        ensures
            match r {
                Ok((c, found)) => parse_fields(bytes@) == Ok::<(ChunkView, u32), Error>((c@, found)),
                Err(e) => parse_fields(bytes@) == Err::<(ChunkView, u32), Error>(e),
            },
    {
        if bytes.len() < 4 {
            return Err(Error::TruncatedInput { declared_length: 0, available: 0 });
        }
        let len_field: [u8; 4] = [bytes[0], bytes[1], bytes[2], bytes[3]];
        assert(len_field@ =~= bytes@.subrange(0, 4));
        let declared: usize = read_be32(len_field) as usize;
        let available: usize = bytes.len() - 4;
        if available < 8 || available - 8 < declared {
            return Err(Error::TruncatedInput { declared_length: declared, available });
        }
        let code: [u8; 4] = [bytes[4], bytes[5], bytes[6], bytes[7]];
        assert(code@ =~= bytes@.subrange(4, 8));
        let chunk_type = match ChunkType::try_from(code) {
            Ok(t) => t,
            Err(e) => {
                return Err(e);
            },
        };
        if !chunk_type.is_valid() {
            return Err(Error::InvalidChunkType);
        }
        let data: Vec<u8> = slice_to_vec(slice_subrange(bytes, 8, 8 + declared));
        let at: usize = 8 + declared;
        let crc_field: [u8; 4] = [bytes[at], bytes[at + 1], bytes[at + 2], bytes[at + 3]];
        assert(crc_field@ =~= bytes@.subrange(8 + declared, 12 + declared));
        let found: u32 = read_be32(crc_field);
        Ok((Chunk { chunk_type, data }, found))
    }

    /// Lets a chunk through if the checksum that its bytes declared is the
    /// one that was computed from its type and payload.
    pub fn accept(chunk: Chunk, found: u32, computed: u32) -> (r: Result<Chunk, Error>)
        ensures
            match r {
                Ok(c) => found == computed && c == chunk,
                Err(e) => found != computed && e == (Error::CrcMismatch {
                    expected: computed,
                    found,
                }),
            },
    {
        if found == computed {
            Ok(chunk)
        } else {
            Err(Error::CrcMismatch { expected: computed, found })
        }
    }
}

/// Reads the chunk at the head of the bytes and checks its checksum. Bytes
/// after the chunk are left for the caller.
impl<'a> TryFrom<&'a [u8]> for Chunk {
    type Error = Error;

    fn try_from(bytes: &'a [u8]) -> (r: Result<Chunk, Error>)
        ensures
            match r {
                Ok(c) => parse(bytes@) == Ok::<ChunkView, Error>(c@),
                Err(e) => parse(bytes@) == Err::<ChunkView, Error>(e),
            },
    {
        proof {
            reveal(parse);
        }
        match Chunk::read_fields(bytes) {
            Ok((chunk, found)) => {
                let computed: u32 = chunk.crc();
                Chunk::accept(chunk, found, computed)
            },
            Err(e) => Err(e),
        }
    }
}

/// `try_from` makes its chunk anew, so its result is told by its view.
impl<'a> TryFromSpecImpl<&'a [u8]> for Chunk {
    open spec fn obeys_try_from_spec() -> bool {
        false
    }

    open spec fn try_from_spec(bytes: &'a [u8]) -> Result<Chunk, Error> {
        arbitrary()
    }
}

/// A chunk that can be written and read back: its type code conforms and its
/// payload fits the length field.
pub open spec fn is_storable(c: ChunkView) -> bool {
    is_conforming(c.chunk_type) && c.data.len() <= u32::MAX
}

/// The type code of a chunk is always four bytes long.
pub proof fn lemma_chunk_type_len(c: Chunk)
    ensures
        c@.chunk_type.len() == 4,
{
    crate::chunk_type::lemma_type_len(c.chunk_type);
}

/// The fields of a framed chunk are read back as they were written, whatever
/// the checksum field holds and whatever follows the chunk.
pub proof fn lemma_parse_fields_of_framing(c: ChunkView, crc: u32, rest: Seq<u8>)
    requires
        is_storable(c),
    ensures
        parse_fields(framing(c, crc) + rest) == Ok::<(ChunkView, u32), Error>((c, crc)),
{
    let n = c.data.len() as int;
    let bytes = framing(c, crc) + rest;
    crate::endian::lemma_be32_value_of_bytes(n);
    crate::endian::lemma_be32_value_of_bytes(crc as int);
    assert(bytes.subrange(0, 4) =~= be32_bytes(n));
    assert(bytes.subrange(4, 8) =~= c.chunk_type);
    assert(bytes.subrange(8, 8 + n) =~= c.data);
    assert(bytes.subrange(8 + n, 12 + n) =~= be32_bytes(crc as int));
}

/// Round trip: a storable chunk that is written and read back is the chunk
/// that was written. Bytes that follow it make no difference.
pub proof fn lemma_parse_of_encoding(c: ChunkView, rest: Seq<u8>)
    requires
        is_storable(c),
    ensures
        parse(encoding(c)) == Ok::<ChunkView, Error>(c),
        parse(encoding(c) + rest) == Ok::<ChunkView, Error>(c),
{
    reveal(parse);
    lemma_parse_fields_of_framing(c, checksum_of(c), rest);
    lemma_parse_fields_of_framing(c, checksum_of(c), Seq::empty());
    assert(encoding(c) + Seq::<u8>::empty() =~= encoding(c));
}

/// The checksum of a chunk moved by `delta`, wrapping round.
pub open spec fn shifted_crc(c: ChunkView, delta: int) -> u32 {
    ((checksum_of(c) + delta) % 0x1_0000_0000) as u32
}

/// Moving a 32-bit number by less than a full turn changes it.
proof fn lemma_shift_changes(x: u32, delta: int)
    requires
        0 < delta <= u32::MAX,
    ensures
        ((x + delta) % 0x1_0000_0000) as u32 != x,
{
    let moved = x + delta;
    if moved < 0x1_0000_0000 {
        assert(moved % 0x1_0000_0000 == moved);
    } else {
        assert(moved % 0x1_0000_0000 == moved - 0x1_0000_0000);
    }
}

/// A chunk with any checksum field but its own is refused.
proof fn lemma_other_crc_is_refused(c: ChunkView, crc: u32, rest: Seq<u8>)
    requires
        is_storable(c),
        crc != checksum_of(c),
    ensures
        parse(framing(c, crc) + rest) == Err::<ChunkView, Error>(
            Error::CrcMismatch { expected: checksum_of(c), found: crc },
        ),
{
    reveal(parse);
    lemma_parse_fields_of_framing(c, crc, rest);
}

/// A chunk whose checksum field was changed by any amount but zero is
/// refused, and the error tells the checksum that was expected and the one
/// that was found.
pub proof fn lemma_changed_crc_is_refused(c: ChunkView, delta: int, rest: Seq<u8>)
    requires
        is_storable(c),
        0 < delta <= u32::MAX,
    ensures
        parse(framing(c, shifted_crc(c, delta)) + rest) == Err::<ChunkView, Error>(
            Error::CrcMismatch { expected: checksum_of(c), found: shifted_crc(c, delta) },
        ),
{
    lemma_shift_changes(checksum_of(c), delta);
    lemma_other_crc_is_refused(c, shifted_crc(c, delta), rest);
}

/// What was read can be written: if bytes parse as a chunk, the chunk is
/// storable and the bytes start with its encoding.
pub proof fn lemma_encoding_of_parse(bytes: Seq<u8>, c: ChunkView)
    requires
        parse(bytes) == Ok::<ChunkView, Error>(c),
    ensures
        is_storable(c),
        encoded_len(c) <= bytes.len(),
        bytes.subrange(0, encoded_len(c)) == encoding(c),
{
    reveal(parse);
    let len_field = bytes.subrange(0, 4);
    let n = be32_value(len_field);
    let crc_field = bytes.subrange(8 + n, 12 + n);
    assert(0 <= n <= u32::MAX && be32_bytes(n) == len_field) by {
        crate::endian::lemma_be32_bytes_of_value(len_field);
    }
    assert(be32_bytes(be32_value(crc_field)) == crc_field) by {
        crate::endian::lemma_be32_bytes_of_value(crc_field);
    }
    assert(length_field(c) == n);
    assert(encoding(c) == len_field + c.chunk_type + c.data + crc_field);
    assert(len_field + c.chunk_type + c.data + crc_field =~= bytes.subrange(0, 12 + n));
}

} // verus!
