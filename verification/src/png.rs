//! A PNG file as a sequence of chunks.
//!
//! The file is the eight bytes of the signature followed by the chunks, back
//! to back, to the end of the input. The order of the chunks matters and is
//! kept. Several chunks may have the same type.

use crate::chunk::{
    append_bytes, checksum_of, encoded_len, encoding, is_storable, parse, rendering, Chunk,
    ChunkView,
};
use crate::chunk_type::is_type_code;
use crate::error::Error;
use crate::text::{ascii_text, lemma_ascii_is_utf8};
use vstd::prelude::*;
use vstd::slice::slice_subrange;
use vstd::std_specs::convert::TryFromSpecImpl;
use vstd::string::StringExecFns;
use vstd::utf8::*;

verus! {

/// The eight bytes that every PNG file starts with.
pub open spec fn signature() -> Seq<u8> {
    seq![137u8, 80u8, 78u8, 71u8, 13u8, 10u8, 26u8, 10u8]
}

/// The encodings of the chunks, one after the other.
pub open spec fn chunks_encoding(chunks: Seq<ChunkView>) -> Seq<u8>
    decreases chunks.len(),
{
    if chunks.len() == 0 {
        Seq::empty()
    } else {
        encoding(chunks.first()) + chunks_encoding(chunks.drop_first())
    }
}

/// The bytes of a file that holds the given chunks.
pub open spec fn file_encoding(chunks: Seq<ChunkView>) -> Seq<u8> {
    signature() + chunks_encoding(chunks)
}

/// The chunks that `bytes` hold, read one after the other to the end. The
/// first chunk that is refused decides the error. Between one and three
/// bytes cannot hold a length field and are trailing bytes.
pub open spec fn parse_chunks(bytes: Seq<u8>) -> Result<Seq<ChunkView>, Error>
    decreases bytes.len(),
    via parse_chunks_decreases
{
    if bytes.len() == 0 {
        Ok(Seq::empty())
    } else if bytes.len() < 4 {
        Err(Error::UnexpectedTrailingBytes)
    } else {
        match parse(bytes) {
            Err(e) => Err(e),
            Ok(c) => match parse_chunks(bytes.skip(encoded_len(c))) {
                Err(e) => Err(e),
                Ok(rest) => Ok(seq![c] + rest),
            },
        }
    }
}

/// A chunk that was read takes up at least twelve of the bytes, so fewer are
/// left after it.
#[via_fn]
proof fn parse_chunks_decreases(bytes: Seq<u8>) {
    if bytes.len() >= 4 {
        if let Ok(c) = parse(bytes) {
            crate::chunk::lemma_encoding_of_parse(bytes, c);
        }
    }
}

/// The chunks of a file: the signature must come first, then chunks to the
/// end of the input.
pub open spec fn parse_file(bytes: Seq<u8>) -> Result<Seq<ChunkView>, Error> {
    if bytes.len() < 8 || !(bytes.subrange(0, 8) =~= signature()) {
        Err(Error::BadSignature)
    } else {
        parse_chunks(bytes.skip(8))
    }
}

/// What is shown of the chunks: the text of each, one after the other.
pub open spec fn chunks_rendering(chunks: Seq<ChunkView>) -> Seq<char>
    decreases chunks.len(),
{
    if chunks.len() == 0 {
        Seq::empty()
    } else {
        chunks_rendering(chunks.drop_last()) + rendering(chunks.last(), checksum_of(chunks.last()))
    }
}

/// Whether the bytes of the type code of `c` spell `name`.
pub open spec fn has_type(c: ChunkView, name: Seq<char>) -> bool {
    c.chunk_type =~= encode_utf8(name)
}

/// Whether no chunk has the type `name`.
pub open spec fn no_match(chunks: Seq<ChunkView>, name: Seq<char>) -> bool {
    forall|j: int| 0 <= j < chunks.len() ==> !has_type(#[trigger] chunks[j], name)
}

/// Whether `i` is the place of the first chunk of type `name`.
pub open spec fn is_first_match(chunks: Seq<ChunkView>, name: Seq<char>, i: int) -> bool {
    &&& 0 <= i < chunks.len()
    &&& has_type(chunks[i], name)
    &&& no_match(chunks.take(i), name)
}

/// Whether every chunk can be written and read back.
pub open spec fn all_storable(chunks: Seq<ChunkView>) -> bool {
    forall|j: int| 0 <= j < chunks.len() ==> is_storable(#[trigger] chunks[j])
}

/// What each of the chunks is, in their order.
pub open spec fn views(chunks: Seq<Chunk>) -> Seq<ChunkView> {
    chunks.map_values(|c: Chunk| c@)
}

/// A PNG file: its chunks, in the order in which they are written. Its view
/// is what each of them is.
pub struct Png {
    chunks: Vec<Chunk>,
}

impl View for Png {
    type V = Seq<ChunkView>;

    closed spec fn view(&self) -> Seq<ChunkView> {
        views(self.chunks@)
    }
}

/// The signature as bytes.
pub fn header() -> (h: [u8; 8])
    ensures
        h@ == signature(),
{
    let h: [u8; 8] = [137, 80, 78, 71, 13, 10, 26, 10];
    assert(h@ =~= signature());
    h
}

impl Png {
    /// A file that holds the given chunks, in their order.
    pub fn from_chunks(chunks: Vec<Chunk>) -> (png: Png)
        ensures
            png@ == views(chunks@),
    {
        Png { chunks }
    }

    /// The chunks, in their order.
    pub fn chunks(&self) -> (chunks: &[Chunk])
        ensures
            views(chunks@) == self@,
    {
        self.chunks.as_slice()
    }

    /// Adds a chunk at the end. Nothing is checked: neither whether a chunk
    /// of that type is there already, nor what the last chunk is.
    pub fn append_chunk(&mut self, chunk: Chunk)
        ensures
            final(self)@ == old(self)@.push(chunk@),
    {
        self.chunks.push(chunk);
        assert(self@ =~= old(self)@.push(chunk@));
    }

    /// The place of the first chunk of type `name`, if there is one. A name
    /// that is no type code matches nothing.
    pub fn position_by_type(&self, name: &str) -> (r: Option<usize>)
        ensures
            match r {
                Some(i) => is_first_match(self@, name@, i as int),
                None => no_match(self@, name@),
            },
    {
        let wanted: &[u8] = name.as_bytes();
        if wanted.len() != 4 {
            proof {
                self.lemma_type_lens();
            }
            return None;
        }
        let mut i: usize = 0;
        while i < self.chunks.len()
            invariant
                i <= self.chunks@.len(),
                wanted@ == encode_utf8(name@),
                wanted@.len() == 4,
                no_match(self@.take(i as int), name@),
            decreases self.chunks@.len() - i,
        {
            let code: [u8; 4] = self.chunks[i].chunk_type().bytes();
            if code[0] == wanted[0] && code[1] == wanted[1] && code[2] == wanted[2] && code[3]
                == wanted[3] {
                assert(code@ =~= wanted@);
                return Some(i);
            }
            assert(self@.take(i + 1) =~= self@.take(i as int).push(self@[i as int]));
            i = i + 1;
        }
        assert(self@.take(i as int) =~= self@);
        None
    }

    /// The first chunk of type `name`, if there is one.
    pub fn chunk_by_type(&self, name: &str) -> (r: Option<&Chunk>)
        ensures
            match r {
                Some(c) => exists|i: int| #[trigger] is_first_match(self@, name@, i) && self@[i] == c@,
                None => no_match(self@, name@),
            },
    {
        match self.position_by_type(name) {
            Some(i) => Some(&self.chunks[i]),
            None => None,
        }
    }

    /// Takes out the first chunk of type `name` and hands it over. The other
    /// chunks stay, in their order. Without such a chunk nothing changes.
    pub fn remove_chunk(&mut self, name: &str) -> (r: Result<Chunk, Error>)
        ensures
            match r {
                Ok(c) => exists|i: int|
                    {
                        &&& #[trigger] is_first_match(old(self)@, name@, i)
                        &&& c@ == old(self)@[i]
                        &&& final(self)@ == old(self)@.remove(i)
                        &&& final(self)@.len() == old(self)@.len() - 1
                    },
                Err(e) => {
                    &&& no_match(old(self)@, name@)
                    &&& final(self)@ == old(self)@
                    &&& e matches Error::ChunkNotFound { name: n }
                    &&& n@ == name@
                },
            },
    {
        match self.position_by_type(name) {
            Some(i) => {
                let chunk: Chunk = self.chunks.remove(i);
                assert(self@ =~= old(self)@.remove(i as int));
                Ok(chunk)
            },
            None => Err(Error::ChunkNotFound { name: name.to_owned() }),
        }
    }

    /// The bytes of the file: the signature, then each chunk.
    pub fn as_bytes(&self) -> (out: Vec<u8>)
        ensures
            out@ == file_encoding(self@),
    {
        let h: [u8; 8] = header();
        let mut out: Vec<u8> = Vec::new();
        append_bytes(&mut out, h.as_slice());
        assert(out@ =~= signature() + chunks_encoding(self@.take(0)));
        let mut i: usize = 0;
        while i < self.chunks.len()
            invariant
                i <= self.chunks@.len(),
                out@ == signature() + chunks_encoding(self@.take(i as int)),
            decreases self.chunks@.len() - i,
        {
            let mut piece: Vec<u8> = self.chunks[i].as_bytes();
            proof {
                lemma_chunks_encoding_push(self@.take(i as int), self@[i as int]);
                assert(self@.take(i + 1) =~= self@.take(i as int).push(self@[i as int]));
            }
            let ghost before = out@;
            out.append(&mut piece);
            assert(out@ =~= signature() + chunks_encoding(self@.take(i + 1))) by {
                assert(out@ == before + encoding(self@[i as int]));
            }
            i = i + 1;
        }
        assert(self@.take(i as int) =~= self@);
        out
    }

    /// The file as text for a reader: the text of each chunk.
    pub fn to_string(&self) -> (s: String)
        ensures
            s@ == chunks_rendering(self@),
    {
        let mut s: String = String::new();
        let mut i: usize = 0;
        assert(self@.take(0) =~= Seq::<ChunkView>::empty());
        while i < self.chunks.len()
            invariant
                i <= self.chunks@.len(),
                s@ == chunks_rendering(self@.take(i as int)),
            decreases self.chunks@.len() - i,
        {
            let piece: String = self.chunks[i].to_string();
            s.append(piece.as_str());
            proof {
                let shown = self@.take(i + 1);
                assert(shown.drop_last() =~= self@.take(i as int));
                assert(shown.last() == self@[i as int]);
            }
            i = i + 1;
        }
        assert(self@.take(i as int) =~= self@);
        s
    }

    /// The type code of every chunk is four bytes long.
    pub proof fn lemma_type_lens(&self)
        ensures
            forall|j: int| 0 <= j < self@.len() ==> (#[trigger] self@[j]).chunk_type.len() == 4,
    {
        assert forall|j: int| 0 <= j < self@.len() implies (#[trigger] self@[j]).chunk_type.len()
            == 4 by {
            crate::chunk::lemma_chunk_type_len(self.chunks@[j]);
        }
    }
}

/// Reads a file: the signature, then chunks to the end of the input.
/// Nothing is returned unless all of it is well formed.
impl<'a> TryFrom<&'a [u8]> for Png {
    type Error = Error;

    fn try_from(bytes: &'a [u8]) -> (r: Result<Png, Error>)
        ensures
            match r {
                Ok(png) => parse_file(bytes@) == Ok::<Seq<ChunkView>, Error>(png@),
                Err(e) => parse_file(bytes@) == Err::<Seq<ChunkView>, Error>(e),
            },
    {
        if bytes.len() < 8 {
            return Err(Error::BadSignature);
        }
        let h: [u8; 8] = header();
        let mut k: usize = 0;
        while k < 8
            invariant
                k <= 8 <= bytes@.len(),
                h@ == signature(),
                bytes@.subrange(0, k as int) == signature().subrange(0, k as int),
            decreases 8 - k,
        {
            if bytes[k] != h[k] {
                assert(bytes@.subrange(0, 8)[k as int] != signature()[k as int]);
                return Err(Error::BadSignature);
            }
            assert(bytes@.subrange(0, k + 1) =~= bytes@.subrange(0, k as int).push(bytes@[k as int]));
            assert(signature().subrange(0, k + 1) =~= signature().subrange(0, k as int).push(
                signature()[k as int],
            ));
            k = k + 1;
        }
        assert(signature().subrange(0, 8) =~= signature());

        let mut chunks: Vec<Chunk> = Vec::new();
        let mut at: usize = 8;
        let ghost all = bytes@.skip(8);
        assert(bytes@.skip(at as int) =~= all);
        assert(views(chunks@) =~= Seq::<ChunkView>::empty());
        while at < bytes.len()
            invariant
                8 <= at <= bytes@.len(),
                all == bytes@.skip(8),
                parse_file(bytes@) == parse_chunks(all),
                parse_chunks(all) == match parse_chunks(bytes@.skip(at as int)) {
                    Ok(rest) => Ok::<Seq<ChunkView>, Error>(views(chunks@) + rest),
                    Err(e) => Err::<Seq<ChunkView>, Error>(e),
                },
            decreases bytes@.len() - at,
        {
            let rest: &[u8] = slice_subrange(bytes, at, bytes.len());
            assert(rest@ =~= bytes@.skip(at as int));
            if rest.len() < 4 {
                return Err(Error::UnexpectedTrailingBytes);
            }
            let chunk: Chunk = match Chunk::try_from(rest) {
                Ok(c) => c,
                Err(e) => {
                    return Err(e);
                },
            };
            proof {
                crate::chunk::lemma_encoding_of_parse(rest@, chunk@);
                assert(rest@.skip(encoded_len(chunk@)) =~= bytes@.skip(at + encoded_len(chunk@)));
            }
            let ghost before = views(chunks@);
            at = at + 12 + chunk.length();
            chunks.push(chunk);
            proof {
                let now = views(chunks@);
                assert(now =~= before.push(chunk@));
                match parse_chunks(bytes@.skip(at as int)) {
                    Ok(tail) => {
                        assert(before + (seq![chunk@] + tail) =~= now + tail);
                    },
                    Err(_) => {},
                }
            }
        }
        assert(bytes@.skip(at as int) =~= Seq::<u8>::empty());
        assert(views(chunks@) + Seq::<ChunkView>::empty() =~= views(chunks@));
        Ok(Png { chunks })
    }
}

/// `try_from` makes its chunks anew, so its result is told by its view.
impl<'a> TryFromSpecImpl<&'a [u8]> for Png {
    open spec fn obeys_try_from_spec() -> bool {
        false
    }

    open spec fn try_from_spec(bytes: &'a [u8]) -> Result<Png, Error> {
        arbitrary()
    }
}

/// The type of a chunk with a proper type code is `name` exactly if the code,
/// written as text, is `name`.
pub proof fn lemma_has_type_as_text(c: ChunkView, name: Seq<char>)
    requires
        is_type_code(c.chunk_type),
    ensures
        has_type(c, name) <==> ascii_text(c.chunk_type) == name,
{
    lemma_ascii_is_utf8(c.chunk_type);
    if c.chunk_type == encode_utf8(name) {
        encode_utf8_decode_utf8(name);
    }
}

/// The encoding of a sequence with one more chunk at its end.
pub proof fn lemma_chunks_encoding_push(chunks: Seq<ChunkView>, c: ChunkView)
    ensures
        chunks_encoding(chunks.push(c)) == chunks_encoding(chunks) + encoding(c),
    decreases chunks.len(),
{
    if chunks.len() == 0 {
        assert(chunks.push(c).drop_first() =~= Seq::<ChunkView>::empty());
        assert(chunks_encoding(Seq::<ChunkView>::empty()) =~= Seq::<u8>::empty());
        assert(chunks_encoding(chunks.push(c)) =~= encoding(c));
        assert(chunks_encoding(chunks) + encoding(c) =~= encoding(c));
    } else {
        assert(chunks.push(c).drop_first() =~= chunks.drop_first().push(c));
        lemma_chunks_encoding_push(chunks.drop_first(), c);
        assert(encoding(chunks.first()) + (chunks_encoding(chunks.drop_first()) + encoding(c))
            =~= (encoding(chunks.first()) + chunks_encoding(chunks.drop_first())) + encoding(c));
    }
}

/// The encoding of a chunk takes twelve bytes and the payload.
pub proof fn lemma_encoding_len(c: ChunkView)
    requires
        c.chunk_type.len() == 4,
    ensures
        encoding(c).len() == encoded_len(c),
{
    crate::endian::lemma_be32_len(crate::chunk::length_field(c) as int);
    crate::endian::lemma_be32_len(checksum_of(c) as int);
}

/// Reading a storable chunk that is followed by `tail` gives the chunk, and
/// then what reading `tail` gives.
pub proof fn lemma_parse_chunks_step(c: ChunkView, tail: Seq<u8>)
    requires
        is_storable(c),
    ensures
        parse_chunks(encoding(c) + tail) == match parse_chunks(tail) {
            Ok(rest) => Ok::<Seq<ChunkView>, Error>(seq![c] + rest),
            Err(e) => Err::<Seq<ChunkView>, Error>(e),
        },
{
    let bytes = encoding(c) + tail;
    assert(parse(bytes) == Ok::<ChunkView, Error>(c)) by {
        crate::chunk::lemma_parse_of_encoding(c, tail);
    }
    assert(encoding(c).len() == encoded_len(c)) by {
        lemma_encoding_len(c);
    }
    assert(bytes.skip(encoded_len(c)) =~= tail);
}

/// Round trip of the chunks: storable chunks that are written one after the
/// other are read back as they were.
pub proof fn lemma_parse_chunks_of_encoding(chunks: Seq<ChunkView>)
    requires
        all_storable(chunks),
    ensures
        parse_chunks(chunks_encoding(chunks)) == Ok::<Seq<ChunkView>, Error>(chunks),
    decreases chunks.len(),
{
    if chunks.len() == 0 {
        assert(chunks =~= Seq::<ChunkView>::empty());
    } else {
        let c = chunks.first();
        let rest = chunks.drop_first();
        assert(all_storable(rest)) by {
            assert forall|j: int| 0 <= j < rest.len() implies is_storable(#[trigger] rest[j]) by {
                assert(rest[j] == chunks[j + 1]);
            }
        }
        lemma_parse_chunks_step(c, chunks_encoding(rest));
        lemma_parse_chunks_of_encoding(rest);
        assert(seq![c] + rest =~= chunks);
    }
}

/// Round trip of a file: a file of storable chunks that is written and read
/// back holds the chunks that were written, in their order.
pub proof fn lemma_parse_file_of_encoding(chunks: Seq<ChunkView>)
    requires
        all_storable(chunks),
    ensures
        parse_file(file_encoding(chunks)) == Ok::<Seq<ChunkView>, Error>(chunks),
{
    let bytes = file_encoding(chunks);
    assert(bytes.subrange(0, 8) =~= signature());
    assert(bytes.skip(8) =~= chunks_encoding(chunks));
    lemma_parse_chunks_of_encoding(chunks);
}

/// Where reading chunks from bytes that are not empty succeeds, the first
/// chunk is the one at the head of the bytes, and the others are read from
/// what follows it.
pub proof fn lemma_parse_chunks_unfold(bytes: Seq<u8>, chunks: Seq<ChunkView>)
    requires
        bytes.len() > 0,
        parse_chunks(bytes) == Ok::<Seq<ChunkView>, Error>(chunks),
    ensures
        bytes.len() >= 4,
        chunks.len() > 0,
        parse(bytes) == Ok::<ChunkView, Error>(chunks.first()),
        parse_chunks(bytes.skip(encoded_len(chunks.first()))) == Ok::<Seq<ChunkView>, Error>(
            chunks.drop_first(),
        ),
{
    let c = parse(bytes)->Ok_0;
    let rest = parse_chunks(bytes.skip(encoded_len(c)))->Ok_0;
    assert(chunks == seq![c] + rest);
    assert(chunks.first() == c);
    assert(chunks.drop_first() =~= rest);
}

/// What was read as chunks can be written: the chunks are storable and their
/// encoding is the bytes that were read.
pub proof fn lemma_encoding_of_parse_chunks(bytes: Seq<u8>, chunks: Seq<ChunkView>)
    requires
        parse_chunks(bytes) == Ok::<Seq<ChunkView>, Error>(chunks),
    ensures
        all_storable(chunks),
        chunks_encoding(chunks) == bytes,
    decreases bytes.len(),
{
    if bytes.len() == 0 {
        assert(chunks_encoding(chunks) =~= bytes);
    } else {
        lemma_parse_chunks_unfold(bytes, chunks);
        let c = chunks.first();
        let rest = chunks.drop_first();
        let tail = bytes.skip(encoded_len(c));
        crate::chunk::lemma_encoding_of_parse(bytes, c);
        lemma_encoding_of_parse_chunks(tail, rest);
        assert(chunks_encoding(chunks) == encoding(c) + tail);
        assert(bytes.subrange(0, encoded_len(c)) + tail =~= bytes);
        assert forall|j: int| 0 <= j < chunks.len() implies is_storable(#[trigger] chunks[j]) by {
            if j > 0 {
                assert(chunks[j] == rest[j - 1]);
            }
        }
    }
}

/// A file that was read without error is, written again, the same bytes.
pub proof fn lemma_encoding_of_parse_file(bytes: Seq<u8>, chunks: Seq<ChunkView>)
    requires
        parse_file(bytes) == Ok::<Seq<ChunkView>, Error>(chunks),
    ensures
        all_storable(chunks),
        file_encoding(chunks) == bytes,
{
    lemma_encoding_of_parse_chunks(bytes.skip(8), chunks);
    assert(bytes.subrange(0, 8) + bytes.skip(8) =~= bytes);
}

/// There is at most one first chunk of a type.
pub proof fn lemma_first_match_unique(chunks: Seq<ChunkView>, name: Seq<char>, i: int, j: int)
    requires
        is_first_match(chunks, name, i),
        is_first_match(chunks, name, j),
    ensures
        i == j,
{
    if i < j {
        assert(chunks.take(j)[i] == chunks[i]);
    }
    if j < i {
        assert(chunks.take(i)[j] == chunks[j]);
    }
}

/// Looking up a type right after a chunk of that type was added at the end
/// finds the added chunk, provided that no chunk of the type was there before.
pub proof fn lemma_find_appended(chunks: Seq<ChunkView>, c: ChunkView, name: Seq<char>)
    requires
        has_type(c, name),
        no_match(chunks, name),
    ensures
        is_first_match(chunks.push(c), name, chunks.len() as int),
        chunks.push(c)[chunks.len() as int] == c,
{
    assert(chunks.push(c).take(chunks.len() as int) =~= chunks);
}

/// Where a chunk of the type was there before, adding a chunk at the end does
/// not change which one is found.
pub proof fn lemma_find_earlier(chunks: Seq<ChunkView>, c: ChunkView, name: Seq<char>, i: int)
    requires
        is_first_match(chunks, name, i),
    ensures
        is_first_match(chunks.push(c), name, i),
        chunks.push(c)[i] == chunks[i],
{
    assert(chunks.push(c).take(i) =~= chunks.take(i));
}

} // verus!
