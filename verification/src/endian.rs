//! Big-endian 32-bit fields, as the chunk header and trailer hold them.

use vstd::prelude::*;

verus! {

/// The number that four bytes denote when read most significant byte first.
pub open spec fn be32_value(b: Seq<u8>) -> int
    recommends
        b.len() == 4,
{
    b[0] as int * 0x100_0000 + b[1] as int * 0x1_0000 + b[2] as int * 0x100 + b[3] as int
}

/// The four bytes that denote `x`, most significant byte first.
///
/// The definition is opaque, to keep division out of proofs that only pass
/// fields along: `reveal(be32_bytes)` shows it.
#[verifier::opaque]
pub open spec fn be32_bytes(x: int) -> Seq<u8>
    recommends
        0 <= x <= u32::MAX,
{
    seq![
        (x / 0x100_0000 % 0x100) as u8,
        (x / 0x1_0000 % 0x100) as u8,
        (x / 0x100 % 0x100) as u8,
        (x % 0x100) as u8,
    ]
}

/// A field is four bytes long, whatever the number.
pub proof fn lemma_be32_len(x: int)
    ensures
        be32_bytes(x).len() == 4,
{
    reveal(be32_bytes);
}

/// Reading back what was written gives the number that was written.
pub proof fn lemma_be32_value_of_bytes(x: int)
    requires
        0 <= x <= u32::MAX,
    ensures
        be32_bytes(x).len() == 4,
        be32_value(be32_bytes(x)) == x,
{
    reveal(be32_bytes);
}

/// Writing what was read gives the bytes that were read.
pub proof fn lemma_be32_bytes_of_value(b: Seq<u8>)
    requires
        b.len() == 4,
    ensures
        0 <= be32_value(b) <= u32::MAX,
        be32_bytes(be32_value(b)) == b,
{
    reveal(be32_bytes);
    let x = be32_value(b);
    let hi1 = b[0] as int;
    let hi2 = hi1 * 0x100 + b[1] as int;
    let hi3 = hi2 * 0x100 + b[2] as int;
    assert(x == hi3 * 0x100 + b[3] as int);
    assert(x % 0x100 == b[3] && x / 0x100 == hi3);
    assert(hi3 % 0x100 == b[2] && hi3 / 0x100 == hi2);
    assert(hi2 % 0x100 == b[1] && hi2 / 0x100 == hi1);
    assert(x / 0x1_0000 == hi2) by {
        assert(x / 0x100 / 0x100 == x / 0x1_0000);
    }
    assert(x / 0x100_0000 == hi1) by {
        assert(x / 0x1_0000 / 0x100 == x / 0x100_0000);
    }
    assert(be32_bytes(x) =~= b);
}

/// Reads a field.
pub fn read_be32(field: [u8; 4]) -> (x: u32)
    ensures
        x == be32_value(field@),
{
    let b0: u32 = field[0] as u32;
    let b1: u32 = field[1] as u32;
    let b2: u32 = field[2] as u32;
    let b3: u32 = field[3] as u32;
    b0 * 0x100_0000 + b1 * 0x1_0000 + b2 * 0x100 + b3
}

/// Writes `x` as a field.
pub fn be32(x: u32) -> (b: [u8; 4])
    ensures
        b@ == be32_bytes(x as int),
{
    let b: [u8; 4] = [
        (x / 0x100_0000) as u8,
        (x / 0x1_0000 % 0x100) as u8,
        (x / 0x100 % 0x100) as u8,
        (x % 0x100) as u8,
    ];
    proof {
        reveal(be32_bytes);
    }
    assert(b@ =~= be32_bytes(x as int));
    b
}

} // verus!
