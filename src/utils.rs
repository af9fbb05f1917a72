use vstd::prelude::*;

verus! {

/// The value of four bytes read most significant first.
pub open spec fn be32_value(b: Seq<u8>) -> int {
    b[0] as int * 0x1000000 + b[1] as int * 0x10000 + b[2] as int * 0x100 + b[3] as int
}

/// The value of four bytes read least significant first.
pub open spec fn le32_value(b: Seq<u8>) -> int {
    b[3] as int * 0x1000000 + b[2] as int * 0x10000 + b[1] as int * 0x100 + b[0] as int
}

/// The value of two bytes read most significant first.
pub open spec fn be16_value(b: Seq<u8>) -> int {
    b[0] as int * 0x100 + b[1] as int
}

/// The value of two bytes read least significant first.
pub open spec fn le16_value(b: Seq<u8>) -> int {
    b[1] as int * 0x100 + b[0] as int
}

/// The four bytes of `x`, most significant first.
pub open spec fn be32_bytes(x: u32) -> Seq<u8> {
    seq![(x / 0x1000000) as u8, (x / 0x10000 % 0x100) as u8, (x / 0x100 % 0x100) as u8, (x % 0x100) as u8]
}

/// The four bytes of `x`, least significant first.
pub open spec fn le32_bytes(x: u32) -> Seq<u8> {
    seq![(x % 0x100) as u8, (x / 0x100 % 0x100) as u8, (x / 0x10000 % 0x100) as u8, (x / 0x1000000) as u8]
}

/// The two bytes of `x` in the chosen order.
pub open spec fn u16_bytes(x: u16, big_endian: bool) -> Seq<u8> {
    if big_endian {
        seq![(x / 0x100) as u8, (x % 0x100) as u8]
    } else {
        seq![(x % 0x100) as u8, (x / 0x100) as u8]
    }
}

/// The codepoint U+FFFD in the four-byte big-endian wire form.
pub open spec fn replacement_codepoint_bytes() -> Seq<u8> {
    seq![0u8, 0u8, 0xFFu8, 0xFDu8]
}

/// Reading back the four big-endian bytes of a value gives the value.
pub proof fn lemma_be32_round_trip(x: u32)
    ensures
        be32_bytes(x).len() == 4,
        be32_value(be32_bytes(x)) == x as int,
{
    assert(be32_value(be32_bytes(x)) == x as int) by (nonlinear_arith);
}

/// Reading a value from the first four bytes of `bytes`.
pub fn u32_from_bytes(bytes: &[u8], big_endian: bool) -> (r: u32)
    requires
        bytes@.len() >= 4,
    ensures
        big_endian ==> r as int == be32_value(bytes@),
        !big_endian ==> r as int == le32_value(bytes@),
{
    let (a, b, c, d) = if big_endian {
        (bytes[0], bytes[1], bytes[2], bytes[3])
    } else {
        (bytes[3], bytes[2], bytes[1], bytes[0])
    };
    (a as u32) * 0x1000000 + (b as u32) * 0x10000 + (c as u32) * 0x100 + (d as u32)
}

/// The four bytes of `input` in the chosen order.
pub fn u32_to_bytes(input: u32, big_endian: bool) -> (r: Vec<u8>)
    ensures
        big_endian ==> r@ == be32_bytes(input),
        !big_endian ==> r@ == le32_bytes(input),
{
    let b0 = (input / 0x1000000) as u8;
    let b1 = (input / 0x10000 % 0x100) as u8;
    let b2 = (input / 0x100 % 0x100) as u8;
    let b3 = (input % 0x100) as u8;
    if big_endian {
        vec![b0, b1, b2, b3]
    } else {
        vec![b3, b2, b1, b0]
    }
}

/// The two bytes of `input` in the chosen order.
pub fn u16_to_bytes(input: u16, big_endian: bool) -> (r: Vec<u8>)
    ensures
        r@ == u16_bytes(input, big_endian),
{
    let hi = (input / 0x100) as u8;
    let lo = (input % 0x100) as u8;
    if big_endian {
        vec![hi, lo]
    } else {
        vec![lo, hi]
    }
}

/// Reading a value from the first two bytes of `bytes`.
pub fn u16_from_bytes(bytes: &[u8], big_endian: bool) -> (r: u16)
    requires
        bytes@.len() >= 2,
    ensures
        big_endian ==> r as int == be16_value(bytes@),
        !big_endian ==> r as int == le16_value(bytes@),
{
    let (a, b) = if big_endian {
        (bytes[0], bytes[1])
    } else {
        (bytes[1], bytes[0])
    };
    (a as u16) * 0x100 + (b as u16)
}

/// U+FFFD, the replacement character, in the four-byte big-endian wire form.
pub fn unicode_replacement() -> (r: Vec<u8>)
    ensures
        r@ == replacement_codepoint_bytes(),
{
    vec![0, 0, 0xFF, 0xFD]
}

} // verus!
