use vstd::prelude::*;
use crate::encoding::{BufferedInput, CodeError, Item, byte_items, item_bytes};
use crate::utf8::{codepoint_at, four_bytes};
use crate::utils::{be32_bytes, replacement_codepoint_bytes, u16_bytes, u16_to_bytes, u32_from_bytes, u32_to_bytes, unicode_replacement};

verus! {

/// A high surrogate, the first unit of a pair: 0xD800 to 0xDBFF.
pub open spec fn is_high(u: int) -> bool {
    0xD800 <= u <= 0xDBFF
}

/// A low surrogate, the second unit of a pair: 0xDC00 to 0xDFFF.
pub open spec fn is_low(u: int) -> bool {
    0xDC00 <= u <= 0xDFFF
}

/// The codepoint of a surrogate pair.
pub open spec fn pair_value(high: int, low: int) -> int {
    0x10000 + (high - 0xD800) * 0x400 + (low - 0xDC00)
}

/// The UTF-16 form of a codepoint; none for a surrogate or above U+10FFFF.
pub open spec fn utf16_encode_spec(cp: u32, big_endian: bool) -> Option<Seq<u8>> {
    if 0xD800 <= cp <= 0xDFFF || cp > 0x10FFFF {
        None
    } else if cp <= 0xFFFF {
        Some(u16_bytes(cp as u16, big_endian))
    } else {
        Some(
            u16_bytes((0xD800 + (cp - 0x10000) / 0x400) as u16, big_endian) + u16_bytes(
                (0xDC00 + (cp - 0x10000) % 0x400) as u16,
                big_endian,
            ),
        )
    }
}

/// Whether the two items from `i` on are bytes.
pub open spec fn unit_ready(v: Seq<Item>, i: int) -> bool {
    v.len() >= i + 2 && v[i] is Ok && v[i + 1] is Ok
}

/// The code unit that the two items from `i` on spell.
pub open spec fn unit_at(v: Seq<Item>, i: int, big_endian: bool) -> int {
    if big_endian {
        v[i]->Ok_0 as int * 0x100 + v[i + 1]->Ok_0 as int
    } else {
        v[i + 1]->Ok_0 as int * 0x100 + v[i]->Ok_0 as int
    }
}

/// What decoding one unit of UTF-16 from a non-empty `v` does: `r` is what
/// comes out and `w` is what is left to read.
pub open spec fn utf16_decoded(v: Seq<Item>, big_endian: bool, r: Option<Result<Vec<u8>, CodeError>>, w: Seq<Item>) -> bool {
    if !unit_ready(v, 0) {
        r matches Some(Err(_))
    } else {
        let u = unit_at(v, 0, big_endian);
        if is_low(u) {
            (r matches Some(Err(e)) && e.bad_bytes matches Some(bb) && bb@ == item_bytes(v.take(2))) && w == v.skip(2)
        } else if is_high(u) {
            if unit_ready(v, 2) {
                let u2 = unit_at(v, 2, big_endian);
                if is_low(u2) {
                    r matches Some(Ok(out)) && out@ == be32_bytes(pair_value(u, u2) as u32) && w == v.skip(4)
                } else {
                    (r matches Some(Err(e)) && e.bad_bytes matches Some(bb) && bb@ == item_bytes(v.take(4))) && w == v.skip(4)
                }
            } else {
                &&& r matches Some(Err(e))
                &&& v.len() == 2 ==> (e.bad_bytes matches Some(bb) && bb@ == item_bytes(v))
                &&& (v.len() == 3 && v[2] is Ok) ==> (e.bad_bytes matches Some(bb) && bb@ == item_bytes(v)) && w.len() == 0
                &&& (v.len() >= 4 && v[2] is Ok && v[3] is Err) ==> (e.bad_bytes matches Some(bb) && bb@ == item_bytes(v.take(3)))
                    && w == v.skip(4)
            }
        } else {
            r matches Some(Ok(out)) && out@ == be32_bytes(u as u32) && w == v.skip(2)
        }
    }
}

/// Encodes codepoints (four bytes each, big-endian) as UTF-16.
pub struct Utf16Encode {
    pub big_endian: bool,
}

impl Utf16Encode {
    pub fn new(big_endian: bool) -> (r: Utf16Encode)
        ensures
            r.big_endian == big_endian,
    {
        Utf16Encode { big_endian }
    }

    /// The UTF-16 form of one codepoint; a surrogate or a value above
    /// U+10FFFF is an error.
    pub fn encode_codepoint(codepoint: u32, big_endian: bool) -> (r: Result<Vec<u8>, CodeError>)
        ensures
            match utf16_encode_spec(codepoint, big_endian) {
                Some(e) => r matches Ok(out) && out@ == e,
                None => r is Err,
            },
    {
        if codepoint >= 0xD800 && codepoint <= 0xDFFF {
            if codepoint < 0xDC00 {
                Err(CodeError::new("cannot UTF-16 encode high surrogate code point"))
            } else {
                Err(CodeError::new("cannot UTF-16 encode low surrogate code point"))
            }
        } else if codepoint <= 0xFFFF {
            Ok(u16_to_bytes(codepoint as u16, big_endian))
        } else if codepoint <= 0x10FFFF {
            let subtracted = codepoint - 0x10000;
            let high = (0xD800 + subtracted / 0x400) as u16;
            let low = (0xDC00 + subtracted % 0x400) as u16;
            let mut out = u16_to_bytes(high, big_endian);
            let second = u16_to_bytes(low, big_endian);
            out.push(second[0]);
            out.push(second[1]);
            assert(out@ =~= utf16_encode_spec(codepoint, big_endian)->Some_0);
            Ok(out)
        } else {
            Err(CodeError::new("cannot UTF-16 encode out-of-range code point"))
        }
    }

    /// Reads one codepoint and writes its UTF-16 form.
    pub fn next(&mut self, input: &mut BufferedInput) -> (r: Option<Result<Vec<u8>, CodeError>>)
        ensures
            *final(self) == *old(self),
            r is None <==> old(input)@.len() == 0,
            r is None ==> final(input)@ == old(input)@,
            r is Some ==> final(input)@.len() < old(input)@.len(),
            four_bytes(old(input)@) ==> final(input)@ == old(input)@.skip(4) && match utf16_encode_spec(
                codepoint_at(old(input)@),
                old(self).big_endian,
            ) {
                Some(e) => r matches Some(Ok(out)) && out@ == e,
                None => r matches Some(Err(e)) && e.bad_bytes matches Some(bb) && bb@ == item_bytes(old(input)@.take(4)),
            },
            !four_bytes(old(input)@) && old(input)@.len() > 0 ==> r matches Some(Err(_)),
    {
        let bytes = match input.get_bytes(4) {
            Some(Ok(b)) => b,
            Some(Err(e)) => {
                return Some(Err(e));
            },
            None => {
                return None;
            },
        };
        proof {
            assert(item_bytes(old(input)@.take(4)) =~= bytes@);
        }
        let cp = u32_from_bytes(bytes.as_slice(), true);
        match Self::encode_codepoint(cp, self.big_endian) {
            Ok(out) => Some(Ok(out)),
            Err(e) => Some(Err(e.with_bytes(bytes))),
        }
    }

    /// U+FFFD in UTF-16.
    pub fn replacement(&self) -> (r: Vec<u8>)
        ensures
            r@ == u16_bytes(0xFFFD, self.big_endian),
    {
        u16_to_bytes(0xFFFD, self.big_endian)
    }
}

/// Decodes UTF-16 into codepoints (four bytes each, big-endian).
pub struct Utf16Decode {
    pub big_endian: bool,
}

/// The value a high surrogate gives a pair, shifted into place; none for
/// another unit.
pub fn high_surrogate(codeunit: u16) -> (r: Option<u32>)
    ensures
        is_high(codeunit as int) ==> r == Some(((codeunit - 0xD800) * 0x400) as u32),
        !is_high(codeunit as int) ==> r is None,
{
    if codeunit >= 0xD800 && codeunit <= 0xDBFF {
        Some(((codeunit - 0xD800) as u32) * 0x400)
    } else {
        None
    }
}

/// The value a low surrogate gives a pair; none for another unit.
pub fn low_surrogate(codeunit: u16) -> (r: Option<u32>)
    ensures
        is_low(codeunit as int) ==> r == Some((codeunit - 0xDC00) as u32),
        !is_low(codeunit as int) ==> r is None,
{
    if codeunit >= 0xDC00 && codeunit <= 0xDFFF {
        Some((codeunit - 0xDC00) as u32)
    } else {
        None
    }
}

impl Utf16Decode {
    pub fn new(big_endian: bool) -> (r: Utf16Decode)
        ensures
            r.big_endian == big_endian,
    {
        Utf16Decode { big_endian }
    }

    /// Reads one code unit, appending its bytes to `bytes`.
    fn read_codeunit(&self, input: &mut BufferedInput, bytes: &mut Vec<u8>) -> (r: Option<Result<u16, CodeError>>)
        ensures
            r is None <==> old(input)@.len() == 0,
            r is None ==> final(input)@ == old(input)@ && final(bytes)@ == old(bytes)@,
            r is Some ==> final(input)@.len() < old(input)@.len(),
            r matches Some(Ok(_)) ==> final(input)@.len() + 2 == old(input)@.len(),
            unit_ready(old(input)@, 0) ==> {
                &&& r matches Some(Ok(u)) && u as int == unit_at(old(input)@, 0, self.big_endian)
                &&& final(input)@ == old(input)@.skip(2)
                &&& final(bytes)@ == old(bytes)@ + item_bytes(old(input)@.take(2))
            },
            !unit_ready(old(input)@, 0) && old(input)@.len() > 0 ==> r matches Some(Err(_)),
            (old(input)@.len() >= 2 && old(input)@[0] is Ok && old(input)@[1] is Err) ==> (r matches Some(Err(_)))
                && final(bytes)@ == old(bytes)@ + seq![old(input)@[0]->Ok_0] && final(input)@ == old(input)@.skip(2),
            old(input)@.len() == 1 && old(input)@[0] is Ok ==> (r matches Some(Err(e)) && e.bad_bytes matches Some(
                bb,
            ) && bb@ == old(bytes)@ + item_bytes(old(input)@)) && final(bytes)@ == old(bytes)@ + item_bytes(old(input)@)
                && final(input)@.len() == 0,
    {
        let ghost v = input@;
        let first = match input.get_byte() {
            Some(Ok(b)) => b,
            Some(Err(e)) => {
                return Some(Err(CodeError::new("incomplete UTF-16 code unit").with_bytes(bytes.clone()).with_inner(e)));
            },
            None => {
                return None;
            },
        };
        bytes.push(first);
        let second = match input.get_byte() {
            Some(Ok(b)) => b,
            Some(Err(e)) => {
                assert(v.drop_first().drop_first() =~= v.skip(2));
                return Some(Err(CodeError::new("incomplete UTF-16 code unit").with_bytes(bytes.clone()).with_inner(e)));
            },
            None => {
                assert(item_bytes(v) =~= seq![first]);
                return Some(Err(CodeError::new("incomplete UTF-16 code unit due to EOF").with_bytes(bytes.clone())));
            },
        };
        bytes.push(second);
        proof {
            assert(v.drop_first().drop_first() =~= v.skip(2));
            assert(item_bytes(v.take(2)) =~= seq![first, second]);
        }
        if self.big_endian {
            Some(Ok((first as u16) * 0x100 + second as u16))
        } else {
            Some(Ok((second as u16) * 0x100 + first as u16))
        }
    }

    /// Reads one code unit, or a surrogate pair, and writes the codepoint.
    pub fn next(&mut self, input: &mut BufferedInput) -> (r: Option<Result<Vec<u8>, CodeError>>)
        ensures
            *final(self) == *old(self),
            r is None <==> old(input)@.len() == 0,
            r is None ==> final(input)@ == old(input)@,
            r is Some ==> final(input)@.len() < old(input)@.len(),
            old(input)@.len() > 0 ==> utf16_decoded(old(input)@, old(self).big_endian, r, final(input)@),
    {
        let ghost v = input@;
        let mut bytes: Vec<u8> = Vec::new();
        let first = match self.read_codeunit(input, &mut bytes) {
            Some(Ok(u)) => u,
            Some(Err(e)) => {
                return Some(Err(e));
            },
            None => {
                return None;
            },
        };
        assert(bytes@ =~= item_bytes(v.take(2)));
        if low_surrogate(first).is_some() {
            return Some(Err(CodeError::new("low surrogate cannot be first in surrogate pair").with_bytes(bytes)));
        }
        if let Some(value) = high_surrogate(first) {
            let ghost mid = input@;
            let ghost bytes_mid = bytes@;
            let second = match self.read_codeunit(input, &mut bytes) {
                Some(Ok(u)) => u,
                Some(Err(e)) => {
                    proof {
                        assert(mid =~= v.skip(2));
                        if v.len() == 3 && v[2] is Ok {
                            assert(bytes@ =~= item_bytes(v));
                        }
                        if v.len() >= 4 && v[2] is Ok && v[3] is Err {
                            assert(mid[0] == v[2] && mid[1] == v[3]);
                            assert(bytes@ =~= item_bytes(v.take(3)));
                            assert(mid.skip(2) =~= v.skip(4));
                        }
                    }
                    return Some(Err(CodeError::new("incomplete 2-unit UTF-16 codepoint").with_bytes(bytes).with_inner(e)));
                },
                None => {
                    assert(v.len() == 2);
                    assert(bytes@ =~= item_bytes(v));
                    return Some(Err(CodeError::new("incomplete 2-unit UTF-16 codepoint due to EOF").with_bytes(bytes)));
                },
            };
            proof {
                assert(mid.skip(2) =~= v.skip(4));
                assert(mid[0] == v[2] && mid[1] == v[3]);
                assert(mid.take(2) =~= v.subrange(2, 4));
                assert(bytes@ =~= item_bytes(v.take(4)));
            }
            if let Some(low) = low_surrogate(second) {
                let codepoint = value + 0x10000 + low;
                Some(Ok(u32_to_bytes(codepoint, true)))
            } else {
                Some(Err(CodeError::new("second code unit in surrogate pair is not a low surrogate").with_bytes(bytes)))
            }
        } else {
            Some(Ok(u32_to_bytes(first as u32, true)))
        }
    }

    /// U+FFFD as a codepoint.
    pub fn replacement(&self) -> (r: Vec<u8>)
        ensures
            r@ == replacement_codepoint_bytes(),
    {
        unicode_replacement()
    }
}

proof fn lemma_u16_unit(x: u16, big_endian: bool, rest: Seq<Item>)
    ensures
        unit_ready(byte_items(u16_bytes(x, big_endian)) + rest, 0),
        unit_at(byte_items(u16_bytes(x, big_endian)) + rest, 0, big_endian) == x as int,
{
    let v = byte_items(u16_bytes(x, big_endian)) + rest;
    assert(v[0] == Ok::<u8, CodeError>(u16_bytes(x, big_endian)[0]));
    assert(v[1] == Ok::<u8, CodeError>(u16_bytes(x, big_endian)[1]));
}

/// Decoding the UTF-16 form of a codepoint that is not a surrogate and not
/// above U+10FFFF, whatever follows it, gives back that codepoint and leaves
/// what follows.
pub proof fn lemma_utf16_round_trip(
    cp: u32,
    big_endian: bool,
    rest: Seq<Item>,
    r: Option<Result<Vec<u8>, CodeError>>,
    w: Seq<Item>,
)
    requires
        cp <= 0x10FFFF,
        !(0xD800 <= cp <= 0xDFFF),
        utf16_decoded(byte_items(utf16_encode_spec(cp, big_endian)->Some_0) + rest, big_endian, r, w),
    ensures
        r matches Some(Ok(out)) && out@ == be32_bytes(cp),
        w == rest,
{
    let e = utf16_encode_spec(cp, big_endian)->Some_0;
    let v = byte_items(e) + rest;
    if cp <= 0xFFFF {
        lemma_u16_unit(cp as u16, big_endian, rest);
        assert(v =~= byte_items(u16_bytes(cp as u16, big_endian)) + rest);
        assert(v.skip(2) =~= rest);
    } else {
        let hi = (0xD800 + (cp - 0x10000) / 0x400) as u16;
        let lo = (0xDC00 + (cp - 0x10000) % 0x400) as u16;
        let tail = byte_items(u16_bytes(lo, big_endian)) + rest;
        assert(v =~= byte_items(u16_bytes(hi, big_endian)) + tail);
        lemma_u16_unit(hi, big_endian, tail);
        lemma_u16_unit(lo, big_endian, rest);
        assert(v.skip(2) =~= tail);
        assert(unit_ready(v, 2) && unit_at(v, 2, big_endian) == unit_at(tail, 0, big_endian));
        assert(pair_value(hi as int, lo as int) == cp as int);
        assert(v.skip(4) =~= rest);
    }
}

} // verus!
