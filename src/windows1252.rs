use vstd::prelude::*;
use crate::encoding::{BufferedInput, CodeError, item_bytes};
use crate::utf8::{codepoint_at, four_bytes};
use crate::utils::{be32_bytes, replacement_codepoint_bytes, u32_from_bytes, u32_to_bytes, unicode_replacement};

verus! {

/// The codepoints of the bytes 0x80 to 0x9F; 0 where a byte has none. The
/// other bytes stand for the codepoint of the same value.
pub open spec fn w1252_table() -> Seq<u32> {
    seq![
        0x20ACu32, 0, 0x201A, 0x0192, 0x201E, 0x2026, 0x2020, 0x2021,
        0x02C6, 0x2030, 0x0160, 0x2039, 0x0152, 0, 0x017D, 0,
        0, 0x2018, 0x2019, 0x201C, 0x201D, 0x2022, 0x2013, 0x2014,
        0x02DC, 0x2122, 0x0161, 0x203A, 0x0153, 0, 0x017E, 0x0178,
    ]
}

fn table() -> (r: [u32; 32])
    ensures
        r@ == w1252_table(),
{
    let t: [u32; 32] = [
        0x20AC, 0, 0x201A, 0x0192, 0x201E, 0x2026, 0x2020, 0x2021,
        0x02C6, 0x2030, 0x0160, 0x2039, 0x0152, 0, 0x017D, 0,
        0, 0x2018, 0x2019, 0x201C, 0x201D, 0x2022, 0x2013, 0x2014,
        0x02DC, 0x2122, 0x0161, 0x203A, 0x0153, 0, 0x017E, 0x0178,
    ];
    assert(t@ =~= w1252_table());
    t
}

/// The first index from `i` on where the table holds `cp`.
pub open spec fn table_index(cp: u32, i: int) -> Option<int>
    decreases 32 - i,
{
    if i < 0 || i >= 32 {
        None
    } else if w1252_table()[i] == cp {
        Some(i)
    } else {
        table_index(cp, i + 1)
    }
}

/// The Windows-1252 byte of a codepoint, if it has one.
pub open spec fn w1252_byte(cp: u32) -> Option<u8> {
    if cp < 0x80 || (0xA0 <= cp <= 0xFF) {
        Some(cp as u8)
    } else {
        match table_index(cp, 0) {
            Some(i) => Some((0x80 + i) as u8),
            None => None,
        }
    }
}

/// Encodes codepoints (four bytes each, big-endian) as Windows-1252; one
/// that has no byte becomes `?`.
pub struct Windows1252Encode;

impl Windows1252Encode {
    pub fn new() -> Windows1252Encode {
        Windows1252Encode
    }

    fn unmapped(&self, codepoint: u32) -> (r: Option<Result<Vec<u8>, CodeError>>)
        ensures
            r matches Some(Ok(out)) && out@ == seq![63u8],
    {
        Some(Ok(vec![63]))
    }

    /// Reads one codepoint and writes its byte, or `?` where it has none.
    pub fn next(&mut self, input: &mut BufferedInput) -> (r: Option<Result<Vec<u8>, CodeError>>)
        ensures
            r is None <==> old(input)@.len() == 0,
            r is None ==> final(input)@ == old(input)@,
            r is Some ==> final(input)@.len() < old(input)@.len(),
            four_bytes(old(input)@) ==> final(input)@ == old(input)@.skip(4) && match w1252_byte(
                codepoint_at(old(input)@),
            ) {
                Some(b) => r matches Some(Ok(out)) && out@ == seq![b],
                None => r matches Some(Ok(out)) && out@ == seq![63u8],
            },
            !four_bytes(old(input)@) && old(input)@.len() > 0 ==> r matches Some(Err(_)),
    {
        let bytes = match input.get_bytes(4) {
            Some(Ok(b)) => b,
            Some(Err(e)) => {
                return Some(Err(e));
            },
            None => {
                return None;
            },
        };
        proof {
            assert(item_bytes(old(input)@.take(4)) =~= bytes@);
        }
        let codepoint = u32_from_bytes(bytes.as_slice(), true);
        if codepoint < 0x80 || (codepoint >= 0xA0 && codepoint <= 0xFF) {
            return Some(Ok(vec![codepoint as u8]));
        }
        let t = table();
        let mut i: usize = 0;
        while i < 32
            invariant
                i <= 32,
                t@ == w1252_table(),
                table_index(codepoint, 0) == table_index(codepoint, i as int),
                four_bytes(old(input)@),
                input@ == old(input)@.skip(4),
                codepoint == codepoint_at(old(input)@),
                !(codepoint < 0x80 || (0xA0 <= codepoint <= 0xFF)),
            decreases 32 - i,
        {
            if t[i] == codepoint {
                return Some(Ok(vec![(0x80 + i) as u8]));
            }
            i = i + 1;
        }
        self.unmapped(codepoint)
    }

    pub fn replacement(&self) -> (r: Vec<u8>)
        ensures
            r@ == seq![63u8],
    {
        vec![63]
    }
}

/// Decodes Windows-1252 into codepoints (four bytes each, big-endian).
pub struct Windows1252Decode;

impl Windows1252Decode {
    pub fn new() -> Windows1252Decode {
        Windows1252Decode
    }

    /// Reads one byte and writes its codepoint; a byte that has none is an error.
    pub fn next(&mut self, input: &mut BufferedInput) -> (r: Option<Result<Vec<u8>, CodeError>>)
        ensures
            r is None <==> old(input)@.len() == 0,
            r is None ==> final(input)@ == old(input)@,
            old(input)@.len() > 0 ==> final(input)@ == old(input)@.drop_first() && match old(input)@[0] {
                Ok(b) => if b < 0x80 || b >= 0xA0 {
                    r matches Some(Ok(out)) && out@ == be32_bytes(b as u32)
                } else if w1252_table()[b - 0x80] == 0 {
                    r matches Some(Err(_))
                } else {
                    r matches Some(Ok(out)) && out@ == be32_bytes(w1252_table()[b - 0x80])
                },
                Err(e) => r == Some(Err::<Vec<u8>, CodeError>(e)),
            },
    {
        let byte = match input.get_byte() {
            Some(Ok(b)) => b,
            Some(Err(e)) => {
                return Some(Err(e));
            },
            None => {
                return None;
            },
        };
        if byte < 0x80 || byte >= 0xA0 {
            return Some(Ok(u32_to_bytes(byte as u32, true)));
        }
        let t = table();
        let codepoint = t[(byte - 0x80) as usize];
        if codepoint == 0 {
            return Some(Err(CodeError::new("undefined Windows 1252 code unit").with_bytes(vec![byte])));
        }
        Some(Ok(u32_to_bytes(codepoint, true)))
    }

    pub fn replacement(&self) -> (r: Vec<u8>)
        ensures
            r@ == replacement_codepoint_bytes(),
    {
        unicode_replacement()
    }
}

} // verus!
