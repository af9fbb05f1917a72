use vstd::prelude::*;
use crate::encoding::{BufferedInput, CodeError, item_bytes};
use crate::utf8::{codepoint_at, four_bytes};
use crate::utils::{be32_bytes, replacement_codepoint_bytes, u32_from_bytes, u32_to_bytes, unicode_replacement};

verus! {

/// The codepoint of each byte of code page 437; 0 where the byte stands
/// for the codepoint of the same value.
pub open spec fn cp437_table() -> Seq<u32> {
    seq![
        0x0000u32, 0x263A, 0x263B, 0x2665, 0x2666, 0x2663, 0x2660, 0x2022,
        0x25D8, 0x25CB, 0x25D9, 0x2642, 0x2640, 0x266A, 0x266B, 0x263C,
        0x25BA, 0x25C4, 0x2195, 0x203C, 0x00B6, 0x00A7, 0x25AC, 0x21A8,
        0x2191, 0x2193, 0x2192, 0x2190, 0x221F, 0x2194, 0x25B2, 0x25BC,
        0, 0, 0, 0, 0, 0, 0, 0,
        0, 0, 0, 0, 0, 0, 0, 0,
        0, 0, 0, 0, 0, 0, 0, 0,
        0, 0, 0, 0, 0, 0, 0, 0,
        0, 0, 0, 0, 0, 0, 0, 0,
        0, 0, 0, 0, 0, 0, 0, 0,
        0, 0, 0, 0, 0, 0, 0, 0,
        0, 0, 0, 0, 0, 0, 0, 0,
        0, 0, 0, 0, 0, 0, 0, 0,
        0, 0, 0, 0, 0, 0, 0, 0,
        0, 0, 0, 0, 0, 0, 0, 0,
        0, 0, 0, 0, 0, 0, 0, 0x2302,
        0x00C7, 0x00FC, 0x00E9, 0x00E2, 0x00E4, 0x00E0, 0x00E5, 0x00E7,
        0x00EA, 0x00EB, 0x00E8, 0x00EF, 0x00EE, 0x00EC, 0x00C4, 0x00C5,
        0x00C9, 0x00E6, 0x00C6, 0x00F4, 0x00F6, 0x00F2, 0x00FB, 0x00F9,
        0x00FF, 0x00D6, 0x00DC, 0x00A2, 0x00A3, 0x00A5, 0x20A7, 0x0192,
        0x00E1, 0x00ED, 0x00F3, 0x00FA, 0x00F1, 0x00D1, 0x00AA, 0x00BA,
        0x00BF, 0x2310, 0x00AC, 0x00BD, 0x00BC, 0x00A1, 0x00AB, 0x00BB,
        0x2591, 0x2592, 0x2593, 0x2502, 0x2524, 0x2561, 0x2562, 0x2556,
        0x2555, 0x2563, 0x2551, 0x2557, 0x255D, 0x255C, 0x255B, 0x2510,
        0x2514, 0x2534, 0x252C, 0x251C, 0x2500, 0x253C, 0x255E, 0x255F,
        0x255A, 0x2554, 0x2569, 0x2566, 0x2560, 0x2550, 0x256C, 0x2567,
        0x2568, 0x2564, 0x2565, 0x2559, 0x2558, 0x2552, 0x2553, 0x256B,
        0x256A, 0x2518, 0x250C, 0x2588, 0x2584, 0x258C, 0x2590, 0x2580,
        0x03B1, 0x00DF, 0x0393, 0x03C0, 0x03A3, 0x03C3, 0x00B5, 0x03C4,
        0x03A6, 0x0398, 0x03A9, 0x03B4, 0x221E, 0x03C6, 0x03B5, 0x2229,
        0x2261, 0x00B1, 0x2265, 0x2264, 0x2320, 0x2321, 0x00F7, 0x2248,
        0x00B0, 0x2219, 0x00B7, 0x221A, 0x207F, 0x00B2, 0x25A0, 0x00A0,
    ]
}

fn table() -> (r: [u32; 256])
    ensures
        r@ == cp437_table(),
{
    let t: [u32; 256] = [
        0x0000, 0x263A, 0x263B, 0x2665, 0x2666, 0x2663, 0x2660, 0x2022,
        0x25D8, 0x25CB, 0x25D9, 0x2642, 0x2640, 0x266A, 0x266B, 0x263C,
        0x25BA, 0x25C4, 0x2195, 0x203C, 0x00B6, 0x00A7, 0x25AC, 0x21A8,
        0x2191, 0x2193, 0x2192, 0x2190, 0x221F, 0x2194, 0x25B2, 0x25BC,
        0, 0, 0, 0, 0, 0, 0, 0,
        0, 0, 0, 0, 0, 0, 0, 0,
        0, 0, 0, 0, 0, 0, 0, 0,
        0, 0, 0, 0, 0, 0, 0, 0,
        0, 0, 0, 0, 0, 0, 0, 0,
        0, 0, 0, 0, 0, 0, 0, 0,
        0, 0, 0, 0, 0, 0, 0, 0,
        0, 0, 0, 0, 0, 0, 0, 0,
        0, 0, 0, 0, 0, 0, 0, 0,
        0, 0, 0, 0, 0, 0, 0, 0,
        0, 0, 0, 0, 0, 0, 0, 0,
        0, 0, 0, 0, 0, 0, 0, 0x2302,
        0x00C7, 0x00FC, 0x00E9, 0x00E2, 0x00E4, 0x00E0, 0x00E5, 0x00E7,
        0x00EA, 0x00EB, 0x00E8, 0x00EF, 0x00EE, 0x00EC, 0x00C4, 0x00C5,
        0x00C9, 0x00E6, 0x00C6, 0x00F4, 0x00F6, 0x00F2, 0x00FB, 0x00F9,
        0x00FF, 0x00D6, 0x00DC, 0x00A2, 0x00A3, 0x00A5, 0x20A7, 0x0192,
        0x00E1, 0x00ED, 0x00F3, 0x00FA, 0x00F1, 0x00D1, 0x00AA, 0x00BA,
        0x00BF, 0x2310, 0x00AC, 0x00BD, 0x00BC, 0x00A1, 0x00AB, 0x00BB,
        0x2591, 0x2592, 0x2593, 0x2502, 0x2524, 0x2561, 0x2562, 0x2556,
        0x2555, 0x2563, 0x2551, 0x2557, 0x255D, 0x255C, 0x255B, 0x2510,
        0x2514, 0x2534, 0x252C, 0x251C, 0x2500, 0x253C, 0x255E, 0x255F,
        0x255A, 0x2554, 0x2569, 0x2566, 0x2560, 0x2550, 0x256C, 0x2567,
        0x2568, 0x2564, 0x2565, 0x2559, 0x2558, 0x2552, 0x2553, 0x256B,
        0x256A, 0x2518, 0x250C, 0x2588, 0x2584, 0x258C, 0x2590, 0x2580,
        0x03B1, 0x00DF, 0x0393, 0x03C0, 0x03A3, 0x03C3, 0x00B5, 0x03C4,
        0x03A6, 0x0398, 0x03A9, 0x03B4, 0x221E, 0x03C6, 0x03B5, 0x2229,
        0x2261, 0x00B1, 0x2265, 0x2264, 0x2320, 0x2321, 0x00F7, 0x2248,
        0x00B0, 0x2219, 0x00B7, 0x221A, 0x207F, 0x00B2, 0x25A0, 0x00A0,
    ];
    assert(t@ =~= cp437_table());
    t
}

/// The first byte from `i` on whose table entry is `cp`.
pub open spec fn cp437_index(cp: u32, i: int) -> Option<int>
    decreases 256 - i,
{
    if i < 0 || i >= 256 {
        None
    } else if cp437_table()[i] == cp {
        Some(i)
    } else {
        cp437_index(cp, i + 1)
    }
}

/// The code page 437 byte of a codepoint; `?` where it has none. With
/// `newlines`, LF and CR stay themselves.
pub open spec fn cp437_byte(cp: u32, newlines: bool) -> u8 {
    if newlines && (cp == 10 || cp == 13) {
        cp as u8
    } else if cp < 256 && cp437_table()[cp as int] == 0 {
        cp as u8
    } else {
        match cp437_index(cp, 0) {
            Some(i) => i as u8,
            None => 63,
        }
    }
}

/// The codepoint of a code page 437 byte. With `newlines`, LF and CR stay
/// themselves.
pub open spec fn cp437_codepoint(b: u8, newlines: bool) -> u32 {
    if newlines && (b == 10 || b == 13) {
        b as u32
    } else if cp437_table()[b as int] == 0 {
        b as u32
    } else {
        cp437_table()[b as int]
    }
}

/// Encodes codepoints (four bytes each, big-endian) as code page 437; one
/// that has no byte becomes `?`.
pub struct Cp437Encode {
    pub newlines: bool,
}

impl Cp437Encode {
    pub fn new(newlines: bool) -> (r: Cp437Encode)
        ensures
            r.newlines == newlines,
    {
        Cp437Encode { newlines }
    }

    /// Reads one codepoint and writes its byte.
    pub fn next(&mut self, input: &mut BufferedInput) -> (r: Option<Result<Vec<u8>, CodeError>>)
        ensures
            *final(self) == *old(self),
            r is None <==> old(input)@.len() == 0,
            r is None ==> final(input)@ == old(input)@,
            r is Some ==> final(input)@.len() < old(input)@.len(),
            four_bytes(old(input)@) ==> final(input)@ == old(input)@.skip(4) && (r matches Some(Ok(out)) && out@
                == seq![cp437_byte(codepoint_at(old(input)@), old(self).newlines)]),
            !four_bytes(old(input)@) && old(input)@.len() > 0 ==> r matches Some(Err(_)),
    {
        let bytes = match input.get_bytes(4) {
            Some(Ok(b)) => b,
            Some(Err(e)) => {
                return Some(Err(e));
            },
            None => {
                return None;
            },
        };
        proof {
            assert(item_bytes(old(input)@.take(4)) =~= bytes@);
        }
        let codepoint = u32_from_bytes(bytes.as_slice(), true);
        if self.newlines && (codepoint == 10 || codepoint == 13) {
            return Some(Ok(vec![codepoint as u8]));
        }
        let t = table();
        if codepoint < 256 && t[codepoint as usize] == 0 {
            return Some(Ok(vec![codepoint as u8]));
        }
        let mut i: usize = 0;
        while i < 256
            invariant
                i <= 256,
                t@ == cp437_table(),
                cp437_index(codepoint, 0) == cp437_index(codepoint, i as int),
                four_bytes(old(input)@),
                input@ == old(input)@.skip(4),
                codepoint == codepoint_at(old(input)@),
                *self == *old(self),
                !(self.newlines && (codepoint == 10 || codepoint == 13)),
                !(codepoint < 256 && cp437_table()[codepoint as int] == 0),
            decreases 256 - i,
        {
            if t[i] == codepoint {
                return Some(Ok(vec![i as u8]));
            }
            i = i + 1;
        }
        Some(Ok(vec![63]))
    }

    pub fn replacement(&self) -> (r: Vec<u8>)
        ensures
            r@ == seq![63u8],
    {
        vec![63]
    }
}

/// Decodes code page 437 into codepoints (four bytes each, big-endian).
pub struct Cp437Decode {
    pub newlines: bool,
}

impl Cp437Decode {
    pub fn new(newlines: bool) -> (r: Cp437Decode)
        ensures
            r.newlines == newlines,
    {
        Cp437Decode { newlines }
    }

    /// Reads one byte and writes its codepoint.
    pub fn next(&mut self, input: &mut BufferedInput) -> (r: Option<Result<Vec<u8>, CodeError>>)
        ensures
            *final(self) == *old(self),
            r is None <==> old(input)@.len() == 0,
            r is None ==> final(input)@ == old(input)@,
            old(input)@.len() > 0 ==> final(input)@ == old(input)@.drop_first() && match old(input)@[0] {
                Ok(b) => r matches Some(Ok(out)) && out@ == be32_bytes(cp437_codepoint(b, old(self).newlines)),
                Err(e) => r == Some(Err::<Vec<u8>, CodeError>(e)),
            },
    {
        let byte = match input.get_byte() {
            Some(Ok(b)) => b,
            Some(Err(e)) => {
                return Some(Err(e));
            },
            None => {
                return None;
            },
        };
        let t = table();
        let mut codepoint = t[byte as usize];
        if self.newlines && (byte == 10 || byte == 13) {
            codepoint = byte as u32;
        } else if codepoint == 0 {
            codepoint = byte as u32;
        }
        Some(Ok(u32_to_bytes(codepoint, true)))
    }

    pub fn replacement(&self) -> (r: Vec<u8>)
        ensures
            r@ == replacement_codepoint_bytes(),
    {
        unicode_replacement()
    }
}

} // verus!
