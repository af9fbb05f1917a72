use vstd::prelude::*;
use crate::encoding::{BufferedInput, CodeError};
use crate::utils::{be32_bytes, replacement_codepoint_bytes, u32_to_bytes, unicode_replacement};

verus! {

/// Whether a byte opens a double-byte Shift JIS character.
pub open spec fn is_double_lead(b: u8) -> bool {
    (0x81 <= b <= 0x9F) || (0xE0 <= b <= 0xEF)
}

/// Whether `second` may follow the lead byte `first`: an odd lead takes
/// 0x40 to 0x9E but for 0x7F, an even one 0x9F to 0xFC.
pub open spec fn second_byte_fits(first: u8, second: u8) -> bool {
    if second <= 0x3F || second == 0x7F || second >= 0xFD {
        false
    } else if second <= 0x9E {
        first % 2 == 1
    } else {
        first % 2 == 0
    }
}

/// Decodes Shift JIS into codepoints (four bytes each, big-endian). ASCII
/// passes through but for the yen sign and the overline; single bytes
/// 0xA1 to 0xDF are half-width katakana. A well-formed double-byte
/// character has no table here and becomes U+FFFD.
pub struct ShiftJISDecode;

impl ShiftJISDecode {
    pub fn new() -> ShiftJISDecode {
        ShiftJISDecode
    }

    /// Reads one character and writes its codepoint.
    pub fn next(&mut self, input: &mut BufferedInput) -> (r: Option<Result<Vec<u8>, CodeError>>)
        ensures
            r is None <==> old(input)@.len() == 0,
            r is None ==> final(input)@ == old(input)@,
            r is Some ==> final(input)@.len() < old(input)@.len(),
            ({
                let v = old(input)@;
                v.len() > 0 && v[0] is Ok ==> {
                    let b = v[0]->Ok_0;
                    if b == 0x5C {
                        (r matches Some(Ok(out)) && out@ == be32_bytes(0xA5)) && final(input)@ == v.drop_first()
                    } else if b == 0x7E {
                        (r matches Some(Ok(out)) && out@ == be32_bytes(0x203E)) && final(input)@ == v.drop_first()
                    } else if b <= 0x7F {
                        (r matches Some(Ok(out)) && out@ == be32_bytes(b as u32)) && final(input)@ == v.drop_first()
                    } else if 0xA1 <= b <= 0xDF {
                        (r matches Some(Ok(out)) && out@ == be32_bytes((0xFF61 + b - 0xA1) as u32)) && final(input)@
                            == v.drop_first()
                    } else if !is_double_lead(b) {
                        (r matches Some(Err(e)) && e.bad_bytes matches Some(bb) && bb@ == seq![b]) && final(input)@
                            == v.drop_first()
                    } else if v.len() >= 2 && v[1] is Ok {
                        &&& final(input)@ == v.skip(2)
                        &&& if second_byte_fits(b, v[1]->Ok_0) {
                            r matches Some(Ok(out)) && out@ == replacement_codepoint_bytes()
                        } else {
                            r matches Some(Err(_))
                        }
                    } else {
                        r matches Some(Err(_))
                    }
                }
            }),
    {
        let ghost v = input@;
        let first = match input.get_byte() {
            Some(Ok(b)) => b,
            Some(Err(e)) => {
                return Some(Err(e));
            },
            None => {
                return None;
            },
        };
        let mut bytes: Vec<u8> = vec![first];
        if first == 0x5C {
            return Some(Ok(vec![0x00, 0x00, 0x00, 0xA5]));
        } else if first == 0x7E {
            return Some(Ok(vec![0x00, 0x00, 0x20, 0x3E]));
        } else if first <= 0x7F {
            return Some(Ok(vec![0x00, 0x00, 0x00, first]));
        } else if first == 0x80 || first == 0xA0 || first >= 0xF0 {
            return Some(Err(CodeError::new("illegal first Shift JIS byte").with_bytes(bytes)));
        } else if first >= 0xA1 && first <= 0xDF {
            return Some(Ok(u32_to_bytes(0xFF61 + (first - 0xA1) as u32, true)));
        }
        let second = match input.get_byte() {
            Some(Ok(b)) => b,
            Some(Err(e)) => {
                return Some(Err(CodeError::new("incomplete double-byte Shift JIS character").with_bytes(bytes).with_inner(e)));
            },
            None => {
                return Some(Err(CodeError::new("incomplete double-byte Shift JIS character due to EOF").with_bytes(bytes)));
            },
        };
        bytes.push(second);
        proof {
            assert(v.drop_first().drop_first() =~= v.skip(2));
        }
        if second <= 0x3F || second == 0x7F || second >= 0xFD {
            return Some(Err(CodeError::new("illegal second byte of double-byte Shift JIS character").with_bytes(bytes)));
        } else if second <= 0x9E && first % 2 == 0 {
            return Some(
                Err(CodeError::new("mismatching second byte of double-byte Shift JIS character where first byte is even").with_bytes(bytes)),
            );
        } else if second >= 0x9F && first % 2 == 1 {
            return Some(
                Err(CodeError::new("mismatching second byte of double-byte Shift JIS character where first byte is odd").with_bytes(bytes)),
            );
        }
        Some(Ok(unicode_replacement()))
    }

    pub fn replacement(&self) -> (r: Vec<u8>)
        ensures
            r@ == replacement_codepoint_bytes(),
    {
        unicode_replacement()
    }
}

} // verus!
