use vstd::prelude::*;
use crate::encoding::{BufferedInput, CodeError};

verus! {

/// The digit for a value below 16.
pub open spec fn hex_digit(quad: u8, uppercase: bool) -> u8 {
    if quad < 10 {
        (48 + quad) as u8
    } else if uppercase {
        (65 + quad - 10) as u8
    } else {
        (97 + quad - 10) as u8
    }
}

/// The value of a hexadecimal digit of either case.
pub open spec fn hex_value(c: u8) -> Option<u8> {
    if 48 <= c <= 57 {
        Some((c - 48) as u8)
    } else if 97 <= c <= 102 {
        Some((c - 97 + 10) as u8)
    } else if 65 <= c <= 70 {
        Some((c - 65 + 10) as u8)
    } else {
        None
    }
}

/// Writes each byte as two hexadecimal digits and a space, and a line break
/// at the end.
pub struct HexEncode {
    pub uppercase: bool,
    pub done: bool,
}

impl HexEncode {
    pub fn new() -> (r: HexEncode)
        ensures
            !r.uppercase,
            !r.done,
    {
        HexEncode { uppercase: false, done: false }
    }

    fn hex_chars(&self, byte: u8) -> (r: (u8, u8))
        ensures
            r.0 == hex_digit(byte / 16, self.uppercase),
            r.1 == hex_digit(byte % 16, self.uppercase),
    {
        (self.hex_char(byte / 16), self.hex_char(byte % 16))
    }

    fn hex_char(&self, quad: u8) -> (r: u8)
        requires
            quad < 16,
        ensures
            r == hex_digit(quad, self.uppercase),
    {
        if quad < 10 {
            48 + quad
        } else if self.uppercase {
            65 + quad - 10
        } else {
            97 + quad - 10
        }
    }

    /// Reads one byte and writes its digits and a space; at the end of the
    /// input, a line break once, then nothing.
    pub fn next(&mut self, input: &mut BufferedInput) -> (r: Option<Result<Vec<u8>, CodeError>>)
        ensures
            final(self).uppercase == old(self).uppercase,
            r is Some && !(r matches Some(Ok(b)) && b@.len() > 0) ==> final(input)@.len() < old(input)@.len(),
            old(input)@.len() > 0 ==> final(input)@ == old(input)@.drop_first() && match old(input)@[0] {
                Ok(b) => r matches Some(Ok(out)) && out@ == seq![
                    hex_digit(b / 16, old(self).uppercase),
                    hex_digit(b % 16, old(self).uppercase),
                    32u8,
                ],
                Err(e) => r == Some(Err::<Vec<u8>, CodeError>(e)),
            },
            old(input)@.len() == 0 && !old(self).done ==> (r matches Some(Ok(out)) && out@ == seq![10u8])
                && final(self).done,
            old(input)@.len() == 0 && old(self).done ==> r is None && !final(self).done,
    {
        match input.get_byte() {
            Some(Ok(byte)) => {
                let (high, low) = self.hex_chars(byte);
                Some(Ok(vec![high, low, 32]))
            },
            Some(Err(e)) => Some(Err(e)),
            None => {
                if self.done {
                    self.done = false;
                    None
                } else {
                    self.done = true;
                    Some(Ok(vec![10]))
                }
            },
        }
    }
}

/// Reads hexadecimal digits in pairs, one byte per pair, passing over
/// whitespace.
pub struct HexDecode;

impl HexDecode {
    pub fn new() -> HexDecode {
        HexDecode
    }

    /// Reads two digits, whitespace passed over, and writes their byte. A
    /// byte that is neither is an error; so is the end of the input after
    /// a single digit.
    pub fn next(&mut self, input: &mut BufferedInput) -> (r: Option<Result<Vec<u8>, CodeError>>)
        ensures
            r is Some ==> final(input)@.len() < old(input)@.len(),
            r is None ==> final(input)@.len() == 0,
            ({
                let v = old(input)@;
                (v.len() >= 2 && v[0] is Ok && v[1] is Ok && hex_value(v[0]->Ok_0) is Some && hex_value(
                    v[1]->Ok_0,
                ) is Some) ==> {
                    &&& r matches Some(Ok(out)) && out@ == seq![
                        (hex_value(v[0]->Ok_0)->Some_0 * 16 + hex_value(v[1]->Ok_0)->Some_0) as u8,
                    ]
                    &&& final(input)@ == v.skip(2)
                }
            }),
    {
        let ghost v = input@;
        let mut out: u8 = 0;
        let mut first = true;
        let ghost mut plain = true;
        loop
            invariant
                v == old(input)@,
                input@.len() <= v.len(),
                !first ==> input@.len() < v.len() && out < 16,
                plain && first ==> input@ == v,
                plain && !first ==> input@ == v.drop_first() && v[0] is Ok && hex_value(v[0]->Ok_0) == Some(out),
                (v.len() >= 2 && v[0] is Ok && v[1] is Ok && hex_value(v[0]->Ok_0) is Some && hex_value(
                    v[1]->Ok_0,
                ) is Some) ==> plain,
            decreases input@.len(),
        {
            let ghost before = input@;
            match input.get_byte() {
                Some(Ok(byte)) => {
                    let value = if byte == 32 || byte == 9 || byte == 13 || byte == 10 {
                        proof { plain = false; }
                        continue;
                    } else if 48 <= byte && byte <= 57 {
                        byte - 48
                    } else if 97 <= byte && byte <= 102 {
                        byte - 97 + 10
                    } else if 65 <= byte && byte <= 70 {
                        byte - 65 + 10
                    } else {
                        return Some(Err(CodeError::new("out of range").with_bytes(vec![byte])));
                    };
                    if first {
                        out = value;
                        first = false;
                    } else {
                        proof {
                            if plain {
                                assert(before.drop_first() =~= v.skip(2));
                            }
                        }
                        return Some(Ok(vec![out * 16 + value]));
                    }
                },
                Some(Err(e)) => {
                    return Some(Err(e));
                },
                None => {
                    if !first {
                        return Some(
                            Err(CodeError::new("not enough data (need a second hex digit to finish the octet)").with_bytes(vec![out])),
                        );
                    } else {
                        return None;
                    }
                },
            }
        }
    }
}

/// Discards all input.
pub struct Null;

impl Null {
    pub fn new() -> Null {
        Null
    }

    /// Reads everything and writes nothing; an error upstream is handed on.
    pub fn next(&mut self, input: &mut BufferedInput) -> (r: Option<Result<Vec<u8>, CodeError>>)
        ensures
            r is Some ==> final(input)@.len() < old(input)@.len() && r matches Some(Err(_)),
            r is None ==> final(input)@.len() == 0,
            (forall|i: int| 0 <= i < old(input)@.len() ==> (#[trigger] old(input)@[i]) is Ok) ==> r is None,
    {
        let ghost v = input@;
        loop
            invariant
                input@.len() <= v.len(),
                v == old(input)@,
                input@ == v.skip(v.len() - input@.len()),
            decreases input@.len(),
        {
            let ghost before = input@;
            match input.get_byte() {
                Some(Ok(_)) => {
                    assert(before.drop_first() =~= v.skip(v.len() - input@.len()));
                },
                Some(Err(e)) => {
                    assert(before[0] == v[v.len() - before.len()]);
                    return Some(Err(e));
                },
                None => {
                    return None;
                },
            }
        }
    }

    /// Nothing stands in for a faulty unit.
    pub fn replacement(&self) -> (r: Vec<u8>)
        ensures
            r@ == Seq::<u8>::empty(),
    {
        Vec::new()
    }
}

} // verus!
