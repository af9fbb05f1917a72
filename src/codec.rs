use vstd::prelude::*;
use crate::base64::{Base64Decode, Base64Encode};
use crate::cp437::{Cp437Decode, Cp437Encode};
use crate::encoding::{BufferedInput, CodeError, Item};
use crate::hex::{HexDecode, HexEncode, Null};
use crate::iso8859::{Iso8859Decode, Iso8859Encode};
use crate::shift_jis::ShiftJISDecode;
use crate::ucode::{UCodeDecode, UCodeEncode};
use crate::utf16::{Utf16Decode, Utf16Encode};
use crate::utf7::{Utf7Decode, Utf7Encode};
use crate::utf8::{Utf8Decode, Utf8Encode};
use crate::utils::u16_bytes;
use crate::windows1252::{Windows1252Decode, Windows1252Encode};
use crate::base64::{group_len, scan, scanned, wrapped, wrapped_col};
use crate::cp437::{cp437_byte, cp437_codepoint};
use crate::encoding::item_bytes;
use crate::hex::{hex_digit, hex_value};
use crate::iso8859::{iso_byte, iso_codepoint};
use crate::shift_jis::{is_double_lead, second_byte_fits};
use crate::ucode::{after_code, code_form, hex_number, ucode_text};
use crate::utf16::{utf16_decoded, utf16_encode_spec};
use crate::utf7::{Mode, run_decoded, run_decoded_at_end, run_result, run_scan, run_to_end, short_run, utf7_encoded};
use crate::utf8::{codepoint_at, four_bytes, utf8_decoded, utf8_encode_spec};
use crate::utils::{be32_bytes, replacement_codepoint_bytes};
use crate::windows1252::{w1252_byte, w1252_table};

verus! {

/// One codec of the pipeline.
pub enum Codec {
    Base64Encode(Base64Encode),
    Base64Decode(Base64Decode),
    Cp437Encode(Cp437Encode),
    Cp437Decode(Cp437Decode),
    HexEncode(HexEncode),
    HexDecode(HexDecode),
    Iso8859Encode(Iso8859Encode),
    Iso8859Decode(Iso8859Decode),
    Null(Null),
    ShiftJISDecode(ShiftJISDecode),
    UCodeEncode(UCodeEncode),
    UCodeDecode(UCodeDecode),
    Utf16Encode(Utf16Encode),
    Utf16Decode(Utf16Decode),
    Utf7Encode(Utf7Encode),
    Utf7Decode(Utf7Decode),
    Utf8Encode(Utf8Encode),
    Utf8Decode(Utf8Decode),
    Windows1252Encode(Windows1252Encode),
    Windows1252Decode(Windows1252Decode),
}

/// Whether a byte is a space, tab, CR or LF.
fn is_blank(b: u8) -> bool {
    b == 32 || b == 9 || b == 13 || b == 10
}

/// Whether a byte is a hexadecimal digit.
fn is_hex_digit(b: u8) -> bool {
    (48 <= b && b <= 57) || (97 <= b && b <= 102) || (65 <= b && b <= 70)
}

/// The items held settle a call of the hex decoder: two digits, or a byte
/// or error that ends it, after any whitespace.
fn hex_decode_ready(input: &BufferedInput) -> bool {
    let n = input.len();
    let mut digits: usize = 0;
    let mut i: usize = 0;
    while i < n
        invariant
            n == input@.len(),
            i <= n,
            digits <= 1,
        decreases n - i,
    {
        match input.peek(i) {
            None => {
                return true;
            },
            Some(b) => {
                if !is_blank(b) {
                    if !is_hex_digit(b) {
                        return true;
                    }
                    if digits == 1 {
                        return true;
                    }
                    digits = 1;
                }
            },
        }
        i = i + 1;
    }
    false
}

/// The items held settle a call of the `U+` decoder: eight items after any
/// whitespace, the most one code can take, or an error in the whitespace.
fn ucode_ready(input: &BufferedInput) -> bool {
    let n = input.len();
    let mut i: usize = 0;
    while i < n
        invariant
            n == input@.len(),
            i <= n,
        decreases n - i,
    {
        match input.peek(i) {
            None => {
                return true;
            },
            Some(b) => {
                if !is_blank(b) {
                    return n - i >= 8;
                }
            },
        }
        i = i + 1;
    }
    false
}

/// The items held settle a call of the Base64 decoder: a held-back error,
/// four symbols, or a byte or error that ends the group, line breaks passed
/// over.
fn base64_decode_ready(c: &Base64Decode, input: &BufferedInput) -> bool {
    if c.stashed_error.is_some() {
        return true;
    }
    let n = input.len();
    let mut count: usize = 0;
    let mut i: usize = 0;
    while i < n
        invariant
            n == input@.len(),
            i <= n,
            count < 4,
        decreases n - i,
    {
        match input.peek(i) {
            None => {
                return true;
            },
            Some(b) => {
                if b == 13 || b == 10 {
                } else if (65 <= b && b <= 90) || (97 <= b && b <= 122) || (48 <= b && b <= 57) || b == c.base64.code62
                    || b == c.base64.code63 || c.base64.pad == Some(b) {
                    if count == 3 {
                        return true;
                    }
                    count = count + 1;
                } else if !c.ignore_garbage {
                    return true;
                }
            },
        }
        i = i + 1;
    }
    false
}

/// The items held settle a call of the UTF-7 encoder: whole codepoints up to
/// a direct one, one that cannot be encoded, or one that brings the waiting
/// UTF-16 bytes to a multiple of three.
fn utf7_encode_ready(c: &Utf7Encode, input: &BufferedInput) -> bool {
    let n = input.len();
    let mut pending: usize = c.output_buffer.len() % 3;
    let mut i: usize = 0;
    while i < n && n - i >= 4
        invariant
            n == input@.len(),
            i <= n,
            pending < 3,
        decreases n - i,
    {
        let (a, b, x, y) = match (input.peek(i), input.peek(i + 1), input.peek(i + 2), input.peek(i + 3)) {
            (Some(a), Some(b), Some(x), Some(y)) => (a, b, x, y),
            _ => {
                return true;
            },
        };
        let cp: u32 = (a as u32) * 0x1000000 + (b as u32) * 0x10000 + (x as u32) * 0x100 + (y as u32);
        if (cp == 32 || cp == 9 || cp == 13 || cp == 10 || (33 <= cp && cp <= 125)) && cp != 43 && cp != 92 && cp != 126 {
            return true;
        }
        if (0xD800 <= cp && cp <= 0xDFFF) || cp > 0x10FFFF {
            return true;
        }
        pending = (pending + if cp > 0xFFFF { 4 } else { 2 }) % 3;
        if pending == 0 {
            return true;
        }
        i = i + 4;
    }
    false
}

/// The items held settle a call of the UTF-7 decoder: a direct byte, or a
/// run of modified Base64 together with the byte or error that ends it.
fn utf7_decode_ready(c: &Utf7Decode, input: &BufferedInput) -> bool {
    let n = input.len();
    let mut i: usize = 0;
    if c.mode == Mode::Direct {
        if n == 0 {
            return false;
        }
        match input.peek(0) {
            Some(43) => {
                i = 1;
            },
            _ => {
                return true;
            },
        }
    }
    while i < n
        invariant
            n == input@.len(),
            i <= n,
        decreases n - i,
    {
        match input.peek(i) {
            Some(b) => {
                if !((65 <= b && b <= 90) || (97 <= b && b <= 122) || (48 <= b && b <= 57) || b == 43 || b == 47) {
                    return true;
                }
            },
            None => {
                return true;
            },
        }
        i = i + 1;
    }
    false
}

impl Codec {
    /// The codec's own invariant.
    pub open spec fn wf(&self) -> bool {
        match self {
            Codec::Base64Encode(c) => c.wf(),
            Codec::Iso8859Encode(c) => c.wf(),
            Codec::Iso8859Decode(c) => c.wf(),
            Codec::Utf7Encode(c) => c.wf(),
            Codec::Utf7Decode(c) => c.wf(),
            _ => true,
        }
    }

    /// 1 when the codec holds something to hand out, or a state to leave,
    /// before it reads again; else 0.
    pub open spec fn pending(&self) -> nat {
        match self {
            Codec::Base64Decode(c) => c.pending(),
            Codec::Utf7Decode(c) => c.pending(),
            _ => 0,
        }
    }

    /// The bytes put out in place of a faulty unit under the replace policy.
    pub open spec fn spec_replacement(&self) -> Seq<u8> {
        match self {
            Codec::Null(_) => seq![],
            Codec::Utf8Encode(_) => seq![0xEFu8, 0xBFu8, 0xBDu8],
            Codec::Utf16Encode(c) => u16_bytes(0xFFFD, c.big_endian),
            Codec::Utf8Decode(_) | Codec::Utf16Decode(_) | Codec::Utf7Decode(_) | Codec::Windows1252Decode(_)
            | Codec::Cp437Decode(_) | Codec::Iso8859Decode(_) | Codec::ShiftJISDecode(_) => {
                replacement_codepoint_bytes()
            },
            _ => seq![63u8],
        }
    }

    /// What one call of `next` does: from codec `c0` on input `v` it gives
    /// `r` and leaves codec `c1` and input `w`, as the codec of that kind
    /// states it. The kind of codec stays the same.
    #[verifier::opaque]
    pub open spec fn step(c0: Codec, v: Seq<Item>, r: Option<Result<Vec<u8>, CodeError>>, c1: Codec, w: Seq<Item>) -> bool {
        match (c0, c1) {
            (Codec::Base64Encode(c0), Codec::Base64Encode(c1)) => {
                &&& (c1.wf())
                &&& (c1.base64 == c0.base64)
                &&& (c1.line_width == c0.line_width)
                &&& (r is None <==> v.len() == 0)
                &&& (r is Some ==> w.len() < v.len())
                &&& (({
                    let v = v;
                    let n = group_len(v, 3);
                    let chunk = item_bytes(v.take(n));
                    let width = c0.width();
                    let col = c0.output_line_width as nat;
                    v.len() > 0 && (forall|i: int| 0 <= i < n ==> (#[trigger] v[i]) is Ok) ==> {
                        &&& r matches Some(Ok(out)) && out@ == wrapped(c0.base64.spec_encode(chunk), col, width)
                        &&& width > 0 ==> c1.output_line_width == wrapped_col(c0.base64.spec_encode(chunk), col, width)
                        &&& w == v.skip(n)
                    }
                }))
            },
            (Codec::Base64Decode(c0), Codec::Base64Decode(c1)) => {
                &&& (c1.base64 == c0.base64)
                &&& (c1.ignore_garbage == c0.ignore_garbage)
                &&& (w.len() <= v.len())
                &&& (c0.has_stash() ==> (r matches Some(Err(_))) && w == v && !c1.has_stash())
                &&& (r is Some && !(r matches Some(Ok(b)) && b@.len() > 0) ==> 2 * w.len() + c1.pending()
                    < 2 * v.len() + c0.pending())
                &&& (!c0.has_stash() ==> scanned(
                    c0.base64,
                    c0.ignore_garbage,
                    scan(c0.base64, c0.ignore_garbage, v, Seq::<u8>::empty()),
                    r,
                    c1.has_stash(),
                    w,
                ))
            },
            (Codec::Cp437Encode(c0), Codec::Cp437Encode(c1)) => {
                &&& (c1 == c0)
                &&& (r is None <==> v.len() == 0)
                &&& (r is None ==> w == v)
                &&& (r is Some ==> w.len() < v.len())
                &&& (four_bytes(v) ==> w == v.skip(4) && (r matches Some(Ok(out)) && out@
                    == seq![cp437_byte(codepoint_at(v), c0.newlines)]))
                &&& (!four_bytes(v) && v.len() > 0 ==> r matches Some(Err(_)))
            },
            (Codec::Cp437Decode(c0), Codec::Cp437Decode(c1)) => {
                &&& (c1 == c0)
                &&& (r is None <==> v.len() == 0)
                &&& (r is None ==> w == v)
                &&& (v.len() > 0 ==> w == v.drop_first() && match v[0] {
                    Ok(b) => r matches Some(Ok(out)) && out@ == be32_bytes(cp437_codepoint(b, c0.newlines)),
                    Err(e) => r == Some(Err::<Vec<u8>, CodeError>(e)),
                })
            },
            (Codec::HexEncode(c0), Codec::HexEncode(c1)) => {
                &&& (c1.uppercase == c0.uppercase)
                &&& (r is Some && !(r matches Some(Ok(b)) && b@.len() > 0) ==> w.len() < v.len())
                &&& (v.len() > 0 ==> w == v.drop_first() && match v[0] {
                    Ok(b) => r matches Some(Ok(out)) && out@ == seq![
                        hex_digit(b / 16, c0.uppercase),
                        hex_digit(b % 16, c0.uppercase),
                        32u8,
                    ],
                    Err(e) => r == Some(Err::<Vec<u8>, CodeError>(e)),
                })
                &&& (v.len() == 0 && !c0.done ==> (r matches Some(Ok(out)) && out@ == seq![10u8])
                    && c1.done)
                &&& (v.len() == 0 && c0.done ==> r is None && !c1.done)
            },
            (Codec::HexDecode(c0), Codec::HexDecode(c1)) => {
                &&& (r is Some ==> w.len() < v.len())
                &&& (r is None ==> w.len() == 0)
                &&& (({
                    let v = v;
                    (v.len() >= 2 && v[0] is Ok && v[1] is Ok && hex_value(v[0]->Ok_0) is Some && hex_value(
                        v[1]->Ok_0,
                    ) is Some) ==> {
                        &&& r matches Some(Ok(out)) && out@ == seq![
                            (hex_value(v[0]->Ok_0)->Some_0 * 16 + hex_value(v[1]->Ok_0)->Some_0) as u8,
                        ]
                        &&& w == v.skip(2)
                    }
                }))
            },
            (Codec::Null(c0), Codec::Null(c1)) => {
                &&& (r is Some ==> w.len() < v.len() && r matches Some(Err(_)))
                &&& (r is None ==> w.len() == 0)
                &&& ((forall|i: int| 0 <= i < v.len() ==> (#[trigger] v[i]) is Ok) ==> r is None)
            },
            (Codec::Iso8859Encode(c0), Codec::Iso8859Encode(c1)) => {
                &&& (c1 == c0)
                &&& (r is None <==> v.len() == 0)
                &&& (r is None ==> w == v)
                &&& (r is Some ==> w.len() < v.len())
                &&& (four_bytes(v) ==> w == v.skip(4) && (r matches Some(Ok(out)) && out@
                    == seq![iso_byte(c0.part, codepoint_at(v))]))
                &&& (!four_bytes(v) && v.len() > 0 ==> r matches Some(Err(_)))
            },
            (Codec::Iso8859Decode(c0), Codec::Iso8859Decode(c1)) => {
                &&& (c1 == c0)
                &&& (r is None <==> v.len() == 0)
                &&& (r is None ==> w == v)
                &&& (v.len() > 0 ==> w == v.drop_first() && match v[0] {
                    Ok(b) => match iso_codepoint(c0.part, b) {
                        Some(cp) => r matches Some(Ok(out)) && out@ == be32_bytes(cp),
                        None => r matches Some(Err(_)),
                    },
                    Err(e) => r == Some(Err::<Vec<u8>, CodeError>(e)),
                })
            },
            (Codec::ShiftJISDecode(c0), Codec::ShiftJISDecode(c1)) => {
                &&& (r is None <==> v.len() == 0)
                &&& (r is None ==> w == v)
                &&& (r is Some ==> w.len() < v.len())
                &&& (({
                    let v = v;
                    v.len() > 0 && v[0] is Ok ==> {
                        let b = v[0]->Ok_0;
                        if b == 0x5C {
                            (r matches Some(Ok(out)) && out@ == be32_bytes(0xA5)) && w == v.drop_first()
                        } else if b == 0x7E {
                            (r matches Some(Ok(out)) && out@ == be32_bytes(0x203E)) && w == v.drop_first()
                        } else if b <= 0x7F {
                            (r matches Some(Ok(out)) && out@ == be32_bytes(b as u32)) && w == v.drop_first()
                        } else if 0xA1 <= b <= 0xDF {
                            (r matches Some(Ok(out)) && out@ == be32_bytes((0xFF61 + b - 0xA1) as u32)) && w
                                == v.drop_first()
                        } else if !is_double_lead(b) {
                            (r matches Some(Err(e)) && e.bad_bytes matches Some(bb) && bb@ == seq![b]) && w
                                == v.drop_first()
                        } else if v.len() >= 2 && v[1] is Ok {
                            &&& w == v.skip(2)
                            &&& if second_byte_fits(b, v[1]->Ok_0) {
                                r matches Some(Ok(out)) && out@ == replacement_codepoint_bytes()
                            } else {
                                r matches Some(Err(_))
                            }
                        } else {
                            r matches Some(Err(_))
                        }
                    }
                }))
            },
            (Codec::UCodeEncode(c0), Codec::UCodeEncode(c1)) => {
                &&& (r is None <==> v.len() == 0)
                &&& (r is None ==> w == v)
                &&& (r is Some ==> w.len() < v.len())
                &&& (four_bytes(v) ==> w == v.skip(4) && (r matches Some(Ok(out)) && out@
                    == ucode_text(codepoint_at(v))))
                &&& (!four_bytes(v) && v.len() > 0 ==> r matches Some(Err(_)))
            },
            (Codec::UCodeDecode(c0), Codec::UCodeDecode(c1)) => {
                &&& (r is Some ==> w.len() < v.len())
                &&& (r is None ==> w.len() == 0)
                &&& (forall|d: int| #[trigger] code_form(v, d) ==> {
                    &&& r matches Some(Ok(out)) && out@ == be32_bytes(hex_number(item_bytes(v.subrange(2, 2 + d))) as u32)
                    &&& w == after_code(v, d)
                })
            },
            (Codec::Utf16Encode(c0), Codec::Utf16Encode(c1)) => {
                &&& (c1 == c0)
                &&& (r is None <==> v.len() == 0)
                &&& (r is None ==> w == v)
                &&& (r is Some ==> w.len() < v.len())
                &&& (four_bytes(v) ==> w == v.skip(4) && match utf16_encode_spec(
                    codepoint_at(v),
                    c0.big_endian,
                ) {
                    Some(e) => r matches Some(Ok(out)) && out@ == e,
                    None => r matches Some(Err(e)) && e.bad_bytes matches Some(bb) && bb@ == item_bytes(v.take(4)),
                })
                &&& (!four_bytes(v) && v.len() > 0 ==> r matches Some(Err(_)))
            },
            (Codec::Utf16Decode(c0), Codec::Utf16Decode(c1)) => {
                &&& (c1 == c0)
                &&& (r is None <==> v.len() == 0)
                &&& (r is None ==> w == v)
                &&& (r is Some ==> w.len() < v.len())
                &&& (v.len() > 0 ==> utf16_decoded(v, c0.big_endian, r, w))
            },
            (Codec::Utf7Encode(c0), Codec::Utf7Encode(c1)) => {
                &&& (c1.wf())
                &&& (r is Some && !(r matches Some(Ok(b)) && b@.len() > 0) ==> w.len() < v.len())
                &&& (r is None ==> v.len() == 0)
                &&& (utf7_encoded(
                    c0.mode,
                    c0.output_buffer@,
                    Seq::<u8>::empty(),
                    v,
                    r,
                    c1.mode,
                    c1.output_buffer@,
                    w,
                ))
            },
            (Codec::Utf7Decode(c0), Codec::Utf7Decode(c1)) => {
                &&& (c1.wf())
                &&& (r is Some ==> 2 * w.len() + c1.pending() < 2 * v.len() + c0.pending())
                &&& (r is None ==> w.len() == 0)
                &&& (c0.mode == Mode::Unicode ==> forall|m: int| #[trigger] short_run(v, m) ==> run_decoded(
                    v,
                    m,
                    r,
                    c1.mode,
                    w,
                ))
                &&& ((c0.mode == Mode::Unicode && v.len() > 0) ==> run_result(
                    run_scan(v, Seq::<u8>::empty(), Seq::<u16>::empty()),
                    r,
                    c1.mode,
                    w,
                ))
                &&& ((c0.mode == Mode::Direct && v.len() > 1 && v[0] == Ok::<u8, CodeError>(43))
                    ==> run_result(
                    run_scan(v.drop_first(), Seq::<u8>::empty(), Seq::<u16>::empty()),
                    r,
                    c1.mode,
                    w,
                ))
                &&& ((c0.mode == Mode::Unicode && run_to_end(v)) ==> run_decoded_at_end(
                    v,
                    r,
                    c1.mode,
                    w,
                ))
                &&& ((c0.mode == Mode::Direct && v.len() > 0 && v[0] == Ok::<u8, CodeError>(43)
                    && run_to_end(v.drop_first())) ==> run_decoded_at_end(
                    v.drop_first(),
                    r,
                    c1.mode,
                    w,
                ))
                &&& ((c0.mode == Mode::Direct && v.len() > 0 && v[0] == Ok::<u8, CodeError>(43))
                    ==> forall|m: int| #[trigger] short_run(v.drop_first(), m) ==> run_decoded(
                    v.drop_first(),
                    m,
                    r,
                    c1.mode,
                    w,
                ))
                &&& (({
                    let v = v;
                    (c0.mode == Mode::Direct && v.len() > 0 && v[0] is Ok && v[0]->Ok_0 >= 0x80) ==> {
                        &&& r matches Some(Err(e)) && e.bad_bytes matches Some(bb) && bb@ == seq![v[0]->Ok_0]
                        &&& w == v.drop_first()
                        &&& c1.mode == Mode::Direct
                    }
                }))
                &&& (({
                    let v = v;
                    (c0.mode == Mode::Direct && v.len() > 0 && v[0] is Err) ==> r == Some(Err::<Vec<u8>, CodeError>(
                        v[0]->Err_0,
                    )) && w == v.drop_first()
                }))
                &&& (({
                    let v = v;
                    (c0.mode == Mode::Direct && v.len() > 0 && v[0] is Ok && v[0]->Ok_0 < 0x80 && v[0]->Ok_0 != 43) ==> {
                        &&& r matches Some(Ok(out)) && out@ == be32_bytes(v[0]->Ok_0 as u32)
                        &&& w == v.drop_first()
                        &&& c1.mode == Mode::Direct
                    }
                }))
            },
            (Codec::Utf8Encode(c0), Codec::Utf8Encode(c1)) => {
                &&& (r is None <==> v.len() == 0)
                &&& (r is None ==> w == v)
                &&& (r is Some ==> w.len() < v.len())
                &&& (four_bytes(v) ==> w == v.skip(4) && match utf8_encode_spec(
                    codepoint_at(v),
                ) {
                    Some(e) => r matches Some(Ok(out)) && out@ == e,
                    None => r matches Some(Err(e)) && e.bad_bytes matches Some(bb) && bb@ == item_bytes(v.take(4)),
                })
                &&& (!four_bytes(v) && v.len() > 0 ==> r matches Some(Err(_)))
            },
            (Codec::Utf8Decode(c0), Codec::Utf8Decode(c1)) => {
                &&& (r is None <==> v.len() == 0)
                &&& (r is None ==> w == v)
                &&& (r is Some ==> w.len() < v.len())
                &&& (v.len() > 0 ==> utf8_decoded(v, r, w))
            },
            (Codec::Windows1252Encode(c0), Codec::Windows1252Encode(c1)) => {
                &&& (r is None <==> v.len() == 0)
                &&& (r is None ==> w == v)
                &&& (r is Some ==> w.len() < v.len())
                &&& (four_bytes(v) ==> w == v.skip(4) && match w1252_byte(
                    codepoint_at(v),
                ) {
                    Some(b) => r matches Some(Ok(out)) && out@ == seq![b],
                    None => r matches Some(Ok(out)) && out@ == seq![63u8],
                })
                &&& (!four_bytes(v) && v.len() > 0 ==> r matches Some(Err(_)))
            },
            (Codec::Windows1252Decode(c0), Codec::Windows1252Decode(c1)) => {
                &&& (r is None <==> v.len() == 0)
                &&& (r is None ==> w == v)
                &&& (v.len() > 0 ==> w == v.drop_first() && match v[0] {
                    Ok(b) => if b < 0x80 || b >= 0xA0 {
                        r matches Some(Ok(out)) && out@ == be32_bytes(b as u32)
                    } else if w1252_table()[b - 0x80] == 0 {
                        r matches Some(Err(_))
                    } else {
                        r matches Some(Ok(out)) && out@ == be32_bytes(w1252_table()[b - 0x80])
                    },
                    Err(e) => r == Some(Err::<Vec<u8>, CodeError>(e)),
                })
            },
            _ => false,
        }
    }

    /// Reads from `input` and gives the next output: bytes, a recoverable
    /// error, or nothing once no output is left. An error, or an empty run of
    /// bytes, always makes progress, so that reading again goes on from a
    /// later point.
    pub fn next(&mut self, input: &mut BufferedInput) -> (r: Option<Result<Vec<u8>, CodeError>>)
        requires
            old(self).wf(),
        ensures
            Codec::step(*old(self), old(input)@, r, *final(self), final(input)@),
            final(self).wf(),
            final(self).spec_replacement() == old(self).spec_replacement(),
            final(self).pending() <= 1,
            r is Some && !(r matches Some(Ok(b)) && b@.len() > 0) ==> 2 * final(input)@.len() + final(self).pending() < 2
                * old(input)@.len() + old(self).pending(),
    {
        reveal(Codec::step);
        match self {
            Codec::Base64Encode(c) => c.next(input),
            Codec::Base64Decode(c) => c.next(input),
            Codec::Cp437Encode(c) => c.next(input),
            Codec::Cp437Decode(c) => c.next(input),
            Codec::HexEncode(c) => c.next(input),
            Codec::HexDecode(c) => c.next(input),
            Codec::Iso8859Encode(c) => c.next(input),
            Codec::Iso8859Decode(c) => c.next(input),
            Codec::Null(c) => c.next(input),
            Codec::ShiftJISDecode(c) => c.next(input),
            Codec::UCodeEncode(c) => c.next(input),
            Codec::UCodeDecode(c) => c.next(input),
            Codec::Utf16Encode(c) => c.next(input),
            Codec::Utf16Decode(c) => c.next(input),
            Codec::Utf7Encode(c) => c.next(input),
            Codec::Utf7Decode(c) => c.next(input),
            Codec::Utf8Encode(c) => c.next(input),
            Codec::Utf8Decode(c) => c.next(input),
            Codec::Windows1252Encode(c) => c.next(input),
            Codec::Windows1252Decode(c) => c.next(input),
        }
    }

    /// Whether the items `input` holds are enough for one call of `next`
    /// to come out as it would with any items after them: the call reads no
    /// further than they go. While more input may still arrive, a stage
    /// calls its codec only when this holds.
    pub(crate) fn ready(&self, input: &BufferedInput) -> bool {
        let n = input.len();
        match self {
            Codec::Base64Encode(_) => n >= 3,
            Codec::Base64Decode(c) => base64_decode_ready(c, input),
            Codec::HexEncode(_) | Codec::Cp437Decode(_) | Codec::Iso8859Decode(_) | Codec::Windows1252Decode(_) => n >= 1,
            Codec::HexDecode(_) => hex_decode_ready(input),
            Codec::Null(_) => false,
            Codec::ShiftJISDecode(_) => n >= 2,
            Codec::UCodeDecode(_) => ucode_ready(input),
            Codec::Utf8Decode(_) => n >= 6,
            Codec::Utf16Decode(_) => n >= 4,
            Codec::Utf7Encode(c) => utf7_encode_ready(c, input),
            Codec::Utf7Decode(c) => utf7_decode_ready(c, input),
            Codec::Cp437Encode(_) | Codec::Iso8859Encode(_) | Codec::UCodeEncode(_) | Codec::Utf16Encode(_)
            | Codec::Utf8Encode(_) | Codec::Windows1252Encode(_) => n >= 4,
        }
    }

    /// The bytes put out in place of a faulty unit under the replace policy.
    pub fn replacement(&self) -> (r: Vec<u8>)
        ensures
            r@ == self.spec_replacement(),
    {
        match self {
            Codec::Null(c) => c.replacement(),
            Codec::Utf8Encode(c) => c.replacement(),
            Codec::Utf16Encode(c) => c.replacement(),
            Codec::Utf8Decode(c) => c.replacement(),
            Codec::Utf16Decode(c) => c.replacement(),
            Codec::Utf7Decode(c) => c.replacement(),
            Codec::Windows1252Decode(c) => c.replacement(),
            Codec::Cp437Decode(c) => c.replacement(),
            Codec::Iso8859Decode(c) => c.replacement(),
            Codec::ShiftJISDecode(c) => c.replacement(),
            _ => vec![63],
        }
    }
}

} // verus!
