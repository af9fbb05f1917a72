use vstd::prelude::*;
use vstd::string::{StrSliceExecFns, StringExecFns, StringSliceAdditionalSpecFns};
use crate::base64::{Base64, Base64Decode, Base64Encode};
use crate::codec::Codec;
use crate::encoding::bytes_equal;
use crate::cp437::{Cp437Decode, Cp437Encode};
use crate::hex::{HexDecode, HexEncode, Null};
use crate::iso8859::{Iso8859Decode, Iso8859Encode, iso_part, str_is};
use crate::shift_jis::ShiftJISDecode;
use crate::ucode::{UCodeDecode, UCodeEncode};
use crate::utf16::{Utf16Decode, Utf16Encode};
use crate::utf7::{Utf7Decode, Utf7Encode};
use crate::utf8::{Utf8Decode, Utf8Encode};
use crate::windows1252::{Windows1252Decode, Windows1252Encode};

verus! {

/// Splits `s` at each `sep`; the pieces hold no `sep`.
fn split(s: &[u8], sep: u8) -> (r: Vec<Vec<u8>>)
    ensures
        r@.len() >= 1,
        forall|i: int, j: int| 0 <= i < r@.len() && 0 <= j < r@[i]@.len() ==> r@[i]@[j] != sep,
{
    let mut pieces: Vec<Vec<u8>> = Vec::new();
    let mut current: Vec<u8> = Vec::new();
    let mut i: usize = 0;
    while i < s.len()
        invariant
            i <= s@.len(),
            forall|j: int| 0 <= j < current@.len() ==> current@[j] != sep,
            forall|k: int, j: int| 0 <= k < pieces@.len() && 0 <= j < pieces@[k]@.len() ==> pieces@[k]@[j] != sep,
        decreases s@.len() - i,
    {
        if s[i] == sep {
            pieces.push(current);
            current = Vec::new();
        } else {
            current.push(s[i]);
        }
        i = i + 1;
    }
    pieces.push(current);
    pieces
}

/// The byte of a one-byte option value.
fn single_byte(s: &[u8]) -> (r: Result<u8, String>)
    ensures
        r is Ok <==> s@.len() == 1,
        r matches Ok(b) ==> b == s@[0],
{
    if s.len() > 1 {
        Err("argument must be a single character".to_owned())
    } else if s.len() == 0 {
        Err("argument must be a single character, not empty".to_owned())
    } else {
        Ok(s[0])
    }
}

/// Reads an option value that must be a single character of one byte.
pub fn parse_single_byte(s: &str) -> (r: Result<u8, String>)
    ensures
        r is Ok <==> s.spec_bytes().len() == 1,
        r matches Ok(b) ==> b == s.spec_bytes()[0],
{
    single_byte(s.as_bytes())
}

/// The Base64 settings read from the options, and the options left over.
struct ParseResult {
    code62: u8,
    code63: u8,
    pad: Option<u8>,
    leftover_options: Vec<Vec<u8>>,
}

/// Reads `62=`, `63=` and `pad=` (a character or `none`) from a
/// comma-separated option list; defaults `+`, `/` and `=`.
fn parse_options(options: &[u8]) -> (r: Result<ParseResult, String>)
{
    let mut result = ParseResult { code62: 43, code63: 47, pad: Some(61), leftover_options: Vec::new() };
    let args = split(options, 44);
    let mut i: usize = 0;
    while i < args.len()
        invariant
            i <= args@.len(),
        decreases args@.len() - i,
    {
        let arg = &args[i];
        let parts = split(arg.as_slice(), 61);
        let key = parts[0].as_slice();
        let value: &[u8] = if parts.len() > 1 { parts[1].as_slice() } else { &[] };
        if bytes_equal(key, "62".as_bytes()) {
            result.code62 = single_byte(value)?;
        } else if bytes_equal(key, "63".as_bytes()) {
            result.code63 = single_byte(value)?;
        } else if bytes_equal(key, "pad".as_bytes()) {
            if bytes_equal(value, "none".as_bytes()) {
                result.pad = None;
            } else {
                let b = single_byte(value)?;
                result.pad = Some(b);
            }
        } else {
            result.leftover_options.push(arg.clone());
        }
        i = i + 1;
    }
    Ok(result)
}

/// A decimal number that fits in `usize`.
fn parse_number(s: &[u8]) -> (r: Option<usize>)
{
    if s.len() == 0 {
        return None;
    }
    let mut n: usize = 0;
    let mut i: usize = 0;
    while i < s.len()
        invariant
            i <= s@.len(),
        decreases s@.len() - i,
    {
        let c = s[i];
        if c < 48 || c > 57 {
            return None;
        }
        let d = (c - 48) as usize;
        if n > (usize::MAX - d) / 10 {
            return None;
        }
        n = n * 10 + d;
        i = i + 1;
    }
    Some(n)
}

fn base64_encode_from(options: &[u8]) -> (r: Result<Codec, String>)
    ensures
        r matches Ok(c) ==> c.wf() && c.pending() == 0 && c is Base64Encode,
{
    let parsed = parse_options(options)?;
    let mut width: Option<usize> = Some(64);
    let mut i: usize = 0;
    while i < parsed.leftover_options.len()
        invariant
            i <= parsed.leftover_options@.len(),
        decreases parsed.leftover_options@.len() - i,
    {
        let arg = parsed.leftover_options[i].as_slice();
        let parts = split(arg, 61);
        let key = parts[0].as_slice();
        if key.len() == 0 && parts.len() == 1 {
        } else if bytes_equal(key, "width".as_bytes()) && parts.len() > 1 {
            if bytes_equal(parts[1].as_slice(), "none".as_bytes()) {
                width = None;
            } else {
                match parse_number(parts[1].as_slice()) {
                    Some(w) => {
                        width = Some(w);
                    },
                    None => {
                        return Err("width must be a number".to_owned());
                    },
                }
            }
        } else {
            return Err("unrecognized argument".to_owned());
        }
        i = i + 1;
    }
    let base64 = Base64 { code62: parsed.code62, code63: parsed.code63, pad: parsed.pad };
    Ok(Codec::Base64Encode(Base64Encode::new(base64, width)))
}

fn base64_decode_from(options: &[u8]) -> (r: Result<Codec, String>)
    ensures
        r matches Ok(c) ==> c.wf() && c.pending() == 0 && c is Base64Decode,
{
    let parsed = parse_options(options)?;
    let mut ignore_garbage = false;
    let mut i: usize = 0;
    while i < parsed.leftover_options.len()
        invariant
            i <= parsed.leftover_options@.len(),
        decreases parsed.leftover_options@.len() - i,
    {
        let arg = parsed.leftover_options[i].as_slice();
        if arg.len() == 0 {
        } else if bytes_equal(arg, "ignore_garbage".as_bytes()) {
            ignore_garbage = true;
        } else {
            return Err("unrecognized argument".to_owned());
        }
        i = i + 1;
    }
    let base64 = Base64 { code62: parsed.code62, code63: parsed.code63, pad: parsed.pad };
    Ok(Codec::Base64Decode(Base64Decode::new(base64, ignore_garbage)))
}

/// The byte order an option names for UTF-16: empty or `le` for little
/// endian (`false`), `be` for big endian (`true`).
pub open spec fn byte_order_of(o: Seq<char>) -> Option<bool> {
    if o == ""@ || o == "le"@ {
        Some(false)
    } else if o == "be"@ {
        Some(true)
    } else {
        None
    }
}

fn byte_order(options: &str) -> (r: Result<bool, String>)
    ensures
        match byte_order_of(options@) {
            Some(be) => r == Ok::<bool, String>(be),
            None => r matches Err(m) && m@ == "invalid options"@,
        },
{
    if str_is(options, "") || str_is(options, "le") {
        Ok(false)
    } else if str_is(options, "be") {
        Ok(true)
    } else {
        Err("invalid options".to_owned())
    }
}

/// The code page 437 option: empty keeps LF and CR as themselves (`true`),
/// `nonl` maps them to the symbols of their bytes (`false`).
pub open spec fn newlines_of(o: Seq<char>) -> Option<bool> {
    if o == ""@ {
        Some(true)
    } else if o == "nonl"@ {
        Some(false)
    } else {
        None
    }
}

fn newlines(options: &str) -> (r: Result<bool, String>)
    ensures
        match newlines_of(options@) {
            Some(nl) => r == Ok::<bool, String>(nl),
            None => r matches Err(m) && m@ == "unrecognized option"@,
        },
{
    if str_is(options, "") {
        Ok(true)
    } else if str_is(options, "nonl") {
        Ok(false)
    } else {
        Err("unrecognized option".to_owned())
    }
}

/// The alphabet used when no option changes it: `+`, `/` and `=`.
pub open spec fn standard_base64() -> Base64 {
    Base64 { code62: 43, code63: 47, pad: Some(61) }
}

/// `name` is `word` (a lower-case name) in any letter case.
pub open spec fn same_name(name: Seq<char>, word: Seq<char>) -> bool {
    &&& name.len() == word.len()
    &&& forall|i: int|
        0 <= i < name.len() ==> #[trigger] name[i] == word[i] || (65 <= (name[i] as u32) <= 90 && (name[i] as u32) + 32
            == (word[i] as u32))
}

fn same_name_exec(name: &str, word: &str) -> (r: bool)
    ensures
        r == same_name(name@, word@),
{
    let n = name.unicode_len();
    if n != word.unicode_len() {
        return false;
    }
    let mut i: usize = 0;
    while i < n
        invariant
            n == name@.len() == word@.len(),
            i <= n,
            forall|j: int|
                0 <= j < i ==> #[trigger] name@[j] == word@[j] || (65 <= (name@[j] as u32) <= 90 && (name@[j] as u32)
                    + 32 == (word@[j] as u32)),
        decreases n - i,
    {
        let a = name.get_char(i);
        let b = word.get_char(i);
        let au = a as u32;
        if !(a == b || (65 <= au && au <= 90 && au + 32 == b as u32)) {
            return false;
        }
        i = i + 1;
    }
    true
}

/// The place of `n` among the registered names, in any letter case; the
/// number of names when it is none of them.
pub open spec fn scheme_index(n: Seq<char>) -> nat {
    if same_name(n, "base64"@) {
        0
    } else if same_name(n, "un_base64"@) {
        1
    } else if same_name(n, "cp437"@) {
        2
    } else if same_name(n, "un_cp437"@) {
        3
    } else if same_name(n, "iso8859"@) {
        4
    } else if same_name(n, "un_iso8859"@) {
        5
    } else if same_name(n, "shift_jis"@) {
        6
    } else if same_name(n, "utf16"@) {
        7
    } else if same_name(n, "un_utf16"@) {
        8
    } else if same_name(n, "hex"@) {
        9
    } else if same_name(n, "un_hex"@) {
        10
    } else if same_name(n, "null"@) {
        11
    } else if same_name(n, "ucode"@) {
        12
    } else if same_name(n, "un_ucode"@) {
        13
    } else if same_name(n, "utf7"@) {
        14
    } else if same_name(n, "un_utf7"@) {
        15
    } else if same_name(n, "utf8"@) {
        16
    } else if same_name(n, "un_utf8"@) {
        17
    } else if same_name(n, "windows1252"@) {
        18
    } else if same_name(n, "un_windows1252"@) {
        19
    } else if same_name(n, "un_shift_jis"@) {
        20
    } else {
        21
    }
}

/// Whether `n` names a registered codec, in any letter case.
pub open spec fn known_name(n: Seq<char>) -> bool {
    scheme_index(n) < 21
}

/// The codec registered under `name` (in any letter case), set up with
/// `options`. An unknown name, or options the codec does not take, is an
/// error.
pub fn get_encoding(name: &str, options: &str) -> (r: Result<Codec, String>)
    ensures
        r matches Ok(c) ==> c.wf() && c.pending() == 0,
        !known_name(name@) ==> (r matches Err(m) && m@ == "unknown coding scheme \""@ + name@ + "\""@),
        scheme_index(name@) == 9 ==> r matches Ok(Codec::HexEncode(_)),
        scheme_index(name@) == 10 ==> r matches Ok(Codec::HexDecode(_)),
        scheme_index(name@) == 11 ==> r matches Ok(Codec::Null(_)),
        scheme_index(name@) == 12 ==> r matches Ok(Codec::UCodeEncode(_)),
        scheme_index(name@) == 13 ==> r matches Ok(Codec::UCodeDecode(_)),
        scheme_index(name@) == 14 ==> r matches Ok(Codec::Utf7Encode(_)),
        scheme_index(name@) == 15 ==> r matches Ok(Codec::Utf7Decode(_)),
        scheme_index(name@) == 16 ==> r matches Ok(Codec::Utf8Encode(_)),
        scheme_index(name@) == 17 ==> r matches Ok(Codec::Utf8Decode(_)),
        scheme_index(name@) == 18 ==> r matches Ok(Codec::Windows1252Encode(_)),
        scheme_index(name@) == 19 ==> r matches Ok(Codec::Windows1252Decode(_)),
        scheme_index(name@) == 20 ==> r matches Ok(Codec::ShiftJISDecode(_)),
        scheme_index(name@) == 6 ==> (r matches Err(m) && m@ == "Shift JIS encoding is not implemented yet."@),
        scheme_index(name@) == 7 ==> match byte_order_of(options@) {
            Some(be) => r matches Ok(Codec::Utf16Encode(c)) && c.big_endian == be,
            None => r matches Err(m) && m@ == "invalid options"@,
        },
        scheme_index(name@) == 8 ==> match byte_order_of(options@) {
            Some(be) => r matches Ok(Codec::Utf16Decode(c)) && c.big_endian == be,
            None => r matches Err(m) && m@ == "invalid options"@,
        },
        scheme_index(name@) == 2 ==> match newlines_of(options@) {
            Some(nl) => r matches Ok(Codec::Cp437Encode(c)) && c.newlines == nl,
            None => r matches Err(m) && m@ == "unrecognized option"@,
        },
        scheme_index(name@) == 3 ==> match newlines_of(options@) {
            Some(nl) => r matches Ok(Codec::Cp437Decode(c)) && c.newlines == nl,
            None => r matches Err(m) && m@ == "unrecognized option"@,
        },
        scheme_index(name@) == 4 ==> match iso_part(options@) {
            Some(p) => r matches Ok(Codec::Iso8859Encode(c)) && c.part == p,
            None => r is Err,
        },
        scheme_index(name@) == 5 ==> match iso_part(options@) {
            Some(p) => r matches Ok(Codec::Iso8859Decode(c)) && c.part == p,
            None => r is Err,
        },
        scheme_index(name@) == 0 ==> (r matches Ok(c) ==> c is Base64Encode) && (options@ == ""@ ==> (r matches Ok(Codec::Base64Encode(c)) && c.base64 == standard_base64() && c.line_width == Some(64usize) && c.output_line_width == 0)),
        scheme_index(name@) == 1 ==> (r matches Ok(c) ==> c is Base64Decode) && (options@ == ""@ ==> (r matches Ok(Codec::Base64Decode(c)) && c.base64 == standard_base64() && !c.ignore_garbage && !c.has_stash())),
{
    if same_name_exec(name, "base64") {
        if str_is(options, "") {
            return Ok(Codec::Base64Encode(Base64Encode::new(Base64 { code62: 43, code63: 47, pad: Some(61) }, Some(64))));
        }
        base64_encode_from(options.as_bytes())
    } else if same_name_exec(name, "un_base64") {
        if str_is(options, "") {
            return Ok(Codec::Base64Decode(Base64Decode::new(Base64 { code62: 43, code63: 47, pad: Some(61) }, false)));
        }
        base64_decode_from(options.as_bytes())
    } else if same_name_exec(name, "cp437") {
        let nl = newlines(options)?;
        Ok(Codec::Cp437Encode(Cp437Encode::new(nl)))
    } else if same_name_exec(name, "un_cp437") {
        let nl = newlines(options)?;
        Ok(Codec::Cp437Decode(Cp437Decode::new(nl)))
    } else if same_name_exec(name, "iso8859") {
        let c = Iso8859Encode::new(options)?;
        Ok(Codec::Iso8859Encode(c))
    } else if same_name_exec(name, "un_iso8859") {
        let c = Iso8859Decode::new(options)?;
        Ok(Codec::Iso8859Decode(c))
    } else if same_name_exec(name, "shift_jis") {
        Err("Shift JIS encoding is not implemented yet.".to_owned())
    } else if same_name_exec(name, "utf16") {
        let big_endian = byte_order(options)?;
        Ok(Codec::Utf16Encode(Utf16Encode::new(big_endian)))
    } else if same_name_exec(name, "un_utf16") {
        let big_endian = byte_order(options)?;
        Ok(Codec::Utf16Decode(Utf16Decode::new(big_endian)))
    } else if same_name_exec(name, "hex") {
        Ok(Codec::HexEncode(HexEncode::new()))
    } else if same_name_exec(name, "un_hex") {
        Ok(Codec::HexDecode(HexDecode::new()))
    } else if same_name_exec(name, "null") {
        Ok(Codec::Null(Null::new()))
    } else if same_name_exec(name, "ucode") {
        Ok(Codec::UCodeEncode(UCodeEncode::new()))
    } else if same_name_exec(name, "un_ucode") {
        Ok(Codec::UCodeDecode(UCodeDecode::new()))
    } else if same_name_exec(name, "utf7") {
        Ok(Codec::Utf7Encode(Utf7Encode::new()))
    } else if same_name_exec(name, "un_utf7") {
        Ok(Codec::Utf7Decode(Utf7Decode::new()))
    } else if same_name_exec(name, "utf8") {
        Ok(Codec::Utf8Encode(Utf8Encode::new()))
    } else if same_name_exec(name, "un_utf8") {
        Ok(Codec::Utf8Decode(Utf8Decode::new()))
    } else if same_name_exec(name, "windows1252") {
        Ok(Codec::Windows1252Encode(Windows1252Encode::new()))
    } else if same_name_exec(name, "un_windows1252") {
        Ok(Codec::Windows1252Decode(Windows1252Decode::new()))
    } else if same_name_exec(name, "un_shift_jis") {
        Ok(Codec::ShiftJISDecode(ShiftJISDecode::new()))
    } else {
        let mut msg = String::from_str("unknown coding scheme \"");
        msg.append(name);
        msg.append("\"");
        Err(msg)
    }
}

} // verus!
