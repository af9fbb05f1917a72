use vstd::prelude::*;
use vstd::string::StrSliceExecFns;
use crate::encoding::{BufferedInput, CodeError, item_bytes};
use crate::utf8::{codepoint_at, four_bytes};
use crate::utils::{be32_bytes, replacement_codepoint_bytes, u32_from_bytes, u32_to_bytes, unicode_replacement};

verus! {

/// The codepoints of the bytes 0xA1 to 0xFF in the parts that have a
/// table; 0 where a byte has none.
pub open spec fn iso_table(part: u8) -> Seq<u32> {
    if part == 1 {
        Seq::new(95, |i: int| 0u32)
    } else if part == 2 {
        seq![
            0x0104u32, 0x02d8, 0x0141, 0x00a4, 0x013d, 0x015a, 0x00a7, 0x00a8,
            0x0160, 0x015e, 0x0164, 0x0179, 0x00ad, 0x017d, 0x017b, 0x00b0,
            0x0105, 0x02db, 0x0142, 0x00b4, 0x0138, 0x015b, 0x02c7, 0x00b8,
            0x0161, 0x015f, 0x0165, 0x017a, 0x02dd, 0x017e, 0x017c, 0x0154,
            0x00c1, 0x00c2, 0x0102, 0x00c4, 0x0139, 0x0106, 0x00c7, 0x010c,
            0x00c9, 0x0118, 0x00cb, 0x011a, 0x00cd, 0x00ce, 0x010e, 0x0110,
            0x0143, 0x0147, 0x00D3, 0x00D4, 0x0150, 0x00D6, 0x00D7, 0x0158,
            0x016E, 0x00DA, 0x0170, 0x00DC, 0x00DD, 0x0162, 0x00DF, 0x0155,
            0x00E1, 0x00E2, 0x0103, 0x00E4, 0x013A, 0x0107, 0x00E7, 0x010D,
            0x00E9, 0x0119, 0x00EB, 0x011B, 0x00ED, 0x00EE, 0x010F, 0x0111,
            0x0144, 0x0148, 0x00F3, 0x00F4, 0x0151, 0x00F6, 0x00F7, 0x0159,
            0x016F, 0x00FA, 0x0171, 0x00FC, 0x00FD, 0x0163, 0x02D9,
        ]
    } else if part == 3 {
        seq![
            0x0126u32, 0x02D8, 0x00A3, 0x00A4, 0, 0x0124, 0x00A7, 0x00A8,
            0x0130, 0x015E, 0x011E, 0x0134, 0x00AD, 0, 0x017B, 0x00B0,
            0x0127, 0x00B2, 0x00B3, 0x00B4, 0x00B5, 0x0125, 0x00B7, 0x00B8,
            0x0131, 0x015F, 0x011F, 0x0135, 0x00BD, 0, 0x017C, 0x00C0,
            0x00C1, 0x00C2, 0, 0x00C4, 0x010A, 0x0108, 0x00C7, 0x00C8,
            0x00C9, 0x00CA, 0x00CB, 0x00CC, 0x00CD, 0x00CE, 0x00CF, 0,
            0x00D1, 0x00D2, 0x00D3, 0x00D4, 0x0120, 0x00D6, 0x00D7, 0x011C,
            0x00D9, 0x00DA, 0x00DB, 0x00DC, 0x016C, 0x015C, 0x00DF, 0x00E0,
            0x00E1, 0x00E2, 0, 0x00E4, 0x010B, 0x0109, 0x00E7, 0x00E8,
            0x00E9, 0x00EA, 0x00EB, 0x00EC, 0x00ED, 0x00EE, 0x00EF, 0,
            0x00F1, 0x00F2, 0x00F3, 0x00F4, 0x0121, 0x00F6, 0x00F7, 0x011D,
            0x00F9, 0x00FA, 0x00FB, 0x00FC, 0x016D, 0x015D, 0x02D9,
        ]
    } else if part == 4 {
        seq![
            0x0104u32, 0x0138, 0x0156, 0x00A4, 0x0128, 0x013B, 0x00A7, 0x00A8,
            0x0160, 0x0112, 0x0122, 0x0166, 0x00AD, 0x017D, 0x00AF, 0x00B0,
            0x0105, 0x02DB, 0x0157, 0x00B4, 0x0129, 0x013C, 0x02C7, 0x00B8,
            0x0161, 0x0113, 0x0123, 0x0167, 0x014A, 0x017E, 0x014B, 0x0100,
            0x00C1, 0x00C2, 0x00C3, 0x00C4, 0x00C5, 0x00C6, 0x012E, 0x010C,
            0x00C9, 0x0118, 0x00CB, 0x0116, 0x00CD, 0x00CE, 0x012A, 0x0110,
            0x0145, 0x014C, 0x0136, 0x00D4, 0x00D5, 0x00D6, 0x00D7, 0x00D8,
            0x0172, 0x00DA, 0x00DB, 0x00DC, 0x0168, 0x016A, 0x00DF, 0x0101,
            0x00E1, 0x00E2, 0x00E3, 0x00E4, 0x00E5, 0x00E6, 0x012F, 0x010D,
            0x00E9, 0x0119, 0x00EB, 0x0117, 0x00ED, 0x00EE, 0x012B, 0x0111,
            0x0146, 0x014D, 0x0137, 0x00F4, 0x00F5, 0x00F6, 0x00F7, 0x00F8,
            0x0173, 0x00FA, 0x00FB, 0x00FC, 0x0169, 0x016B, 0x02D9,
        ]
    } else if part == 5 {
        seq![
            0x0401u32, 0x0402, 0x0403, 0x0404, 0x0405, 0x0406, 0x0407, 0x0408,
            0x0409, 0x040A, 0x040B, 0x040C, 0x00AD, 0x040E, 0x040F, 0x0410,
            0x0411, 0x0412, 0x0413, 0x0414, 0x0415, 0x0416, 0x0417, 0x0418,
            0x0419, 0x041A, 0x041B, 0x041C, 0x041D, 0x041E, 0x041F, 0x0420,
            0x0421, 0x0422, 0x0423, 0x0424, 0x0425, 0x0426, 0x0427, 0x0428,
            0x0429, 0x042A, 0x042B, 0x042C, 0x042D, 0x042E, 0x042F, 0x0430,
            0x0431, 0x0432, 0x0433, 0x0434, 0x0435, 0x0436, 0x0437, 0x0438,
            0x0439, 0x043A, 0x043B, 0x043C, 0x043D, 0x043E, 0x043F, 0x0440,
            0x0441, 0x0442, 0x0443, 0x0444, 0x0445, 0x0446, 0x0447, 0x0448,
            0x0449, 0x044A, 0x044B, 0x044C, 0x044D, 0x044E, 0x044F, 0x2116,
            0x0451, 0x0452, 0x0453, 0x0454, 0x0455, 0x0456, 0x0457, 0x0458,
            0x0459, 0x045A, 0x045B, 0x045C, 0x00A7, 0x045E, 0x045F,
        ]
    } else if part == 6 {
        seq![
            0u32, 0, 0, 0x00A4, 0, 0, 0, 0,
            0, 0, 0, 0x060C, 0x00AD, 0, 0, 0,
            0, 0, 0, 0, 0, 0, 0, 0,
            0, 0, 0x061B, 0, 0, 0, 0x061F, 0,
            0x0621, 0x0622, 0x0623, 0x0624, 0x0625, 0x0626, 0x0627, 0x0628,
            0x0629, 0x062A, 0x062B, 0x062C, 0x062D, 0x062E, 0x062F, 0x0630,
            0x0631, 0x0632, 0x0633, 0x0634, 0x0635, 0x0636, 0x0637, 0x0638,
            0x0639, 0x063A, 0, 0, 0, 0, 0, 0x0640,
            0x0641, 0x0642, 0x0643, 0x0644, 0x0645, 0x0646, 0x0647, 0x0648,
            0x0649, 0x064A, 0x064B, 0x064C, 0x064D, 0x064E, 0x064F, 0x0650,
            0x0651, 0x0652, 0, 0, 0, 0, 0, 0,
            0, 0, 0, 0, 0, 0, 0,
        ]
    } else {
        Seq::new(95, |i: int| 0u32)
    }
}

fn table(part: u8) -> (r: [u32; 95])
    requires
        2 <= part <= 6,
    ensures
        r@ == iso_table(part),
{
    let t: [u32; 95] = match part {
        2 => [
            0x0104, 0x02d8, 0x0141, 0x00a4, 0x013d, 0x015a, 0x00a7, 0x00a8,
            0x0160, 0x015e, 0x0164, 0x0179, 0x00ad, 0x017d, 0x017b, 0x00b0,
            0x0105, 0x02db, 0x0142, 0x00b4, 0x0138, 0x015b, 0x02c7, 0x00b8,
            0x0161, 0x015f, 0x0165, 0x017a, 0x02dd, 0x017e, 0x017c, 0x0154,
            0x00c1, 0x00c2, 0x0102, 0x00c4, 0x0139, 0x0106, 0x00c7, 0x010c,
            0x00c9, 0x0118, 0x00cb, 0x011a, 0x00cd, 0x00ce, 0x010e, 0x0110,
            0x0143, 0x0147, 0x00D3, 0x00D4, 0x0150, 0x00D6, 0x00D7, 0x0158,
            0x016E, 0x00DA, 0x0170, 0x00DC, 0x00DD, 0x0162, 0x00DF, 0x0155,
            0x00E1, 0x00E2, 0x0103, 0x00E4, 0x013A, 0x0107, 0x00E7, 0x010D,
            0x00E9, 0x0119, 0x00EB, 0x011B, 0x00ED, 0x00EE, 0x010F, 0x0111,
            0x0144, 0x0148, 0x00F3, 0x00F4, 0x0151, 0x00F6, 0x00F7, 0x0159,
            0x016F, 0x00FA, 0x0171, 0x00FC, 0x00FD, 0x0163, 0x02D9,
        ],
        3 => [
            0x0126, 0x02D8, 0x00A3, 0x00A4, 0, 0x0124, 0x00A7, 0x00A8,
            0x0130, 0x015E, 0x011E, 0x0134, 0x00AD, 0, 0x017B, 0x00B0,
            0x0127, 0x00B2, 0x00B3, 0x00B4, 0x00B5, 0x0125, 0x00B7, 0x00B8,
            0x0131, 0x015F, 0x011F, 0x0135, 0x00BD, 0, 0x017C, 0x00C0,
            0x00C1, 0x00C2, 0, 0x00C4, 0x010A, 0x0108, 0x00C7, 0x00C8,
            0x00C9, 0x00CA, 0x00CB, 0x00CC, 0x00CD, 0x00CE, 0x00CF, 0,
            0x00D1, 0x00D2, 0x00D3, 0x00D4, 0x0120, 0x00D6, 0x00D7, 0x011C,
            0x00D9, 0x00DA, 0x00DB, 0x00DC, 0x016C, 0x015C, 0x00DF, 0x00E0,
            0x00E1, 0x00E2, 0, 0x00E4, 0x010B, 0x0109, 0x00E7, 0x00E8,
            0x00E9, 0x00EA, 0x00EB, 0x00EC, 0x00ED, 0x00EE, 0x00EF, 0,
            0x00F1, 0x00F2, 0x00F3, 0x00F4, 0x0121, 0x00F6, 0x00F7, 0x011D,
            0x00F9, 0x00FA, 0x00FB, 0x00FC, 0x016D, 0x015D, 0x02D9,
        ],
        4 => [
            0x0104, 0x0138, 0x0156, 0x00A4, 0x0128, 0x013B, 0x00A7, 0x00A8,
            0x0160, 0x0112, 0x0122, 0x0166, 0x00AD, 0x017D, 0x00AF, 0x00B0,
            0x0105, 0x02DB, 0x0157, 0x00B4, 0x0129, 0x013C, 0x02C7, 0x00B8,
            0x0161, 0x0113, 0x0123, 0x0167, 0x014A, 0x017E, 0x014B, 0x0100,
            0x00C1, 0x00C2, 0x00C3, 0x00C4, 0x00C5, 0x00C6, 0x012E, 0x010C,
            0x00C9, 0x0118, 0x00CB, 0x0116, 0x00CD, 0x00CE, 0x012A, 0x0110,
            0x0145, 0x014C, 0x0136, 0x00D4, 0x00D5, 0x00D6, 0x00D7, 0x00D8,
            0x0172, 0x00DA, 0x00DB, 0x00DC, 0x0168, 0x016A, 0x00DF, 0x0101,
            0x00E1, 0x00E2, 0x00E3, 0x00E4, 0x00E5, 0x00E6, 0x012F, 0x010D,
            0x00E9, 0x0119, 0x00EB, 0x0117, 0x00ED, 0x00EE, 0x012B, 0x0111,
            0x0146, 0x014D, 0x0137, 0x00F4, 0x00F5, 0x00F6, 0x00F7, 0x00F8,
            0x0173, 0x00FA, 0x00FB, 0x00FC, 0x0169, 0x016B, 0x02D9,
        ],
        5 => [
            0x0401, 0x0402, 0x0403, 0x0404, 0x0405, 0x0406, 0x0407, 0x0408,
            0x0409, 0x040A, 0x040B, 0x040C, 0x00AD, 0x040E, 0x040F, 0x0410,
            0x0411, 0x0412, 0x0413, 0x0414, 0x0415, 0x0416, 0x0417, 0x0418,
            0x0419, 0x041A, 0x041B, 0x041C, 0x041D, 0x041E, 0x041F, 0x0420,
            0x0421, 0x0422, 0x0423, 0x0424, 0x0425, 0x0426, 0x0427, 0x0428,
            0x0429, 0x042A, 0x042B, 0x042C, 0x042D, 0x042E, 0x042F, 0x0430,
            0x0431, 0x0432, 0x0433, 0x0434, 0x0435, 0x0436, 0x0437, 0x0438,
            0x0439, 0x043A, 0x043B, 0x043C, 0x043D, 0x043E, 0x043F, 0x0440,
            0x0441, 0x0442, 0x0443, 0x0444, 0x0445, 0x0446, 0x0447, 0x0448,
            0x0449, 0x044A, 0x044B, 0x044C, 0x044D, 0x044E, 0x044F, 0x2116,
            0x0451, 0x0452, 0x0453, 0x0454, 0x0455, 0x0456, 0x0457, 0x0458,
            0x0459, 0x045A, 0x045B, 0x045C, 0x00A7, 0x045E, 0x045F,
        ],
        6 => [
            0, 0, 0, 0x00A4, 0, 0, 0, 0,
            0, 0, 0, 0x060C, 0x00AD, 0, 0, 0,
            0, 0, 0, 0, 0, 0, 0, 0,
            0, 0, 0x061B, 0, 0, 0, 0x061F, 0,
            0x0621, 0x0622, 0x0623, 0x0624, 0x0625, 0x0626, 0x0627, 0x0628,
            0x0629, 0x062A, 0x062B, 0x062C, 0x062D, 0x062E, 0x062F, 0x0630,
            0x0631, 0x0632, 0x0633, 0x0634, 0x0635, 0x0636, 0x0637, 0x0638,
            0x0639, 0x063A, 0, 0, 0, 0, 0, 0x0640,
            0x0641, 0x0642, 0x0643, 0x0644, 0x0645, 0x0646, 0x0647, 0x0648,
            0x0649, 0x064A, 0x064B, 0x064C, 0x064D, 0x064E, 0x064F, 0x0650,
            0x0651, 0x0652, 0, 0, 0, 0, 0, 0,
            0, 0, 0, 0, 0, 0, 0,
        ],
        _ => [0; 95],
    };
    assert(t@ =~= iso_table(part));
    t
}

/// The bytes of part 15 that differ from part 1, with their codepoints.
pub open spec fn latin9_pairs() -> Seq<(u8, u32)> {
    seq![(0xA4u8, 0x20ACu32), (0xA6u8, 0x0160u32), (0xA8u8, 0x0161u32), (0xB4u8, 0x017Du32), (0xB8u8, 0x017Eu32), (0xBCu8, 0x0152u32), (0xBDu8, 0x0153u32), (0xBEu8, 0x0178u32)]
}

fn pairs() -> (r: [(u8, u32); 8])
    ensures
        r@ == latin9_pairs(),
{
    let p: [(u8, u32); 8] = [(0xA4, 0x20AC), (0xA6, 0x0160), (0xA8, 0x0161), (0xB4, 0x017D), (0xB8, 0x017E), (0xBC, 0x0152), (0xBD, 0x0153), (0xBE, 0x0178)];
    assert(p@ =~= latin9_pairs());
    p
}

/// The parts implemented: 1 to 6 and 15.
pub open spec fn supported_part(part: u8) -> bool {
    (1 <= part <= 6) || part == 15
}

/// The first index from `i` on where `s` holds `cp`.
pub open spec fn index_from(s: Seq<u32>, cp: u32, i: int) -> Option<int>
    decreases s.len() - i,
{
    if i < 0 || i >= s.len() {
        None
    } else if s[i] == cp {
        Some(i)
    } else {
        index_from(s, cp, i + 1)
    }
}

/// The first pair of part 15 from `i` on whose codepoint is `cp`.
pub open spec fn pair_by_codepoint(cp: u32, i: int) -> Option<int>
    decreases 8 - i,
{
    if i < 0 || i >= 8 {
        None
    } else if latin9_pairs()[i].1 == cp {
        Some(i)
    } else {
        pair_by_codepoint(cp, i + 1)
    }
}

/// The first pair of part 15 from `i` on whose byte is `b`.
pub open spec fn pair_by_byte(b: u8, i: int) -> Option<int>
    decreases 8 - i,
{
    if i < 0 || i >= 8 {
        None
    } else if latin9_pairs()[i].0 == b {
        Some(i)
    } else {
        pair_by_byte(b, i + 1)
    }
}

/// The byte of a codepoint in a part; `?` where it has none. Up to 0xA1 a
/// codepoint is its own byte.
pub open spec fn iso_byte(part: u8, cp: u32) -> u8 {
    if cp <= 0xA1 {
        cp as u8
    } else if part == 1 {
        if cp < 0x100 { cp as u8 } else { 63 }
    } else if part == 15 {
        match pair_by_codepoint(cp, 0) {
            Some(i) => latin9_pairs()[i].0,
            None => if cp < 0x100 { cp as u8 } else { 63 },
        }
    } else {
        match index_from(iso_table(part), cp, 0) {
            Some(i) => (0xA1 + i) as u8,
            None => 63,
        }
    }
}

/// The codepoint of a byte in a part; none where it has none.
pub open spec fn iso_codepoint(part: u8, b: u8) -> Option<u32> {
    if b < 0xA1 || part == 1 {
        Some(b as u32)
    } else if part == 15 {
        match pair_by_byte(b, 0) {
            Some(i) => Some(latin9_pairs()[i].1),
            None => Some(b as u32),
        }
    } else if iso_table(part)[b - 0xA1] == 0 {
        None
    } else {
        Some(iso_table(part)[b - 0xA1])
    }
}

/// The part that an option names: `1` to `6` or `15`.
pub open spec fn iso_part(o: Seq<char>) -> Option<u8> {
    if o == "1"@ {
        Some(1u8)
    } else if o == "2"@ {
        Some(2u8)
    } else if o == "3"@ {
        Some(3u8)
    } else if o == "4"@ {
        Some(4u8)
    } else if o == "5"@ {
        Some(5u8)
    } else if o == "6"@ {
        Some(6u8)
    } else if o == "15"@ {
        Some(15u8)
    } else {
        None
    }
}

/// Reads which part of ISO 8859 is meant: 1 to 6 or 15. Any other option
/// is an error, the parts 7 to 11, 13, 14 and 16 as not implemented.
fn part_number(s: &str) -> (r: Result<u8, String>)
    ensures
        r matches Ok(p) ==> iso_part(s@) == Some(p),
        iso_part(s@) matches Some(p) ==> r == Ok::<u8, String>(p),
{
    if str_is(s, "1") {
        Ok(1)
    } else if str_is(s, "2") {
        Ok(2)
    } else if str_is(s, "3") {
        Ok(3)
    } else if str_is(s, "4") {
        Ok(4)
    } else if str_is(s, "5") {
        Ok(5)
    } else if str_is(s, "6") {
        Ok(6)
    } else if str_is(s, "15") {
        Ok(15)
    } else if str_is(s, "") {
        Err("no ISO 8859-N part specified".to_owned())
    } else if str_is(s, "7") || str_is(s, "8") || str_is(s, "9") || str_is(s, "10") || str_is(s, "11") || str_is(
        s,
        "13",
    ) || str_is(s, "14") || str_is(s, "16") {
        Err("ISO 8859 part not yet implemented".to_owned())
    } else {
        Err("invalid option".to_owned())
    }
}

/// Whether `s` is exactly `word`.
pub fn str_is(s: &str, word: &str) -> (r: bool)
    ensures
        r == (s@ == word@),
{
    let n = s.unicode_len();
    if n != word.unicode_len() {
        return false;
    }
    let mut i: usize = 0;
    while i < n
        invariant
            n == s@.len() == word@.len(),
            i <= n,
            forall|j: int| 0 <= j < i ==> s@[j] == word@[j],
        decreases n - i,
    {
        if s.get_char(i) != word.get_char(i) {
            return false;
        }
        i = i + 1;
    }
    assert(s@ =~= word@);
    true
}

/// Encodes codepoints (four bytes each, big-endian) as a part of ISO 8859;
/// one that has no byte becomes `?`.
pub struct Iso8859Encode {
    pub part: u8,
}

impl Iso8859Encode {
    /// Sets up the part named by `options`.
    pub fn new(options: &str) -> (r: Result<Iso8859Encode, String>)
        ensures
            r matches Ok(c) ==> c.wf() && iso_part(options@) == Some(c.part),
            iso_part(options@) matches Some(p) ==> r matches Ok(c) && c.part == p,
    {
        let part = part_number(options)?;
        Ok(Iso8859Encode { part })
    }

    pub open spec fn wf(&self) -> bool {
        supported_part(self.part)
    }

    /// Writes `?` for a codepoint that the part has no byte for.
    fn unmapped(&self, codepoint: u32) -> (r: Option<Result<Vec<u8>, CodeError>>)
        ensures
            r matches Some(Ok(out)) && out@ == seq![63u8],
    {
        Some(Ok(vec![63]))
    }

    /// Reads one codepoint and writes its byte.
    pub fn next(&mut self, input: &mut BufferedInput) -> (r: Option<Result<Vec<u8>, CodeError>>)
        requires
            old(self).wf(),
        ensures
            *final(self) == *old(self),
            r is None <==> old(input)@.len() == 0,
            r is None ==> final(input)@ == old(input)@,
            r is Some ==> final(input)@.len() < old(input)@.len(),
            four_bytes(old(input)@) ==> final(input)@ == old(input)@.skip(4) && (r matches Some(Ok(out)) && out@
                == seq![iso_byte(old(self).part, codepoint_at(old(input)@))]),
            !four_bytes(old(input)@) && old(input)@.len() > 0 ==> r matches Some(Err(_)),
    {
        let bytes = match input.get_bytes(4) {
            Some(Ok(b)) => b,
            Some(Err(e)) => {
                return Some(Err(e));
            },
            None => {
                return None;
            },
        };
        proof {
            assert(item_bytes(old(input)@.take(4)) =~= bytes@);
        }
        let codepoint = u32_from_bytes(bytes.as_slice(), true);
        if codepoint <= 0xA1 {
            return Some(Ok(vec![codepoint as u8]));
        }
        if self.part == 1 {
            if codepoint < 0x100 {
                return Some(Ok(vec![codepoint as u8]));
            }
            return self.unmapped(codepoint);
        }
        if self.part == 15 {
            let p = pairs();
            let mut i: usize = 0;
            while i < 8
                invariant
                    i <= 8,
                    p@ == latin9_pairs(),
                    pair_by_codepoint(codepoint, 0) == pair_by_codepoint(codepoint, i as int),
                    four_bytes(old(input)@),
                    input@ == old(input)@.skip(4),
                    codepoint == codepoint_at(old(input)@),
                    codepoint > 0xA1,
                    *self == *old(self),
                    self.part == 15,
                decreases 8 - i,
            {
                if p[i].1 == codepoint {
                    return Some(Ok(vec![p[i].0]));
                }
                i = i + 1;
            }
            if codepoint < 0x100 {
                return Some(Ok(vec![codepoint as u8]));
            }
            return self.unmapped(codepoint);
        }
        let t = table(self.part);
        let mut i: usize = 0;
        while i < 95
            invariant
                i <= 95,
                t@ == iso_table(self.part),
                index_from(iso_table(self.part), codepoint, 0) == index_from(iso_table(self.part), codepoint, i as int),
                four_bytes(old(input)@),
                input@ == old(input)@.skip(4),
                codepoint == codepoint_at(old(input)@),
                codepoint > 0xA1,
                *self == *old(self),
                self.part != 1 && self.part != 15,
            decreases 95 - i,
        {
            if t[i] == codepoint {
                return Some(Ok(vec![(0xA1 + i) as u8]));
            }
            i = i + 1;
        }
        self.unmapped(codepoint)
    }

    pub fn replacement(&self) -> (r: Vec<u8>)
        ensures
            r@ == seq![63u8],
    {
        vec![63]
    }
}

/// Decodes a part of ISO 8859 into codepoints (four bytes each, big-endian).
pub struct Iso8859Decode {
    pub part: u8,
}

impl Iso8859Decode {
    /// Sets up the part named by `options`.
    pub fn new(options: &str) -> (r: Result<Iso8859Decode, String>)
        ensures
            r matches Ok(c) ==> c.wf() && iso_part(options@) == Some(c.part),
            iso_part(options@) matches Some(p) ==> r matches Ok(c) && c.part == p,
    {
        let part = part_number(options)?;
        Ok(Iso8859Decode { part })
    }

    pub open spec fn wf(&self) -> bool {
        supported_part(self.part)
    }

    /// Reads one byte and writes its codepoint; a byte that the part leaves
    /// undefined is an error.
    pub fn next(&mut self, input: &mut BufferedInput) -> (r: Option<Result<Vec<u8>, CodeError>>)
        requires
            old(self).wf(),
        ensures
            *final(self) == *old(self),
            r is None <==> old(input)@.len() == 0,
            r is None ==> final(input)@ == old(input)@,
            old(input)@.len() > 0 ==> final(input)@ == old(input)@.drop_first() && match old(input)@[0] {
                Ok(b) => match iso_codepoint(old(self).part, b) {
                    Some(cp) => r matches Some(Ok(out)) && out@ == be32_bytes(cp),
                    None => r matches Some(Err(_)),
                },
                Err(e) => r == Some(Err::<Vec<u8>, CodeError>(e)),
            },
    {
        let byte = match input.get_byte() {
            Some(Ok(b)) => b,
            Some(Err(e)) => {
                return Some(Err(e));
            },
            None => {
                return None;
            },
        };
        if byte < 0xA1 || self.part == 1 {
            return Some(Ok(u32_to_bytes(byte as u32, true)));
        }
        if self.part == 15 {
            let p = pairs();
            let mut i: usize = 0;
            while i < 8
                invariant
                    i <= 8,
                    p@ == latin9_pairs(),
                    pair_by_byte(byte, 0) == pair_by_byte(byte, i as int),
                    old(input)@.len() > 0,
                    old(input)@[0] == Ok::<u8, CodeError>(byte),
                    input@ == old(input)@.drop_first(),
                    *self == *old(self),
                    self.part == 15,
                    byte >= 0xA1,
                decreases 8 - i,
            {
                if p[i].0 == byte {
                    return Some(Ok(u32_to_bytes(p[i].1, true)));
                }
                i = i + 1;
            }
            return Some(Ok(u32_to_bytes(byte as u32, true)));
        }
        let t = table(self.part);
        let codepoint = t[(byte - 0xA1) as usize];
        if codepoint == 0 {
            return Some(Err(CodeError::new("undefined ISO 8859 code unit").with_bytes(vec![byte])));
        }
        Some(Ok(u32_to_bytes(codepoint, true)))
    }

    pub fn replacement(&self) -> (r: Vec<u8>)
        ensures
            r@ == replacement_codepoint_bytes(),
    {
        unicode_replacement()
    }
}

} // verus!
