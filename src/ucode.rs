use vstd::prelude::*;
use crate::encoding::{BufferedInput, CodeError, Item, item_bytes};
use crate::hex::{hex_digit, hex_value};
use crate::utf8::{codepoint_at, four_bytes};
use crate::utils::{be32_bytes, u32_from_bytes, u32_to_bytes};

verus! {

/// The hexadecimal digits of `x`, least significant first, at least `min` of them.
pub open spec fn rev_digits(x: nat, min: nat) -> Seq<u8>
    decreases x + min,
{
    if x == 0 && min == 0 {
        seq![]
    } else {
        seq![hex_digit((x % 16) as u8, true)] + rev_digits(x / 16, if min > 0 { (min - 1) as nat } else { 0 })
    }
}

/// `U+` and at least four upper-case hexadecimal digits of `cp`, then a space.
pub open spec fn ucode_text(cp: u32) -> Seq<u8> {
    seq![85u8, 43u8] + rev_digits(cp as nat, 4).reverse() + seq![32u8]
}

/// Writes codepoints (four bytes each, big-endian) as `U+XXXX` codes,
/// each followed by a space.
pub struct UCodeEncode;

impl UCodeEncode {
    pub fn new() -> UCodeEncode {
        UCodeEncode
    }

    /// Reads one codepoint and writes its code.
    pub fn next(&mut self, input: &mut BufferedInput) -> (r: Option<Result<Vec<u8>, CodeError>>)
        ensures
            r is None <==> old(input)@.len() == 0,
            r is None ==> final(input)@ == old(input)@,
            r is Some ==> final(input)@.len() < old(input)@.len(),
            four_bytes(old(input)@) ==> final(input)@ == old(input)@.skip(4) && (r matches Some(Ok(out)) && out@
                == ucode_text(codepoint_at(old(input)@))),
            !four_bytes(old(input)@) && old(input)@.len() > 0 ==> r matches Some(Err(_)),
    {
        let bytes = match input.get_bytes(4) {
            Some(Ok(b)) => b,
            Some(Err(e)) => {
                return Some(Err(e));
            },
            None => {
                return None;
            },
        };
        proof {
            assert(item_bytes(old(input)@.take(4)) =~= bytes@);
        }
        let codepoint = u32_from_bytes(bytes.as_slice(), true);
        let mut rev: Vec<u8> = Vec::new();
        let mut x: u32 = codepoint;
        let mut min: u32 = 4;
        assert(rev@ + rev_digits(x as nat, min as nat) =~= rev_digits(codepoint as nat, 4));
        while x != 0 || min != 0
            invariant
                min <= 4,
                rev@ + rev_digits(x as nat, min as nat) == rev_digits(codepoint as nat, 4),
            decreases x + min,
        {
            let d = (x % 16) as u8;
            let c = if d < 10 {
                48 + d
            } else {
                65 + d - 10
            };
            rev.push(c);
            x = x / 16;
            if min > 0 {
                min = min - 1;
            }
            assert(rev@ + rev_digits(x as nat, min as nat) =~= rev_digits(codepoint as nat, 4));
        }
        assert(rev@ =~= rev_digits(codepoint as nat, 4));
        let mut out: Vec<u8> = vec![85, 43];
        let n = rev.len();
        let mut k: usize = 0;
        while k < n
            invariant
                n == rev@.len(),
                k <= n,
                out@ == seq![85u8, 43u8] + rev@.reverse().take(k as int),
            decreases n - k,
        {
            out.push(rev[n - 1 - k]);
            k = k + 1;
            assert(out@ =~= seq![85u8, 43u8] + rev@.reverse().take(k as int));
        }
        out.push(32);
        assert(rev@.reverse().take(n as int) =~= rev@.reverse());
        assert(out@ =~= ucode_text(codepoint));
        Some(Ok(out))
    }
}

/// Reads whitespace-separated `U+XXXX` codes (four to six hexadecimal
/// digits) into codepoints (four bytes each, big-endian).
pub struct UCodeDecode;

/// The value of a hexadecimal digit.
fn hex_digit_value(c: u8) -> (r: Option<u8>)
    ensures
        r == hex_value(c),
{
    if c >= 48 && c <= 57 {
        Some(c - 48)
    } else if c >= 97 && c <= 102 {
        Some(c - 97 + 10)
    } else if c >= 65 && c <= 70 {
        Some(c - 65 + 10)
    } else {
        None
    }
}

/// The error for an unexpected byte, the last of `bytes`.
fn unexpected(bytes: Vec<u8>) -> (r: CodeError)
    ensures
        r.bad_bytes == Some(bytes),
{
    CodeError::new("unexpected byte while parsing U+ code").with_bytes(bytes)
}

/// The error for an input that failed or ended inside a code.
fn error(bytes: Vec<u8>, cause: Option<CodeError>) -> (r: CodeError)
    ensures
        r.bad_bytes == Some(bytes),
        cause matches Some(e) ==> r.inner == Some(Box::new(e)),
{
    match cause {
        Some(e) => CodeError::new("Error reading U+ code").with_bytes(bytes).with_inner(e),
        None => CodeError::new("EOF while reading U+ code").with_bytes(bytes),
    }
}

/// The value of a run of hexadecimal digits, most significant first.
pub open spec fn hex_number(s: Seq<u8>) -> nat
    decreases s.len(),
{
    if s.len() == 0 {
        0
    } else {
        hex_number(s.drop_last()) * 16 + hex_value(s.last())->Some_0 as nat
    }
}

/// Items `i` to `j` (exclusive) are hexadecimal digits.
pub open spec fn hex_run(v: Seq<Item>, i: int, j: int) -> bool {
    0 <= i <= j <= v.len() && forall|k: int| i <= k < j ==> (#[trigger] v[k]) is Ok && hex_value(v[k]->Ok_0) is Some
}

/// `U`, `+` and four digits.
pub open spec fn code_lead(v: Seq<Item>) -> bool {
    &&& v.len() >= 6
    &&& v[0] == Ok::<u8, CodeError>(85)
    &&& v[1] == Ok::<u8, CodeError>(43)
    &&& hex_run(v, 2, 6)
}

/// A code of `d` digits, four to six, at the start of `v`: after `U+` and
/// the digits comes the end of the input or, below six digits, a byte that
/// is not a digit.
pub open spec fn code_form(v: Seq<Item>, d: int) -> bool {
    &&& code_lead(v)
    &&& 4 <= d <= 6
    &&& hex_run(v, 2, 2 + d)
    &&& (d == 6 || 2 + d == v.len() || (v[2 + d] is Ok && hex_value(v[2 + d]->Ok_0) is None))
}

/// What is left after a code of `d` digits: a separator after fewer than
/// six digits is dropped.
pub open spec fn after_code(v: Seq<Item>, d: int) -> Seq<Item> {
    if d == 6 || 2 + d == v.len() {
        v.skip(2 + d)
    } else {
        v.skip(3 + d)
    }
}

impl UCodeDecode {
    pub fn new() -> UCodeDecode {
        UCodeDecode
    }

    /// Reads one code, whitespace before it passed over, and writes its
    /// codepoint. The byte after the digits, if not a fifth or sixth digit,
    /// is taken as the separator and dropped.
    pub fn next(&mut self, input: &mut BufferedInput) -> (r: Option<Result<Vec<u8>, CodeError>>)
        ensures
            r is Some ==> final(input)@.len() < old(input)@.len(),
            r is None ==> final(input)@.len() == 0,
            forall|d: int| #[trigger] code_form(old(input)@, d) ==> {
                &&& r matches Some(Ok(out)) && out@ == be32_bytes(hex_number(item_bytes(old(input)@.subrange(2, 2 + d))) as u32)
                &&& final(input)@ == after_code(old(input)@, d)
            },
    {
        let ghost v = input@;
        let ghost plain = code_lead(v);
        let ghost d: int = if code_form(v, 4) { 4 } else if code_form(v, 5) { 5 } else if code_form(v, 6) { 6 } else { -1 };
        proof {
            assert forall|d2: int| #[trigger] code_form(v, d2) implies d2 == d by {
                if d2 == 5 && code_form(v, 4) {
                    assert(v[6] is Ok && hex_value(v[6]->Ok_0) is Some);
                }
                if d2 == 6 && code_form(v, 4) {
                    assert(v[6] is Ok && hex_value(v[6]->Ok_0) is Some);
                }
                if d2 == 6 && code_form(v, 5) {
                    assert(v[7] is Ok && hex_value(v[7]->Ok_0) is Some);
                }
            }
        }
        let mut codepoint: u32 = 0;
        let mut bytes: Vec<u8> = Vec::new();
        let mut byte = match input.get_byte() {
            Some(Ok(b)) => b,
            Some(Err(e)) => {
                return Some(Err(e));
            },
            None => {
                return None;
            },
        };
        bytes.push(byte);
        while byte == 32 || byte == 9 || byte == 13 || byte == 10
            invariant
                v == old(input)@,
                input@.len() < v.len(),
                plain == code_lead(v),
                plain ==> input@ == v.drop_first() && byte == 85,
            decreases input@.len(),
        {
            byte = match input.get_byte() {
                Some(Ok(b)) => b,
                Some(Err(e)) => {
                    return Some(Err(e));
                },
                None => {
                    return None;
                },
            };
            bytes.push(byte);
        }
        if byte != 85 {
            return Some(Err(unexpected(bytes)));
        }
        match input.get_byte() {
            Some(Ok(b)) => {
                if b != 43 {
                    bytes.push(b);
                    return Some(Err(unexpected(bytes)));
                }
            },
            Some(Err(e)) => {
                return Some(Err(error(bytes, Some(e))));
            },
            None => {
                return Some(Err(error(bytes, None)));
            },
        }
        proof {
            if plain {
                assert(v.drop_first().drop_first() =~= v.skip(2));
            }
        }
        let ghost at_digits = input@;
        let read = match input.get_bytes(4) {
            Some(Ok(read)) => read,
            Some(Err(e)) => {
                return Some(Err(error(bytes, Some(e))));
            },
            None => {
                return Some(Err(error(bytes, None)));
            },
        };
        proof {
            if plain {
                assert forall|j: int| 0 <= j < 4 implies read@[j] == v[j + 2]->Ok_0 && hex_value(#[trigger] read@[j]) is Some by {
                    assert(at_digits[j] == v[j + 2]);
                }
                assert(item_bytes(v.subrange(2, 6)) =~= read@);
                assert(input@ =~= v.skip(6));
            }
        }
        let ghost digits = input@;
        let mut k: usize = 0;
        while k < 4
            invariant
                k <= 4,
                read@.len() == 4,
                input@ == digits,
            decreases 4 - k,
        {
            bytes.push(read[k]);
            k = k + 1;
        }
        let mut i: usize = 0;
        while i < 4
            invariant
                read@.len() == 4,
                i <= 4,
                v == old(input)@,
                input@.len() < v.len(),
                codepoint as nat == hex_number(read@.take(i as int)),
                input@ == digits,
                plain == code_lead(v),
                plain ==> input@ == v.skip(6) && item_bytes(v.subrange(2, 6)) == read@,
                plain ==> forall|j: int| 0 <= j < 4 ==> hex_value(#[trigger] read@[j]) is Some,
                codepoint < (if i == 0 { 1int } else if i == 1 { 16 } else if i == 2 { 256 } else if i == 3 { 4096 } else { 65536 }),
            decreases 4 - i,
        {
            let value = match hex_digit_value(read[i]) {
                Some(d) => d,
                None => {
                    return Some(Err(error(bytes, None)));
                },
            };
            proof {
                assert(read@.take(i + 1).drop_last() =~= read@.take(i as int));
            }
            codepoint = codepoint * 16 + value as u32;
            i = i + 1;
        }
        assert(read@.take(4) =~= read@);
        let ghost after = input@;
        let mut extra: usize = 0;
        let mut more = true;
        while more && extra < 2
            invariant
                extra <= 2,
                codepoint < (if extra == 0 { 0x10000int } else if extra == 1 { 0x100000 } else { 0x1000000 }),
                v == old(input)@,
                input@.len() < v.len(),
                plain == code_lead(v),
                forall|d2: int| #[trigger] code_form(v, d2) ==> d2 == d,
                d >= 0 ==> code_form(v, d) && plain,
                plain ==> after == v.skip(6),
                d >= 0 ==> codepoint as nat == hex_number(item_bytes(v.subrange(2, 6 + extra as int))),
                d >= 0 && more ==> input@ == v.skip(6 + extra as int) && 6 + extra <= 2 + d,
                d >= 0 && !more ==> 6 + extra == 2 + d && input@ == after_code(v, d) && d < 6,
            decreases 2 - extra + (if more { 1int } else { 0int }),
        {
            let ghost before = input@;
            let ghost x = 6 + extra as int;
            match input.get_byte() {
                Some(Ok(b)) => {
                    proof {
                        if d >= 0 {
                            assert(before[0] == v[x]);
                            assert(before.drop_first() =~= v.skip(x + 1));
                        }
                    }
                    bytes.push(b);
                    match hex_digit_value(b) {
                        Some(value) => {
                            proof {
                                if d >= 0 {
                                    assert(x < 2 + d);
                                    assert(item_bytes(v.subrange(2, x + 1)).drop_last() =~= item_bytes(v.subrange(2, x)));
                                }
                            }
                            codepoint = codepoint * 16 + value as u32;
                            extra = extra + 1;
                        },
                        None => {
                            proof {
                                if d >= 0 {
                                    assert(x == 2 + d);
                                }
                            }
                            more = false;
                        },
                    }
                },
                Some(Err(e)) => {
                    proof {
                        if d >= 0 {
                            assert(before[0] == v[x]);
                            assert(x < 2 + d);
                        }
                    }
                    return Some(Err(error(bytes, Some(e))));
                },
                None => {
                    proof {
                        if d >= 0 {
                            assert(x == 2 + d);
                        }
                    }
                    more = false;
                },
            }
        }
        Some(Ok(u32_to_bytes(codepoint, true)))
    }
}

} // verus!
