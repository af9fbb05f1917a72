use vstd::prelude::*;
use crate::encoding::{BufferedInput, CodeError, Item, byte_items, item_bytes};
use crate::utils::{
    be32_bytes, be32_value, lemma_be32_round_trip, replacement_codepoint_bytes, u32_from_bytes, u32_to_bytes,
    unicode_replacement,
};

verus! {

/// The length of the sequence that a lead byte opens; 0 for the two bytes
/// that open none. Any byte below 0xE0 and not ASCII opens two bytes.
pub open spec fn utf8_len(b: u8) -> nat {
    if b < 0x80 {
        1
    } else if b < 0xE0 {
        2
    } else if b < 0xF0 {
        3
    } else if b < 0xF8 {
        4
    } else if b < 0xFC {
        5
    } else if b < 0xFE {
        6
    } else {
        0
    }
}

/// The value bits that a lead byte carries.
pub open spec fn lead_payload(b: u8) -> nat {
    if b < 0x80 {
        b as nat
    } else if b < 0xE0 {
        (b % 32) as nat
    } else if b < 0xF0 {
        (b % 16) as nat
    } else if b < 0xF8 {
        (b % 8) as nat
    } else if b < 0xFC {
        (b % 4) as nat
    } else {
        (b % 2) as nat
    }
}

/// A continuation byte: `10xxxxxx`.
pub open spec fn is_continuation(b: u8) -> bool {
    0x80 <= b < 0xC0
}

/// The value of a lead byte followed by continuation bytes: each adds its
/// low six bits below those already read.
pub open spec fn utf8_value(s: Seq<u8>) -> nat
    decreases s.len(),
{
    if s.len() <= 1 {
        lead_payload(s[0])
    } else {
        utf8_value(s.drop_last()) * 64 + (s.last() % 64) as nat
    }
}

/// The encoding of a codepoint in the fewest bytes that hold it; none at or
/// above 2^31.
pub open spec fn utf8_encode_spec(cp: u32) -> Option<Seq<u8>> {
    if cp < 0x80 {
        Some(seq![cp as u8])
    } else if cp < 0x800 {
        Some(seq![(0xC0 + cp / 0x40) as u8, (0x80 + cp % 0x40) as u8])
    } else if cp < 0x10000 {
        Some(seq![(0xE0 + cp / 0x1000) as u8, (0x80 + cp / 0x40 % 0x40) as u8, (0x80 + cp % 0x40) as u8])
    } else if cp < 0x200000 {
        Some(seq![
            (0xF0 + cp / 0x40000) as u8,
            (0x80 + cp / 0x1000 % 0x40) as u8,
            (0x80 + cp / 0x40 % 0x40) as u8,
            (0x80 + cp % 0x40) as u8,
        ])
    } else if cp < 0x4000000 {
        Some(seq![
            (0xF8 + cp / 0x1000000) as u8,
            (0x80 + cp / 0x40000 % 0x40) as u8,
            (0x80 + cp / 0x1000 % 0x40) as u8,
            (0x80 + cp / 0x40 % 0x40) as u8,
            (0x80 + cp % 0x40) as u8,
        ])
    } else if cp < 0x80000000 {
        Some(seq![
            (0xFC + cp / 0x40000000) as u8,
            (0x80 + cp / 0x1000000 % 0x40) as u8,
            (0x80 + cp / 0x40000 % 0x40) as u8,
            (0x80 + cp / 0x1000 % 0x40) as u8,
            (0x80 + cp / 0x40 % 0x40) as u8,
            (0x80 + cp % 0x40) as u8,
        ])
    } else {
        None
    }
}

/// Whether the first four items are bytes.
pub open spec fn four_bytes(v: Seq<Item>) -> bool {
    v.len() >= 4 && forall|i: int| 0 <= i < 4 ==> (#[trigger] v[i]) is Ok
}

/// The codepoint that the first four items spell, most significant first.
pub open spec fn codepoint_at(v: Seq<Item>) -> u32 {
    be32_value(item_bytes(v.take(4))) as u32
}

/// Encodes codepoints (four bytes each, big-endian) as UTF-8.
pub struct Utf8Encode;

impl Utf8Encode {
    pub fn new() -> Utf8Encode {
        Utf8Encode
    }

    /// Reads one codepoint and writes its UTF-8 form. A codepoint at or
    /// above 2^31 cannot be written and is an error.
    pub fn next(&mut self, input: &mut BufferedInput) -> (r: Option<Result<Vec<u8>, CodeError>>)
        ensures
            r is None <==> old(input)@.len() == 0,
            r is None ==> final(input)@ == old(input)@,
            r is Some ==> final(input)@.len() < old(input)@.len(),
            four_bytes(old(input)@) ==> final(input)@ == old(input)@.skip(4) && match utf8_encode_spec(
                codepoint_at(old(input)@),
            ) {
                Some(e) => r matches Some(Ok(out)) && out@ == e,
                None => r matches Some(Err(e)) && e.bad_bytes matches Some(bb) && bb@ == item_bytes(old(input)@.take(4)),
            },
            !four_bytes(old(input)@) && old(input)@.len() > 0 ==> r matches Some(Err(_)),
    {
        let bytes = match input.get_bytes(4) {
            Some(Ok(b)) => b,
            Some(Err(e)) => {
                return Some(Err(e));
            },
            None => {
                return None;
            },
        };
        proof {
            assert(item_bytes(old(input)@.take(4)) =~= bytes@);
        }
        let cp = u32_from_bytes(bytes.as_slice(), true);
        let mut out: Vec<u8> = Vec::new();
        if cp < 0x80 {
            out.push(cp as u8);
        } else if cp < 0x800 {
            out.push((0xC0 + cp / 0x40) as u8);
            out.push((0x80 + cp % 0x40) as u8);
        } else if cp < 0x10000 {
            out.push((0xE0 + cp / 0x1000) as u8);
            out.push((0x80 + cp / 0x40 % 0x40) as u8);
            out.push((0x80 + cp % 0x40) as u8);
        } else if cp < 0x200000 {
            out.push((0xF0 + cp / 0x40000) as u8);
            out.push((0x80 + cp / 0x1000 % 0x40) as u8);
            out.push((0x80 + cp / 0x40 % 0x40) as u8);
            out.push((0x80 + cp % 0x40) as u8);
        } else if cp < 0x4000000 {
            out.push((0xF8 + cp / 0x1000000) as u8);
            out.push((0x80 + cp / 0x40000 % 0x40) as u8);
            out.push((0x80 + cp / 0x1000 % 0x40) as u8);
            out.push((0x80 + cp / 0x40 % 0x40) as u8);
            out.push((0x80 + cp % 0x40) as u8);
        } else if cp < 0x80000000 {
            out.push((0xFC + cp / 0x40000000) as u8);
            out.push((0x80 + cp / 0x1000000 % 0x40) as u8);
            out.push((0x80 + cp / 0x40000 % 0x40) as u8);
            out.push((0x80 + cp / 0x1000 % 0x40) as u8);
            out.push((0x80 + cp / 0x40 % 0x40) as u8);
            out.push((0x80 + cp % 0x40) as u8);
        } else {
            return Some(
                Err(CodeError::new("code point out of range: cannot be represented in UTF-8").with_bytes(bytes)),
            );
        }
        assert(out@ =~= utf8_encode_spec(cp)->Some_0);
        Some(Ok(out))
    }

    /// U+FFFD in UTF-8.
    pub fn replacement(&self) -> (r: Vec<u8>)
        ensures
            r@ == seq![0xEFu8, 0xBFu8, 0xBDu8],
    {
        vec![0xEF, 0xBF, 0xBD]
    }
}

/// An item that is a continuation byte.
pub open spec fn is_cont_item(x: Item) -> bool {
    x matches Ok(b) && is_continuation(b)
}

/// What decoding one unit of UTF-8 from `v` does, when `v` is not empty:
/// `r` is what comes out and `w` is what is left to read.
pub open spec fn utf8_decoded(v: Seq<Item>, r: Option<Result<Vec<u8>, CodeError>>, w: Seq<Item>) -> bool {
    match v[0] {
        Err(e) => r == Some(Err::<Vec<u8>, CodeError>(e)) && w == v.drop_first(),
        Ok(b0) => {
            let n = utf8_len(b0) as int;
            if n == 0 {
                (r matches Some(Err(e)) && e.bad_bytes matches Some(bb) && bb@ == seq![b0]) && w == v.drop_first()
            } else if n <= v.len() && forall|i: int| 1 <= i < n ==> is_cont_item(#[trigger] v[i]) {
                &&& r matches Some(Ok(out))
                &&& out@ == be32_bytes(utf8_value(item_bytes(v.take(n))) as u32)
                &&& utf8_value(item_bytes(v.take(n))) < 0x80000000
                &&& w == v.skip(n)
            } else {
                &&& r matches Some(Err(e))
                &&& exists|k: int|
                    {
                        &&& 1 <= k < n
                        &&& k <= v.len()
                        &&& (forall|i: int| 1 <= i < k ==> is_cont_item(#[trigger] v[i]))
                        &&& (k < v.len() ==> !is_cont_item(v[k]))
                        &&& if k == v.len() {
                            e.bad_bytes matches Some(bb) && bb@ == item_bytes(v) && w == v.skip(k)
                        } else if v[k] is Err {
                            w == v.skip(k + 1) && e.inner == Some(Box::new(v[k]->Err_0))
                        } else {
                            w == v.skip(k)
                        }
                    }
            }
        },
    }
}

/// A bound on the value read from the first `i` bytes of an `n`-byte sequence.
pub open spec fn value_cap(n: nat, i: nat) -> nat
    decreases i,
{
    if i <= 1 {
        if n == 1 {
            128
        } else if n == 2 {
            32
        } else if n == 3 {
            16
        } else if n == 4 {
            8
        } else if n == 5 {
            4
        } else {
            2
        }
    } else {
        value_cap(n, (i - 1) as nat) * 64
    }
}

proof fn lemma_value_cap_mono(n: nat, i: nat, j: nat)
    requires
        1 <= i <= j,
    ensures
        value_cap(n, i) <= value_cap(n, j),
    decreases j,
{
    if i < j {
        lemma_value_cap_mono(n, i, (j - 1) as nat);
    }
}

proof fn lemma_value_cap_top(n: nat)
    requires
        1 <= n <= 6,
    ensures
        value_cap(n, n) <= 0x80000000,
{
    reveal_with_fuel(value_cap, 6);
}

/// Builds the error for a multi-byte sequence cut short after `bytes`.
fn incomplete_error(nbytes: usize, bytes: Vec<u8>, error: Option<CodeError>) -> (r: CodeError)
    requires
        bytes@.len() > 0,
    ensures
        r.bad_bytes == Some(bytes),
        error matches Some(e) ==> r.inner == Some(Box::new(e)),
        error is None ==> r.inner is None,
{
    let last = bytes[bytes.len() - 1];
    let msg = if error.is_some() {
        "incomplete multi-byte code point due to an error"
    } else if last < 0x80 {
        "incomplete multi-byte code point due to a single-byte codepoint"
    } else if last >= 0xE0 {
        "incomplete multi-byte code point due to an unexpected initial byte"
    } else {
        "incomplete multi-byte code point due to EOF"
    };
    let mut code_error = CodeError::new(msg).with_bytes(bytes);
    match error {
        Some(e) => code_error.set_inner(Some(Box::new(e))),
        None => code_error.set_inner(None),
    }
    code_error
}

/// Decodes UTF-8 into codepoints (four bytes each, big-endian).
pub struct Utf8Decode;

impl Utf8Decode {
    pub fn new() -> Utf8Decode {
        Utf8Decode
    }

    /// Reads one UTF-8 sequence and writes its codepoint. Overlong forms are
    /// accepted. A byte that cannot continue the sequence ends it with an
    /// error and is left to be read again.
    pub fn next(&mut self, input: &mut BufferedInput) -> (r: Option<Result<Vec<u8>, CodeError>>)
        ensures
            r is None <==> old(input)@.len() == 0,
            r is None ==> final(input)@ == old(input)@,
            r is Some ==> final(input)@.len() < old(input)@.len(),
            old(input)@.len() > 0 ==> utf8_decoded(old(input)@, r, final(input)@),
    {
        let ghost v = input@;
        let first = match input.get_byte() {
            Some(Ok(b)) => b,
            Some(Err(e)) => {
                return Some(Err(e));
            },
            None => {
                return None;
            },
        };
        let mut bytes: Vec<u8> = vec![first];
        let (mut cp, n): (u32, usize) = if first < 0x80 {
            (first as u32, 1)
        } else if first < 0xE0 {
            ((first % 32) as u32, 2)
        } else if first < 0xF0 {
            ((first % 16) as u32, 3)
        } else if first < 0xF8 {
            ((first % 8) as u32, 4)
        } else if first < 0xFC {
            ((first % 4) as u32, 5)
        } else if first < 0xFE {
            ((first % 2) as u32, 6)
        } else {
            assert(bytes@ =~= seq![first]);
            return Some(Err(CodeError::new("illegal byte").with_bytes(bytes)));
        };
        proof {
            lemma_value_cap_top(n as nat);
            assert(item_bytes(v.take(1)) =~= bytes@);
        }
        let mut i: usize = 1;
        while i < n
            invariant
                v == old(input)@,
                v.len() > 0,
                v[0] == Ok::<u8, CodeError>(first),
                n == utf8_len(first),
                1 <= i <= n <= 6,
                bytes@.len() == i,
                i <= v.len(),
                bytes@ == item_bytes(v.take(i as int)),
                forall|j: int| 1 <= j < i ==> is_cont_item(#[trigger] v[j]),
                input@ == v.skip(i as int),
                cp as nat == utf8_value(bytes@),
                cp < value_cap(n as nat, i as nat),
                value_cap(n as nat, n as nat) <= 0x80000000,
            decreases n - i,
        {
            let ghost before = input@;
            let item = input.get_byte();
            match item {
                Some(Ok(b)) => {
                    assert(before[0] == v[i as int]);
                    if b < 0x80 || b >= 0xC0 {
                        input.unget_byte(b);
                        proof {
                            assert(input@ =~= v.skip(i as int));
                            assert(v.len() > i);
                        }
                        bytes.push(b);
                        return Some(Err(incomplete_error(n, bytes, None)));
                    }
                    proof {
                        lemma_value_cap_mono(n as nat, (i + 1) as nat, n as nat);
                        assert(before.drop_first() =~= v.skip(i + 1));
                    }
                    let ghost old_bytes = bytes@;
                    cp = cp * 64 + (b % 64) as u32;
                    bytes.push(b);
                    i = i + 1;
                    proof {
                        assert(bytes@.drop_last() =~= old_bytes);
                        assert(utf8_value(bytes@) == utf8_value(old_bytes) * 64 + (b % 64) as nat);
                        assert(item_bytes(v.take(i as int)) =~= bytes@);
                    }
                },
                Some(Err(e)) => {
                    assert(before[0] == v[i as int]);
                    assert(before.drop_first() =~= v.skip(i + 1));
                    return Some(Err(incomplete_error(n, bytes, Some(e))));
                },
                None => {
                    assert(v.len() == i);
                    assert(v.take(i as int) =~= v);
                    return Some(Err(incomplete_error(n, bytes, None)));
                },
            }
        }
        proof {
            lemma_value_cap_mono(n as nat, i as nat, n as nat);
        }
        Some(Ok(u32_to_bytes(cp, true)))
    }

    /// U+FFFD as a codepoint.
    pub fn replacement(&self) -> (r: Vec<u8>)
        ensures
            r@ == replacement_codepoint_bytes(),
    {
        unicode_replacement()
    }
}


pub(crate) proof fn lemma_utf8_unit(cp: u32)
    requires
        cp <= 0x10FFFF,
    ensures
        utf8_encode_spec(cp) matches Some(e) && {
            &&& e.len() == utf8_len(e[0])
            &&& forall|i: int| 1 <= i < e.len() ==> is_continuation(#[trigger] e[i])
            &&& utf8_value(e) == cp as nat
        },
{
    reveal_with_fuel(utf8_value, 4);
    let e = utf8_encode_spec(cp)->Some_0;
    if cp < 0x80 {
    } else if cp < 0x800 {
        assert((0xC0 + cp / 0x40) as u8 % 32 == cp / 0x40) by (bit_vector)
            requires cp < 0x800;
        assert((cp / 0x40) * 64 + ((0x80 + cp % 0x40) as u8 % 64) == cp) by (bit_vector)
            requires cp < 0x800;
        assert(e.drop_last() =~= seq![e[0]]);
    } else if cp < 0x10000 {
        assert((0xE0 + cp / 0x1000) as u8 % 16 == cp / 0x1000) by (bit_vector)
            requires cp < 0x10000;
        assert(((cp / 0x1000) * 64 + ((0x80 + cp / 0x40 % 0x40) as u8 % 64)) * 64 + ((0x80 + cp % 0x40) as u8
            % 64) == cp) by (bit_vector)
            requires cp < 0x10000;
        assert(e.drop_last() =~= seq![e[0], e[1]]);
        assert(e.drop_last().drop_last() =~= seq![e[0]]);
    } else {
        assert((0xF0 + cp / 0x40000) as u8 % 8 == cp / 0x40000) by (bit_vector)
            requires cp < 0x200000;
        assert((((cp / 0x40000) * 64 + ((0x80 + cp / 0x1000 % 0x40) as u8 % 64)) * 64 + ((0x80 + cp / 0x40 % 0x40) as u8
            % 64)) * 64 + ((0x80 + cp % 0x40) as u8 % 64) == cp) by (bit_vector)
            requires cp < 0x200000;
        assert(e.drop_last() =~= seq![e[0], e[1], e[2]]);
        assert(e.drop_last().drop_last() =~= seq![e[0], e[1]]);
        assert(e.drop_last().drop_last().drop_last() =~= seq![e[0]]);
    }
}

/// Decoding the UTF-8 form of any codepoint up to U+10FFFF, whatever
/// follows it, gives back that codepoint and leaves what follows.
pub proof fn lemma_utf8_round_trip(cp: u32, rest: Seq<Item>, r: Option<Result<Vec<u8>, CodeError>>, w: Seq<Item>)
    requires
        cp <= 0x10FFFF,
        utf8_encode_spec(cp) is Some,
        utf8_decoded(byte_items(utf8_encode_spec(cp)->Some_0) + rest, r, w),
    ensures
        r matches Some(Ok(out)) && out@ == be32_bytes(cp),
        w == rest,
{
    lemma_utf8_unit(cp);
    let e = utf8_encode_spec(cp)->Some_0;
    let v = byte_items(e) + rest;
    let n = e.len() as int;
    assert(v[0] == Ok::<u8, CodeError>(e[0]));
    assert(forall|i: int| 1 <= i < n ==> is_cont_item(#[trigger] v[i]) <== is_continuation(e[i]));
    assert(item_bytes(v.take(n)) =~= e);
    assert(v.skip(n) =~= rest);
}

/// A codec's result that is the bytes `b`.
pub open spec fn gives(r: Option<Result<Vec<u8>, CodeError>>, b: Seq<u8>) -> bool {
    r matches Some(Ok(out)) && out@ == b
}

/// The UTF-8 text of a sequence of codepoints.
pub open spec fn utf8_text(cps: Seq<u32>) -> Seq<u8>
    decreases cps.len(),
{
    if cps.len() == 0 {
        seq![]
    } else {
        utf8_encode_spec(cps[0])->Some_0 + utf8_text(cps.drop_first())
    }
}

/// A sequence of codepoints in the four-byte big-endian wire form.
pub open spec fn codepoint_text(cps: Seq<u32>) -> Seq<u8>
    decreases cps.len(),
{
    if cps.len() == 0 {
        seq![]
    } else {
        be32_bytes(cps[0]) + codepoint_text(cps.drop_first())
    }
}

/// A run of calls of the UTF-8 decoder: the `i`-th call read `states[i]`
/// and left `states[i + 1]`, giving `results[i]`.
pub open spec fn decoder_run(states: Seq<Seq<Item>>, results: Seq<Option<Result<Vec<u8>, CodeError>>>) -> bool {
    &&& states.len() == results.len() + 1
    &&& forall|i: int| 0 <= i < results.len() ==> states[i].len() > 0 && utf8_decoded(
        #[trigger] states[i],
        results[i],
        states[i + 1],
    )
}

/// A run of calls of the UTF-8 encoder: the `i`-th call read `states[i]`,
/// whose first four items were bytes, and left `states[i + 1]`, giving
/// `results[i]`, as the encoder's contract states it.
pub open spec fn encoder_run(states: Seq<Seq<Item>>, results: Seq<Option<Result<Vec<u8>, CodeError>>>) -> bool {
    &&& states.len() == results.len() + 1
    &&& forall|i: int| 0 <= i < results.len() ==> {
        &&& four_bytes(#[trigger] states[i])
        &&& states[i + 1] == states[i].skip(4)
        &&& match utf8_encode_spec(codepoint_at(states[i])) {
            Some(e) => results[i] matches Some(Ok(out)) && out@ == e,
            None => results[i] matches Some(Err(_)),
        }
    }
}

/// Decoding UTF-8 and encoding it again is the identity: on the UTF-8
/// text of codepoints up to U+10FFFF, the decoder gives each codepoint in
/// turn, reading the text to its end, and on those codepoints the encoder
/// gives back the UTF-8 form of each.
pub proof fn lemma_utf8_decode_then_encode(
    cps: Seq<u32>,
    dec_states: Seq<Seq<Item>>,
    dec_results: Seq<Option<Result<Vec<u8>, CodeError>>>,
    enc_states: Seq<Seq<Item>>,
    enc_results: Seq<Option<Result<Vec<u8>, CodeError>>>,
)
    requires
        forall|i: int| 0 <= i < cps.len() ==> #[trigger] cps[i] <= 0x10FFFF,
        dec_results.len() == cps.len(),
        decoder_run(dec_states, dec_results),
        dec_states[0] == byte_items(utf8_text(cps)),
        enc_results.len() == cps.len(),
        encoder_run(enc_states, enc_results),
        enc_states[0] == byte_items(codepoint_text(cps)),
    ensures
        forall|i: int| 0 <= i < cps.len() ==> gives(#[trigger] dec_results[i], be32_bytes(cps[i])),
        dec_states[cps.len() as int].len() == 0,
        forall|i: int| 0 <= i < cps.len() ==> gives(#[trigger] enc_results[i], utf8_encode_spec(cps[i])->Some_0),
        enc_states[cps.len() as int].len() == 0,
{
    assert(cps.skip(0) =~= cps);
    lemma_runs(cps, dec_states, dec_results, enc_states, enc_results, 0);
}

proof fn lemma_runs(
    cps: Seq<u32>,
    dec_states: Seq<Seq<Item>>,
    dec_results: Seq<Option<Result<Vec<u8>, CodeError>>>,
    enc_states: Seq<Seq<Item>>,
    enc_results: Seq<Option<Result<Vec<u8>, CodeError>>>,
    k: int,
)
    requires
        0 <= k <= cps.len(),
        forall|i: int| 0 <= i < cps.len() ==> #[trigger] cps[i] <= 0x10FFFF,
        dec_results.len() == cps.len(),
        decoder_run(dec_states, dec_results),
        dec_states[k] == byte_items(utf8_text(cps.skip(k))),
        enc_results.len() == cps.len(),
        encoder_run(enc_states, enc_results),
        enc_states[k] == byte_items(codepoint_text(cps.skip(k))),
    ensures
        forall|i: int| k <= i < cps.len() ==> gives(#[trigger] dec_results[i], be32_bytes(cps[i])),
        dec_states[cps.len() as int].len() == 0,
        forall|i: int| k <= i < cps.len() ==> gives(#[trigger] enc_results[i], utf8_encode_spec(cps[i])->Some_0),
        enc_states[cps.len() as int].len() == 0,
    decreases cps.len() - k,
{
    if k == cps.len() {
        assert(cps.skip(k) =~= Seq::<u32>::empty());
        assert(byte_items(Seq::<u8>::empty()) =~= Seq::<Item>::empty());
    } else {
        let cp = cps[k];
        let e = utf8_encode_spec(cp)->Some_0;
        let rest = byte_items(utf8_text(cps.skip(k + 1)));
        assert(cps.skip(k).drop_first() =~= cps.skip(k + 1));
        assert(cps.skip(k)[0] == cp);
        lemma_utf8_unit(cp);
        assert(byte_items(utf8_text(cps.skip(k))) =~= byte_items(e) + rest);
        assert(dec_states[k].len() > 0 && utf8_decoded(dec_states[k], dec_results[k], dec_states[k + 1]));
        lemma_utf8_round_trip(cp, rest, dec_results[k], dec_states[k + 1]);
        let erest = byte_items(codepoint_text(cps.skip(k + 1)));
        lemma_be32_round_trip(cp);
        let v = enc_states[k];
        assert(v =~= byte_items(be32_bytes(cp)) + erest);
        assert(four_bytes(v));
        assert(item_bytes(v.take(4)) =~= be32_bytes(cp));
        assert(codepoint_at(v) == cp);
        assert(v.skip(4) =~= erest);
        lemma_runs(cps, dec_states, dec_results, enc_states, enc_results, k + 1);
    }
}

} // verus!
