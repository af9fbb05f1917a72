use vstd::prelude::*;
use crate::base64::{Base64, sixes};
use crate::encoding::{BufferedInput, CodeError, Item, byte_items, item_bytes};
use crate::utf16::{Utf16Encode, high_surrogate, is_high, is_low, low_surrogate, pair_value, utf16_encode_spec};
use crate::utf8::{codepoint_at, four_bytes, gives};
use crate::utils::{be32_bytes, replacement_codepoint_bytes, u32_from_bytes, u32_to_bytes, unicode_replacement};

verus! {

/// The Base64 variant of UTF-7: `+` and `/` for 62 and 63, no padding.
pub open spec fn spec_modified_base64() -> Base64 {
    Base64 { code62: 43, code63: 47, pad: None }
}

/// The Base64 variant of UTF-7: `+` and `/` for 62 and 63, no padding.
pub fn modified_base64() -> (r: Base64)
    ensures
        r == spec_modified_base64(),
{
    Base64 { code62: 43, code63: 47, pad: None }
}

/// Whether UTF-7 writes a codepoint as itself: printable ASCII, space, tab,
/// CR and LF, but for `+`, `\` and `~`.
pub open spec fn is_direct(cp: u32) -> bool {
    (cp == 32 || cp == 9 || cp == 13 || cp == 10 || (33 <= cp <= 125)) && cp != 43 && cp != 92 && cp != 126
}

/// What the encoder gives when it starts in `mode` with the UTF-16 bytes
/// `buf` waiting and `out` already written, and reads `v`: `r`, the state
/// `mode1` and `buf1` it ends in, and the input `w` it leaves.
pub open spec fn utf7_encoded(
    mode: Mode,
    buf: Seq<u8>,
    out: Seq<u8>,
    v: Seq<Item>,
    r: Option<Result<Vec<u8>, CodeError>>,
    mode1: Mode,
    buf1: Seq<u8>,
    w: Seq<Item>,
) -> bool
    decreases v.len(),
{
    if v.len() == 0 {
        let o = out + (if buf.len() > 0 { spec_modified_base64().spec_encode(buf) } else { Seq::<u8>::empty() });
        &&& buf1.len() == 0
        &&& mode1 == mode
        &&& w == v
        &&& if o.len() == 0 { r is None } else { r matches Some(Ok(x)) && x@ == o }
    } else if !four_bytes(v) {
        r matches Some(Err(_))
    } else if is_direct(codepoint_at(v)) {
        let o = out + (if mode == Mode::Unicode {
            spec_modified_base64().spec_encode(buf) + seq![45u8]
        } else {
            Seq::<u8>::empty()
        }) + seq![codepoint_at(v) as u8];
        &&& r matches Some(Ok(x)) && x@ == o
        &&& mode1 == Mode::Direct
        &&& buf1.len() == 0
        &&& w == v.skip(4)
    } else {
        match utf16_encode_spec(codepoint_at(v), true) {
            None => {
                &&& r matches Some(Err(e)) && e.bad_bytes matches Some(bb) && bb@ == item_bytes(v.take(4))
                &&& mode1 == mode
                &&& buf1 == buf
                &&& w == v.skip(4)
            },
            Some(u) => {
                let o = out + (if mode == Mode::Direct { seq![43u8] } else { Seq::<u8>::empty() });
                let b = buf + u;
                if b.len() % 3 == 0 {
                    &&& r matches Some(Ok(x)) && x@ == o + spec_modified_base64().spec_encode(b)
                    &&& mode1 == Mode::Unicode
                    &&& buf1.len() == 0
                    &&& w == v.skip(4)
                } else {
                    utf7_encoded(Mode::Unicode, b, o, v.skip(4), r, mode1, buf1, w)
                }
            },
        }
    }
}

/// The two states of UTF-7: bytes written as themselves, or a run of
/// modified Base64.
#[derive(Debug, Clone, Copy, PartialEq, Eq, Structural)]
pub enum Mode {
    Unicode,
    Direct,
}

/// Encodes codepoints (four bytes each, big-endian) as UTF-7.
pub struct Utf7Encode {
    pub mode: Mode,
    pub output_buffer: Vec<u8>,
    pub base64: Base64,
}

impl Utf7Encode {
    pub open spec fn wf(&self) -> bool {
        &&& self.base64 == spec_modified_base64()
        &&& self.mode == Mode::Direct ==> self.output_buffer@.len() == 0
    }

    pub fn new() -> (r: Utf7Encode)
        ensures
            r.wf(),
            r.mode == Mode::Direct,
    {
        Utf7Encode { mode: Mode::Direct, output_buffer: Vec::new(), base64: modified_base64() }
    }

    /// Moves the UTF-16 bytes waiting in the buffer to `out`, in modified Base64.
    fn flush_buffer(&mut self, out: &mut Vec<u8>)
        ensures
            final(self).mode == old(self).mode,
            final(self).base64 == old(self).base64,
            final(self).output_buffer@.len() == 0,
            final(out)@ == old(out)@ + old(self).base64.spec_encode(old(self).output_buffer@),
    {
        let encoded = self.base64.encode(self.output_buffer.as_slice());
        self.output_buffer.clear();
        let mut i: usize = 0;
        let ghost start = out@;
        while i < encoded.len()
            invariant
                i <= encoded@.len(),
                out@ == start + encoded@.take(i as int),
            decreases encoded@.len() - i,
        {
            out.push(encoded[i]);
            i = i + 1;
            assert(out@ =~= start + encoded@.take(i as int));
        }
        assert(encoded@.take(i as int) =~= encoded@);
    }

    /// Reads codepoints and writes their UTF-7 form: a codepoint that may
    /// stand for itself is written as itself, closing a run of modified
    /// Base64 with `-` first; any other goes, as UTF-16, into a run opened by
    /// `+`. A call goes on reading until it writes a direct byte or the run's
    /// UTF-16 bytes come to a multiple of three, which it then writes out.
    /// At the end of the input what is left of a run is written out.
    pub fn next(&mut self, input: &mut BufferedInput) -> (r: Option<Result<Vec<u8>, CodeError>>)
        requires
            old(self).wf(),
        ensures
            final(self).wf(),
            r is Some && !(r matches Some(Ok(b)) && b@.len() > 0) ==> final(input)@.len() < old(input)@.len(),
            r is None ==> old(input)@.len() == 0,
            utf7_encoded(
                old(self).mode,
                old(self).output_buffer@,
                Seq::<u8>::empty(),
                old(input)@,
                r,
                final(self).mode,
                final(self).output_buffer@,
                final(input)@,
            ),
    {
        let ghost v0 = input@;
        let mut out: Vec<u8> = Vec::new();
        loop
            invariant
                self.wf(),
                v0 == old(input)@,
                old(self).wf(),
                input@.len() <= v0.len(),
                out@.len() > 0 ==> input@.len() < v0.len(),
                input@.len() < v0.len() ==> out@.len() > 0 || self.output_buffer@.len() > 0,
                forall|r: Option<Result<Vec<u8>, CodeError>>, m1: Mode, b1: Seq<u8>, w: Seq<Item>|
                    #[trigger] utf7_encoded(self.mode, self.output_buffer@, out@, input@, r, m1, b1, w) ==> utf7_encoded(
                        old(self).mode,
                        old(self).output_buffer@,
                        Seq::<u8>::empty(),
                        v0,
                        r,
                        m1,
                        b1,
                        w,
                    ),
            decreases input@.len(),
        {
            let ghost m0 = self.mode;
            let ghost buf0 = self.output_buffer@;
            let ghost out0 = out@;
            let ghost vin = input@;
            let bytes = match input.get_bytes(4) {
                Some(Ok(b)) => b,
                Some(Err(e)) => {
                    let r = Some(Err(e));
                    assert(utf7_encoded(m0, buf0, out0, vin, r, self.mode, self.output_buffer@, input@));
                    return r;
                },
                None => {
                    if self.output_buffer.len() > 0 {
                        self.flush_buffer(&mut out);
                        proof {
                            crate::base64::lemma_encode_nonempty(self.base64, buf0);
                        }
                    }
                    if out.len() == 0 {
                        assert(utf7_encoded(m0, buf0, out0, vin, None, self.mode, self.output_buffer@, input@));
                        return None;
                    }
                    let r = Some(Ok(out));
                    assert(utf7_encoded(m0, buf0, out0, vin, r, self.mode, self.output_buffer@, input@));
                    return r;
                },
            };
            proof {
                assert(item_bytes(vin.take(4)) =~= bytes@);
            }
            let codepoint = u32_from_bytes(bytes.as_slice(), true);
            if (codepoint == 32 || codepoint == 9 || codepoint == 13 || codepoint == 10 || (33 <= codepoint
                && codepoint <= 125)) && codepoint != 43 && codepoint != 92 && codepoint != 126 {
                if self.mode == Mode::Unicode {
                    self.flush_buffer(&mut out);
                    out.push(45);
                    self.mode = Mode::Direct;
                }
                out.push(codepoint as u8);
                let r = Some(Ok(out));
                proof {
                    let o = out0 + (if m0 == Mode::Unicode { self.base64.spec_encode(buf0) + seq![45u8] } else { Seq::<u8>::empty() }) + seq![codepoint as u8];
                    assert(r->Some_0->Ok_0@ =~= o);
                    assert(utf7_encoded(m0, buf0, out0, vin, r, self.mode, self.output_buffer@, input@));
                }
                return r;
            }
            let utf16 = match Utf16Encode::encode_codepoint(codepoint, true) {
                Ok(u) => u,
                Err(e) => {
                    let r = Some(Err(e.with_bytes(bytes)));
                    assert(utf7_encoded(m0, buf0, out0, vin, r, self.mode, self.output_buffer@, input@));
                    return r;
                },
            };
            if self.mode == Mode::Direct {
                out.push(43);
                self.mode = Mode::Unicode;
            }
            let ghost out1 = out@;
            let mut i: usize = 0;
            while i < utf16.len()
                invariant
                    i <= utf16@.len(),
                    self.base64 == spec_modified_base64(),
                    self.mode == Mode::Unicode,
                    self.output_buffer@ == buf0 + utf16@.take(i as int),
                decreases utf16@.len() - i,
            {
                self.output_buffer.push(utf16[i]);
                i = i + 1;
                assert(self.output_buffer@ =~= buf0 + utf16@.take(i as int));
            }
            assert(utf16@.take(i as int) =~= utf16@);
            assert(out1 =~= out0 + (if m0 == Mode::Direct { seq![43u8] } else { Seq::<u8>::empty() }));
            if self.output_buffer.len() % 3 == 0 {
                self.flush_buffer(&mut out);
                let r = Some(Ok(out));
                proof {
                    crate::base64::lemma_encode_nonempty(self.base64, buf0 + utf16@);
                    assert(utf7_encoded(m0, buf0, out0, vin, r, self.mode, self.output_buffer@, input@));
                }
                return r;
            }
            proof {
                assert forall|r: Option<Result<Vec<u8>, CodeError>>, m1: Mode, b1: Seq<u8>, w: Seq<Item>|
                    #[trigger] utf7_encoded(self.mode, self.output_buffer@, out@, input@, r, m1, b1, w) implies utf7_encoded(
                        m0,
                        buf0,
                        out0,
                        vin,
                        r,
                        m1,
                        b1,
                        w,
                    ) by {}
            }
        }
    }

    pub fn replacement(&self) -> (r: Vec<u8>)
        ensures
            r@ == seq![63u8],
    {
        vec![63]
    }
}

/// The big-endian 16-bit units of a byte sequence; a lone last byte is dropped.
pub open spec fn be_units(b: Seq<u8>) -> Seq<u16>
    decreases b.len(),
{
    if b.len() < 2 {
        seq![]
    } else {
        seq![(b[0] as int * 0x100 + b[1] as int) as u16] + be_units(b.skip(2))
    }
}

/// The codepoints of UTF-16 units in the four-byte big-endian wire form;
/// none when a surrogate is unpaired.
pub open spec fn resolve_units(u: Seq<u16>) -> Option<Seq<u8>>
    decreases u.len(),
{
    if u.len() == 0 {
        Some(seq![])
    } else if is_high(u[0] as int) {
        if u.len() >= 2 && is_low(u[1] as int) {
            match resolve_units(u.skip(2)) {
                Some(r) => Some(be32_bytes(pair_value(u[0] as int, u[1] as int) as u32) + r),
                None => None,
            }
        } else {
            None
        }
    } else if is_low(u[0] as int) {
        None
    } else {
        match resolve_units(u.skip(1)) {
            Some(r) => Some(be32_bytes(u[0] as u32) + r),
            None => None,
        }
    }
}

/// Whether a byte belongs to the modified Base64 alphabet.
pub open spec fn is_b64_symbol(b: u8) -> bool {
    (65 <= b <= 90) || (97 <= b <= 122) || (48 <= b <= 57) || b == 43 || b == 47
}

/// `v` opens with a run of `m` modified Base64 symbols, fewer than eight,
/// ended by a byte outside the alphabet.
pub open spec fn short_run(v: Seq<Item>, m: int) -> bool {
    &&& 0 <= m < 8
    &&& v.len() > m
    &&& forall|i: int| 0 <= i < m ==> (#[trigger] v[i]) is Ok && is_b64_symbol(v[i]->Ok_0)
    &&& v[m] is Ok
    &&& !is_b64_symbol(v[m]->Ok_0)
}

/// Where the decoder's reading of a run of modified Base64 ends, with the
/// symbols `syms` not yet decoded and the UTF-16 units `units` decoded so
/// far: `(0, ..)` at the end of the input; `(1, .., Some(e))` at an error
/// `e` from upstream; `(2, ..)` after a group of eight symbols whose units
/// do not end in a high surrogate; `(3, ..)` at a byte outside the
/// alphabet, which is dropped if it is `-` and otherwise left to be read;
/// `(4, ..)` at a group of eight symbols that does not decode. The fourth
/// part is the input left. Each group of eight symbols is decoded as soon
/// as it is complete.
pub open spec fn run_scan(v: Seq<Item>, syms: Seq<u8>, units: Seq<u16>) -> (int, Seq<u8>, Seq<u16>, Seq<Item>, Option<CodeError>)
    decreases v.len(),
{
    if v.len() == 0 {
        (0, syms, units, v, None)
    } else {
        match v[0] {
            Err(e) => (1, syms, units, v.drop_first(), Some(e)),
            Ok(b) => if is_b64_symbol(b) {
                let s2 = syms.push(b);
                if s2.len() >= 8 {
                    match spec_modified_base64().spec_decode(s2) {
                        Err(_) => (4, s2, units, v.drop_first(), None),
                        Ok(bytes) => {
                            let u2 = units + be_units(bytes);
                            if u2.len() > 0 && is_high(u2.last() as int) {
                                run_scan(v.drop_first(), Seq::<u8>::empty(), u2)
                            } else {
                                (2, Seq::<u8>::empty(), u2, v.drop_first(), None)
                            }
                        },
                    }
                } else {
                    run_scan(v.drop_first(), s2, units)
                }
            } else {
                (3, syms, units, if b == 45 { v.drop_first() } else { v }, None)
            },
        }
    }
}

/// What decoding a run gives once its reading ended as `t`: an error from
/// upstream is handed on; a group that does not decode is an error;
/// otherwise the symbols left are decoded and all the units resolved into
/// codepoints, an unpaired surrogate being an error. The run goes on in the
/// next call unless a byte outside the alphabet ended it.
pub open spec fn run_result(t: (int, Seq<u8>, Seq<u16>, Seq<Item>, Option<CodeError>), r: Option<Result<Vec<u8>, CodeError>>, mode: Mode, w: Seq<Item>) -> bool {
    let (kind, syms, units, rest, up) = t;
    &&& w == rest
    &&& if kind == 1 {
        r == Some(Err::<Vec<u8>, CodeError>(up->Some_0))
    } else if kind == 4 {
        r matches Some(Err(_))
    } else {
        &&& mode == (if kind == 3 { Mode::Direct } else { Mode::Unicode })
        &&& match spec_modified_base64().spec_decode(syms) {
            Err(_) => r matches Some(Err(_)),
            Ok(b) => match resolve_units(units + be_units(b)) {
                Some(o) => r matches Some(Ok(out)) && out@ == o,
                None => r matches Some(Err(_)),
            },
        }
    }
}

/// `v` is a run of fewer than eight modified Base64 symbols up to the end
/// of the input.
pub open spec fn run_to_end(v: Seq<Item>) -> bool {
    &&& 0 < v.len() < 8
    &&& forall|i: int| 0 <= i < v.len() ==> (#[trigger] v[i]) is Ok && is_b64_symbol(v[i]->Ok_0)
}

/// What decoding a run that the end of the input closes gives: the
/// codepoints of the UTF-16 units its symbols decode to; the state stays
/// inside the run and nothing is left to read.
pub open spec fn run_decoded_at_end(v: Seq<Item>, r: Option<Result<Vec<u8>, CodeError>>, mode: Mode, w: Seq<Item>) -> bool {
    &&& mode == Mode::Unicode
    &&& w.len() == 0
    &&& match spec_modified_base64().spec_decode(item_bytes(v)) {
        Ok(b) => match resolve_units(be_units(b)) {
            Some(o) => r matches Some(Ok(out)) && out@ == o,
            None => r matches Some(Err(_)),
        },
        Err(_) => r matches Some(Err(_)),
    }
}

/// What decoding a short run of `m` symbols from `v` gives: the codepoints
/// of the UTF-16 units that the symbols decode to, a terminating `-` dropped
/// and any other terminator left to be read, and the direct state again.
pub open spec fn run_decoded(v: Seq<Item>, m: int, r: Option<Result<Vec<u8>, CodeError>>, mode: Mode, w: Seq<Item>) -> bool {
    &&& mode == Mode::Direct
    &&& w == if v[m] == Ok::<u8, CodeError>(45) { v.skip(m + 1) } else { v.skip(m) }
    &&& match spec_modified_base64().spec_decode(item_bytes(v.take(m))) {
        Ok(b) => match resolve_units(be_units(b)) {
            Some(o) => r matches Some(Ok(out)) && out@ == o,
            None => r matches Some(Err(_)),
        },
        Err(_) => r matches Some(Err(_)),
    }
}

/// Appends the big-endian 16-bit units of `bytes` to `units`.
fn push_units(units: &mut Vec<u16>, bytes: &Vec<u8>)
    ensures
        final(units)@ == old(units)@ + be_units(bytes@),
{
    let mut i: usize = 0;
    assert(bytes@.skip(0) =~= bytes@);
    while i < bytes.len() && bytes.len() - i >= 2
        invariant
            i <= bytes@.len(),
            units@ + be_units(bytes@.skip(i as int)) == old(units)@ + be_units(bytes@),
        decreases bytes@.len() - i,
    {
        let ghost rest = bytes@.skip(i as int);
        units.push((bytes[i] as u16) * 0x100 + bytes[i + 1] as u16);
        i = i + 2;
        assert(rest.skip(2) =~= bytes@.skip(i as int));
        assert(units@ + be_units(bytes@.skip(i as int)) =~= old(units)@ + be_units(bytes@));
    }
    assert(be_units(bytes@.skip(i as int)) =~= Seq::<u16>::empty());
    assert(units@ =~= old(units)@ + be_units(bytes@));
}

/// Pairs the surrogates of `units` and writes the codepoints; an unpaired
/// surrogate is an error.
fn resolve(units: &Vec<u16>) -> (r: Result<Vec<u8>, CodeError>)
    ensures
        match resolve_units(units@) {
            Some(o) => r matches Ok(out) && out@ == o,
            None => r is Err,
        },
{
    let mut out: Vec<u8> = Vec::new();
    let mut j: usize = 0;
    let n = units.len();
    assert(units@.skip(0) =~= units@);
    assert(out@ + Seq::<u8>::empty() =~= Seq::<u8>::empty());
    while j < n
        invariant
            n == units@.len(),
            j <= n,
            match resolve_units(units@.skip(j as int)) {
                Some(rest) => resolve_units(units@) == Some(out@ + rest),
                None => resolve_units(units@) is None,
            },
        decreases n - j,
    {
        let ghost rest = units@.skip(j as int);
        let unit = units[j];
        assert(rest[0] == unit);
        if let Some(value) = high_surrogate(unit) {
            if j + 1 < n {
                if let Some(low) = low_surrogate(units[j + 1]) {
                    let mut bytes = u32_to_bytes(value + 0x10000 + low, true);
                    out.append(&mut bytes);
                    j = j + 2;
                    assert(rest.skip(2) =~= units@.skip(j as int));
                    proof {
                        match resolve_units(units@.skip(j as int)) {
                            Some(t) => {
                                assert(out@ + t =~= (out@.subrange(0, out@.len() - 4)) + (be32_bytes((value + 0x10000 + low) as u32) + t));
                            },
                            None => {},
                        }
                    }
                    continue;
                }
            }
            return Err(CodeError::new("expected low surrogate"));
        } else if low_surrogate(unit).is_some() {
            return Err(CodeError::new("unexpected low surrogate"));
        } else {
            let mut bytes = u32_to_bytes(unit as u32, true);
            out.append(&mut bytes);
            j = j + 1;
            assert(rest.skip(1) =~= units@.skip(j as int));
            proof {
                match resolve_units(units@.skip(j as int)) {
                    Some(t) => {
                        assert(out@ + t =~= (out@.subrange(0, out@.len() - 4)) + (be32_bytes(unit as u32) + t));
                    },
                    None => {},
                }
            }
        }
    }
    assert(units@.skip(j as int) =~= Seq::<u16>::empty());
    assert(out@ + Seq::<u8>::empty() =~= out@);
    Ok(out)
}

/// Decodes UTF-7 into codepoints (four bytes each, big-endian).
pub struct Utf7Decode {
    pub mode: Mode,
    pub base64: Base64,
}

impl Utf7Decode {
    pub open spec fn wf(&self) -> bool {
        self.base64 == spec_modified_base64()
    }

    /// 1 inside a run of modified Base64, else 0.
    pub open spec fn pending(&self) -> nat {
        if self.mode == Mode::Unicode {
            1
        } else {
            0
        }
    }

    pub fn new() -> (r: Utf7Decode)
        ensures
            r.wf(),
            r.mode == Mode::Direct,
    {
        Utf7Decode { mode: Mode::Direct, base64: modified_base64() }
    }

    /// Reads a directly written byte and writes its codepoint; or reads a run
    /// of modified Base64, in groups of eight symbols so that a surrogate
    /// pair is not cut, and writes the codepoints of its UTF-16 units. A `-`
    /// that ends a run is dropped; any other byte that ends it is read again
    /// as a direct byte.
    pub fn next(&mut self, input: &mut BufferedInput) -> (r: Option<Result<Vec<u8>, CodeError>>)
        requires
            old(self).wf(),
        ensures
            final(self).wf(),
            r is Some ==> 2 * final(input)@.len() + final(self).pending() < 2 * old(input)@.len() + old(self).pending(),
            r is None ==> final(input)@.len() == 0,
            old(self).mode == Mode::Unicode ==> forall|m: int| #[trigger] short_run(old(input)@, m) ==> run_decoded(
                old(input)@,
                m,
                r,
                final(self).mode,
                final(input)@,
            ),
            (old(self).mode == Mode::Unicode && old(input)@.len() > 0) ==> run_result(
                run_scan(old(input)@, Seq::<u8>::empty(), Seq::<u16>::empty()),
                r,
                final(self).mode,
                final(input)@,
            ),
            (old(self).mode == Mode::Direct && old(input)@.len() > 1 && old(input)@[0] == Ok::<u8, CodeError>(43))
                ==> run_result(
                run_scan(old(input)@.drop_first(), Seq::<u8>::empty(), Seq::<u16>::empty()),
                r,
                final(self).mode,
                final(input)@,
            ),
            (old(self).mode == Mode::Unicode && run_to_end(old(input)@)) ==> run_decoded_at_end(
                old(input)@,
                r,
                final(self).mode,
                final(input)@,
            ),
            (old(self).mode == Mode::Direct && old(input)@.len() > 0 && old(input)@[0] == Ok::<u8, CodeError>(43)
                && run_to_end(old(input)@.drop_first())) ==> run_decoded_at_end(
                old(input)@.drop_first(),
                r,
                final(self).mode,
                final(input)@,
            ),
            (old(self).mode == Mode::Direct && old(input)@.len() > 0 && old(input)@[0] == Ok::<u8, CodeError>(43))
                ==> forall|m: int| #[trigger] short_run(old(input)@.drop_first(), m) ==> run_decoded(
                old(input)@.drop_first(),
                m,
                r,
                final(self).mode,
                final(input)@,
            ),
            ({
                let v = old(input)@;
                (old(self).mode == Mode::Direct && v.len() > 0 && v[0] is Ok && v[0]->Ok_0 >= 0x80) ==> {
                    &&& r matches Some(Err(e)) && e.bad_bytes matches Some(bb) && bb@ == seq![v[0]->Ok_0]
                    &&& final(input)@ == v.drop_first()
                    &&& final(self).mode == Mode::Direct
                }
            }),
            ({
                let v = old(input)@;
                (old(self).mode == Mode::Direct && v.len() > 0 && v[0] is Err) ==> r == Some(Err::<Vec<u8>, CodeError>(
                    v[0]->Err_0,
                )) && final(input)@ == v.drop_first()
            }),
            ({
                let v = old(input)@;
                (old(self).mode == Mode::Direct && v.len() > 0 && v[0] is Ok && v[0]->Ok_0 < 0x80 && v[0]->Ok_0 != 43) ==> {
                    &&& r matches Some(Ok(out)) && out@ == be32_bytes(v[0]->Ok_0 as u32)
                    &&& final(input)@ == v.drop_first()
                    &&& final(self).mode == Mode::Direct
                }
            }),
    {
        let ghost v = input@;
        loop
            invariant
                self.wf(),
                v == old(input)@,
                input@.len() <= v.len(),
                self.mode == Mode::Unicode && old(self).mode == Mode::Direct ==> input@.len() < v.len() && v[0]
                    == Ok::<u8, CodeError>(43) && input@ == v.drop_first(),
                self.mode == Mode::Unicode && old(self).mode == Mode::Unicode ==> input@ == v,
                self.mode == Mode::Direct ==> input@ == v && old(self).mode == Mode::Direct,
            decreases (if self.mode == Mode::Direct { 1int } else { 0int }),
        {
            if self.mode == Mode::Direct {
                let byte = match input.get_byte() {
                    Some(Ok(b)) => b,
                    Some(Err(e)) => {
                        return Some(Err(e));
                    },
                    None => {
                        return None;
                    },
                };
                if byte == 43 {
                    self.mode = Mode::Unicode;
                } else if byte > 0x7F {
                    return Some(Err(CodeError::new("illegal byte in UTF-7 input").with_bytes(vec![byte])));
                } else {
                    return Some(Ok(u32_to_bytes(byte as u32, true)));
                }
            } else {
                return self.decode_run(input);
            }
        }
    }

    /// Reads and decodes a run of modified Base64.
    fn decode_run(&mut self, input: &mut BufferedInput) -> (r: Option<Result<Vec<u8>, CodeError>>)
        requires
            old(self).wf(),
            old(self).mode == Mode::Unicode,
        ensures
            final(self).wf(),
            r is Some ==> 2 * final(input)@.len() + final(self).pending() < 2 * old(input)@.len() + 1,
            r is None ==> final(input)@.len() == 0,
            forall|m: int| #[trigger] short_run(old(input)@, m) ==> run_decoded(old(input)@, m, r, final(self).mode, final(input)@),
            run_to_end(old(input)@) ==> run_decoded_at_end(old(input)@, r, final(self).mode, final(input)@),
            old(input)@.len() == 0 ==> r is None && final(self).mode == Mode::Direct,
            old(input)@.len() > 0 ==> run_result(
                run_scan(old(input)@, Seq::<u8>::empty(), Seq::<u16>::empty()),
                r,
                final(self).mode,
                final(input)@,
            ),
    {
        let ghost v = input@;
        let ghost target = run_scan(v, Seq::<u8>::empty(), Seq::<u16>::empty());
        let ghost mut gk: int = 0;
        let ghost at_end = run_to_end(v);
        let ghost m: int = if exists|m: int| short_run(v, m) { choose|m: int| short_run(v, m) } else { -1 };
        proof {
            assert forall|m2: int| #[trigger] short_run(v, m2) implies m2 == m by {
                let m1 = choose|m: int| short_run(v, m);
                if m2 < m1 {
                    assert(v[m2] is Ok && is_b64_symbol(v[m2]->Ok_0));
                } else if m1 < m2 {
                    assert(v[m1] is Ok && is_b64_symbol(v[m1]->Ok_0));
                }
            }
        }
        let mut input_buffer: Vec<u8> = Vec::new();
        let mut decoded_buffer: Vec<u16> = Vec::new();
        let mut read_any = false;
        let mut reading = true;
        while reading
            invariant
                self.wf(),
                v == old(input)@,
                input@.len() <= old(input)@.len(),
                read_any && self.mode == Mode::Unicode ==> input@.len() < old(input)@.len(),
                !read_any ==> input@ == old(input)@ && self.mode == Mode::Unicode,
                reading ==> self.mode == Mode::Unicode,
                !reading ==> read_any,
                input_buffer@.len() < 8,
                m >= 0 ==> short_run(v, m) && decoded_buffer@.len() == 0,
                forall|m2: int| #[trigger] short_run(v, m2) ==> m2 == m,
                m >= 0 && reading ==> input_buffer@.len() <= m && input_buffer@ == item_bytes(v.take(input_buffer@.len() as int))
                    && input@ == v.skip(input_buffer@.len() as int),
                m >= 0 && !reading ==> input_buffer@ == item_bytes(v.take(m)) && self.mode == Mode::Direct && input@
                    == (if v[m] == Ok::<u8, CodeError>(45) { v.skip(m + 1) } else { v.skip(m) }),
                at_end == run_to_end(v),
                at_end ==> decoded_buffer@.len() == 0 && input_buffer@.len() <= v.len() && input_buffer@ == item_bytes(
                    v.take(input_buffer@.len() as int),
                ),
                at_end && reading ==> input@ == v.skip(input_buffer@.len() as int),
                at_end && !reading ==> input@.len() == 0 && input_buffer@.len() == v.len() && self.mode == Mode::Unicode,
                target == run_scan(v, Seq::<u8>::empty(), Seq::<u16>::empty()),
                reading ==> run_scan(input@, input_buffer@, decoded_buffer@) == target,
                !reading ==> target == (gk, input_buffer@, decoded_buffer@, input@, None::<CodeError>) && (gk == 0 || gk == 2
                    || gk == 3),
                !reading ==> self.mode == (if gk == 3 { Mode::Direct } else { Mode::Unicode }),
                read_any ==> v.len() > 0,
            decreases input@.len() + (if reading { 1int } else { 0int }),
        {
            let ghost k = input_buffer@.len() as int;
            let ghost before = input@;
            let byte = match input.get_byte() {
                Some(Ok(b)) => b,
                Some(Err(e)) => {
                    proof {
                        if m >= 0 {
                            assert(before[0] == v[k]);
                        }
                    }
                    return Some(Err(e));
                },
                None => {
                    if !read_any {
                        self.mode = Mode::Direct;
                        return None;
                    }
                    proof {
                        if at_end {
                            assert(v.len() == k);
                        }
                        gk = 0;
                    }
                    reading = false;
                    continue;
                },
            };
            proof {
                if at_end {
                    assert(before[0] == v[k]);
                    assert(before.drop_first() =~= v.skip(k + 1));
                }
                if m >= 0 {
                    assert(before[0] == v[k]);
                    assert(before.drop_first() =~= v.skip(k + 1));
                }
            }
            read_any = true;
            let ghost syms_before = input_buffer@;
            let ghost units_before = decoded_buffer@;
            if (65 <= byte && byte <= 90) || (97 <= byte && byte <= 122) || (48 <= byte && byte <= 57) || byte == 43
                || byte == 47 {
                input_buffer.push(byte);
                proof {
                    if m >= 0 || at_end {
                        assert(input_buffer@ =~= item_bytes(v.take(k + 1)));
                    }
                }
            } else {
                self.mode = Mode::Direct;
                if byte != 45 {
                    input.unget_byte(byte);
                    proof {
                        if m >= 0 {
                            assert(input@ =~= v.skip(m));
                        }
                        assert(input@ =~= before);
                    }
                }
                proof {
                    gk = 3;
                }
                reading = false;
            }
            if reading && input_buffer.len() == 8 {
                proof {
                    if at_end {
                        assert(before[0] == v[k]);
                        assert(input_buffer@.len() == k + 1 && k + 1 <= v.len());
                    }
                }
                let chunk = match self.base64.decode(input_buffer.as_slice()) {
                    Ok(b) => b,
                    Err((_b, e)) => {
                        return Some(Err(e));
                    },
                };
                input_buffer.clear();
                push_units(&mut decoded_buffer, &chunk);
                let ends_high = decoded_buffer.len() > 0 && high_surrogate(decoded_buffer[decoded_buffer.len() - 1]).is_some();
                if !ends_high {
                    reading = false;
                    proof {
                        gk = 2;
                    }
                }
            }
        }
        proof {
            if at_end {
                assert(v.take(v.len() as int) =~= v);
            }
        }
        let rest = match self.base64.decode(input_buffer.as_slice()) {
            Ok(b) => b,
            Err((_b, e)) => {
                return Some(Err(e));
            },
        };
        push_units(&mut decoded_buffer, &rest);
        proof {
            if m >= 0 || at_end {
                assert(decoded_buffer@ =~= be_units(rest@));
            }
            if at_end {
                assert(v.take(v.len() as int) =~= v);
            }
        }
        match resolve(&decoded_buffer) {
            Ok(out) => Some(Ok(out)),
            Err(e) => Some(Err(e)),
        }
    }

    pub fn replacement(&self) -> (r: Vec<u8>)
        ensures
            r@ == replacement_codepoint_bytes(),
    {
        unicode_replacement()
    }
}


/// Codepoints in the four-byte big-endian wire form, as items.
pub open spec fn codepoint_items(cps: Seq<u32>) -> Seq<Item>
    decreases cps.len(),
{
    if cps.len() == 0 {
        seq![]
    } else {
        byte_items(be32_bytes(cps[0])) + codepoint_items(cps.drop_first())
    }
}

/// Codepoints below 0x100 as items of one byte each.
pub open spec fn text_items(cps: Seq<u32>) -> Seq<Item>
    decreases cps.len(),
{
    if cps.len() == 0 {
        seq![]
    } else {
        seq![Ok::<u8, CodeError>(cps[0] as u8)] + text_items(cps.drop_first())
    }
}

/// A run of calls of the UTF-7 encoder that starts in the direct state:
/// each call on a direct codepoint in the direct state writes that byte and
/// stays direct, as the encoder's contract states it.
pub open spec fn utf7_encoder_run(states: Seq<Seq<Item>>, modes: Seq<Mode>, results: Seq<Option<Result<Vec<u8>, CodeError>>>) -> bool {
    &&& states.len() == results.len() + 1
    &&& modes.len() == results.len() + 1
    &&& forall|i: int| 0 <= i < results.len() ==> {
        &&& four_bytes(#[trigger] states[i]) ==> states[i + 1] == states[i].skip(4)
        &&& (four_bytes(states[i]) && is_direct(codepoint_at(states[i])) && modes[i] == Mode::Direct) ==> {
            &&& modes[i + 1] == Mode::Direct
            &&& results[i] matches Some(Ok(out)) && out@ == seq![codepoint_at(states[i]) as u8]
        }
    }
}

/// A run of calls of the UTF-7 decoder that starts in the direct state:
/// each call on a direct byte other than `+` writes its codepoint and stays
/// direct, as the decoder's contract states it.
pub open spec fn utf7_decoder_run(states: Seq<Seq<Item>>, modes: Seq<Mode>, results: Seq<Option<Result<Vec<u8>, CodeError>>>) -> bool {
    &&& states.len() == results.len() + 1
    &&& modes.len() == results.len() + 1
    &&& forall|i: int| 0 <= i < results.len() ==> {
        (modes[i] == Mode::Direct && (#[trigger] states[i]).len() > 0 && states[i][0] is Ok && states[i][0]->Ok_0 < 0x80
            && states[i][0]->Ok_0 != 43) ==> {
            &&& results[i] matches Some(Ok(out)) && out@ == be32_bytes(states[i][0]->Ok_0 as u32)
            &&& states[i + 1] == states[i].drop_first()
            &&& modes[i + 1] == Mode::Direct
        }
    }
}

/// UTF-7 round trip of text written directly: for codepoints that UTF-7
/// writes as themselves, the encoder, starting direct, writes each as its
/// byte, and the decoder, starting direct, reads each byte back as its
/// codepoint. Runs of modified Base64 are not covered here.
pub proof fn lemma_utf7_direct_round_trip(
    cps: Seq<u32>,
    enc_states: Seq<Seq<Item>>,
    enc_modes: Seq<Mode>,
    enc_results: Seq<Option<Result<Vec<u8>, CodeError>>>,
    dec_states: Seq<Seq<Item>>,
    dec_modes: Seq<Mode>,
    dec_results: Seq<Option<Result<Vec<u8>, CodeError>>>,
)
    requires
        forall|i: int| 0 <= i < cps.len() ==> is_direct(#[trigger] cps[i]),
        enc_results.len() == cps.len(),
        utf7_encoder_run(enc_states, enc_modes, enc_results),
        enc_states[0] == codepoint_items(cps),
        enc_modes[0] == Mode::Direct,
        dec_results.len() == cps.len(),
        utf7_decoder_run(dec_states, dec_modes, dec_results),
        dec_states[0] == text_items(cps),
        dec_modes[0] == Mode::Direct,
    ensures
        forall|i: int| 0 <= i < cps.len() ==> gives(#[trigger] enc_results[i], seq![cps[i] as u8]),
        forall|i: int| 0 <= i < cps.len() ==> gives(#[trigger] dec_results[i], be32_bytes(cps[i])),
{
    assert(cps.skip(0) =~= cps);
    lemma_direct_from(cps, enc_states, enc_modes, enc_results, dec_states, dec_modes, dec_results, 0);
}

proof fn lemma_direct_from(
    cps: Seq<u32>,
    enc_states: Seq<Seq<Item>>,
    enc_modes: Seq<Mode>,
    enc_results: Seq<Option<Result<Vec<u8>, CodeError>>>,
    dec_states: Seq<Seq<Item>>,
    dec_modes: Seq<Mode>,
    dec_results: Seq<Option<Result<Vec<u8>, CodeError>>>,
    k: int,
)
    requires
        0 <= k <= cps.len(),
        forall|i: int| 0 <= i < cps.len() ==> is_direct(#[trigger] cps[i]),
        enc_results.len() == cps.len(),
        utf7_encoder_run(enc_states, enc_modes, enc_results),
        enc_states[k] == codepoint_items(cps.skip(k)),
        enc_modes[k] == Mode::Direct,
        dec_results.len() == cps.len(),
        utf7_decoder_run(dec_states, dec_modes, dec_results),
        dec_states[k] == text_items(cps.skip(k)),
        dec_modes[k] == Mode::Direct,
    ensures
        forall|i: int| k <= i < cps.len() ==> gives(#[trigger] enc_results[i], seq![cps[i] as u8]),
        forall|i: int| k <= i < cps.len() ==> gives(#[trigger] dec_results[i], be32_bytes(cps[i])),
    decreases cps.len() - k,
{
    if k < cps.len() {
        let cp = cps[k];
        assert(cps.skip(k).drop_first() =~= cps.skip(k + 1));
        assert(cps.skip(k)[0] == cp);
        crate::utils::lemma_be32_round_trip(cp);
        let v = enc_states[k];
        let rest = codepoint_items(cps.skip(k + 1));
        assert(v =~= byte_items(be32_bytes(cp)) + rest);
        assert(four_bytes(v));
        assert(item_bytes(v.take(4)) =~= be32_bytes(cp));
        assert(codepoint_at(v) == cp);
        assert(v.skip(4) =~= rest);
        let d = dec_states[k];
        assert(d =~= seq![Ok::<u8, CodeError>(cp as u8)] + text_items(cps.skip(k + 1)));
        assert(d.drop_first() =~= text_items(cps.skip(k + 1)));
        assert(d[0] == Ok::<u8, CodeError>(cp as u8));
        lemma_direct_from(cps, enc_states, enc_modes, enc_results, dec_states, dec_modes, dec_results, k + 1);
    }
}

proof fn lemma_symbols_in_alphabet(b: Seq<u8>)
    ensures
        forall|i: int| 0 <= i < spec_modified_base64().symbols(b).len() ==> is_b64_symbol(
            #[trigger] spec_modified_base64().symbols(b)[i],
        ),
{
    crate::base64::lemma_sixes(b);
}

/// UTF-7 round trip of a codepoint that needs a surrogate pair: the run
/// that the encoder writes for it between `+` and `-` (the modified Base64
/// of its UTF-16 form, six symbols) is a short run, and decoding that run
/// gives back the codepoint and leaves what follows the `-`.
pub proof fn lemma_utf7_pair_round_trip(
    cp: u32,
    tail: Seq<Item>,
    r: Option<Result<Vec<u8>, CodeError>>,
    mode: Mode,
    w: Seq<Item>,
)
    requires
        0x10000 <= cp <= 0x10FFFF,
        run_decoded(
            byte_items(spec_modified_base64().spec_encode(utf16_encode_spec(cp, true)->Some_0)) + seq![
                Ok::<u8, CodeError>(45),
            ] + tail,
            6,
            r,
            mode,
            w,
        ),
    ensures
        spec_modified_base64().spec_encode(utf16_encode_spec(cp, true)->Some_0).len() == 6,
        short_run(
            byte_items(spec_modified_base64().spec_encode(utf16_encode_spec(cp, true)->Some_0)) + seq![
                Ok::<u8, CodeError>(45),
            ] + tail,
            6,
        ),
        r matches Some(Ok(out)) && out@ == be32_bytes(cp),
        w == tail,
        mode == Mode::Direct,
{
    let b64 = spec_modified_base64();
    let u = utf16_encode_spec(cp, true)->Some_0;
    let hi = (0xD800 + (cp - 0x10000) / 0x400) as u16;
    let lo = (0xDC00 + (cp - 0x10000) % 0x400) as u16;
    assert(u.len() == 4);
    assert(u.skip(3).len() == 1);
    assert(sixes(u.skip(3)).len() == 2);
    assert(sixes(u).len() == 6);
    let s = b64.spec_encode(u);
    assert(s == b64.symbols(u));
    lemma_symbols_in_alphabet(u);
    let v = byte_items(s) + seq![Ok::<u8, CodeError>(45)] + tail;
    assert forall|i: int| 0 <= i < 6 implies (#[trigger] v[i]) is Ok && is_b64_symbol(v[i]->Ok_0) by {
        assert(v[i] == Ok::<u8, CodeError>(s[i]));
    }
    assert(v[6] == Ok::<u8, CodeError>(45));
    assert(item_bytes(v.take(6)) =~= s);
    crate::base64::lemma_base64_round_trip(b64, u);
    assert(u =~= seq![(hi / 0x100) as u8, (hi % 0x100) as u8, (lo / 0x100) as u8, (lo % 0x100) as u8]);
    assert(u.skip(2).skip(2) =~= Seq::<u8>::empty());
    assert(be_units(u.skip(2).skip(2)) =~= Seq::<u16>::empty());
    assert(u.skip(2)[0] == u[2] && u.skip(2)[1] == u[3]);
    assert((u[2] as int * 0x100 + u[3] as int) as u16 == lo);
    assert((u[0] as int * 0x100 + u[1] as int) as u16 == hi);
    assert(be_units(u.skip(2)) =~= seq![lo]);
    assert(be_units(u) =~= seq![hi, lo]);
    assert(seq![hi, lo].skip(2) =~= Seq::<u16>::empty());
    assert(pair_value(hi as int, lo as int) == cp as int);
    assert(is_high(hi as int) && is_low(lo as int));
    assert(resolve_units(seq![hi, lo].skip(2)) == Some(Seq::<u8>::empty()));
    assert(seq![hi, lo][0] == hi && seq![hi, lo][1] == lo);
    assert(resolve_units(seq![hi, lo]) == Some(be32_bytes(cp) + Seq::<u8>::empty()));
    assert(be32_bytes(cp) + Seq::<u8>::empty() =~= be32_bytes(cp));
    assert(v.skip(7) =~= tail);
}

proof fn lemma_scan_symbols(v: Seq<Item>, syms: Seq<u8>, units: Seq<u16>, j: int)
    requires
        0 <= j <= v.len(),
        syms.len() + j < 8,
        forall|i: int| 0 <= i < j ==> (#[trigger] v[i]) is Ok && is_b64_symbol(v[i]->Ok_0),
    ensures
        run_scan(v, syms, units) == run_scan(v.skip(j), syms + item_bytes(v.take(j)), units),
    decreases j,
{
    if j == 0 {
        assert(v.skip(0) =~= v);
        assert(syms + item_bytes(v.take(0)) =~= syms);
    } else {
        let b = v[0]->Ok_0;
        assert(v[0] is Ok && is_b64_symbol(b));
        let v1 = v.drop_first();
        assert forall|i: int| 0 <= i < j - 1 implies (#[trigger] v1[i]) is Ok && is_b64_symbol(v1[i]->Ok_0) by {
            assert(v1[i] == v[i + 1]);
        }
        lemma_scan_symbols(v1, syms.push(b), units, j - 1);
        assert(v1.skip(j - 1) =~= v.skip(j));
        assert(syms.push(b) + item_bytes(v1.take(j - 1)) =~= syms + item_bytes(v.take(j)));
    }
}

proof fn lemma_sixes_concat(x: Seq<u8>, y: Seq<u8>)
    requires
        x.len() % 3 == 0,
    ensures
        sixes(x + y) == sixes(x) + sixes(y),
    decreases x.len(),
{
    if x.len() == 0 {
        assert(x + y =~= y);
        assert(sixes(x) =~= Seq::<u8>::empty());
        assert(sixes(x) + sixes(y) =~= sixes(y));
    } else {
        lemma_sixes_concat(x.skip(3), y);
        assert((x + y).skip(3) =~= x.skip(3) + y);
        assert((x + y)[0] == x[0] && (x + y)[1] == x[1] && (x + y)[2] == x[2]);
        assert(sixes(x + y) =~= sixes(x) + sixes(y));
    }
}

/// The run for two surrogate pairs: its eleven symbols are the eight of
/// the first six UTF-16 bytes and the three of the last two.
proof fn lemma_two_pair_symbols(a: Seq<u8>, c: Seq<u8>)
    requires
        a.len() == 6,
        c.len() == 2,
    ensures
        spec_modified_base64().spec_encode(a + c) == spec_modified_base64().spec_encode(a) + spec_modified_base64().spec_encode(c),
        spec_modified_base64().spec_encode(a).len() == 8,
        spec_modified_base64().spec_encode(c).len() == 3,
{
    let b64 = spec_modified_base64();
    lemma_sixes_concat(a, c);
    assert(a.skip(3).skip(3) =~= Seq::<u8>::empty());
    assert(sixes(Seq::<u8>::empty()) =~= Seq::<u8>::empty());
    assert(sixes(a.skip(3)).len() == 4);
    assert(sixes(a).len() == 8);
    assert(sixes(c).len() == 3);
    assert(b64.symbols(a + c) =~= b64.symbols(a) + b64.symbols(c));
}

/// The UTF-16 units of two surrogate pairs, split after the first six bytes.
proof fn lemma_two_pair_units(cp1: u32, cp2: u32)
    requires
        0x10000 <= cp1 <= 0x10FFFF,
        0x10000 <= cp2 <= 0x10FFFF,
    ensures
        ({
            let u = utf16_encode_spec(cp1, true)->Some_0 + utf16_encode_spec(cp2, true)->Some_0;
            let h1 = (0xD800 + (cp1 - 0x10000) / 0x400) as u16;
            let l1 = (0xDC00 + (cp1 - 0x10000) % 0x400) as u16;
            let h2 = (0xD800 + (cp2 - 0x10000) / 0x400) as u16;
            let l2 = (0xDC00 + (cp2 - 0x10000) % 0x400) as u16;
            &&& u.len() == 8
            &&& be_units(u.take(6)) == seq![h1, l1, h2]
            &&& be_units(u.skip(6)) == seq![l2]
            &&& resolve_units(seq![h1, l1, h2, l2]) == Some(be32_bytes(cp1) + be32_bytes(cp2))
        }),
{
    let u = utf16_encode_spec(cp1, true)->Some_0 + utf16_encode_spec(cp2, true)->Some_0;
    let h1 = (0xD800 + (cp1 - 0x10000) / 0x400) as u16;
    let l1 = (0xDC00 + (cp1 - 0x10000) % 0x400) as u16;
    let h2 = (0xD800 + (cp2 - 0x10000) / 0x400) as u16;
    let l2 = (0xDC00 + (cp2 - 0x10000) % 0x400) as u16;
    let a = u.take(6);
    let c = u.skip(6);
    assert(a =~= seq![(h1 / 0x100) as u8, (h1 % 0x100) as u8, (l1 / 0x100) as u8, (l1 % 0x100) as u8, (h2 / 0x100) as u8, (h2 % 0x100) as u8]);
    assert(c =~= seq![(l2 / 0x100) as u8, (l2 % 0x100) as u8]);
    assert(be_units(a.skip(2).skip(2).skip(2)) =~= Seq::<u16>::empty());
    assert(be_units(a.skip(2).skip(2)) =~= seq![h2]);
    assert(be_units(a.skip(2)) =~= seq![l1, h2]);
    assert(be_units(a) =~= seq![h1, l1, h2]);
    assert(be_units(c.skip(2)) =~= Seq::<u16>::empty());
    assert(be_units(c) =~= seq![l2]);
    let all = seq![h1, l1, h2, l2];
    assert(is_high(h1 as int) && is_low(l1 as int) && is_high(h2 as int) && is_low(l2 as int));
    assert(pair_value(h1 as int, l1 as int) == cp1 as int);
    assert(pair_value(h2 as int, l2 as int) == cp2 as int);
    assert(all.skip(2) =~= seq![h2, l2]);
    assert(seq![h2, l2].skip(2) =~= Seq::<u16>::empty());
    assert(resolve_units(seq![h2, l2].skip(2)) == Some(Seq::<u8>::empty()));
    assert(seq![h2, l2][0] == h2 && seq![h2, l2][1] == l2);
    assert(resolve_units(seq![h2, l2]) == Some(be32_bytes(cp2) + Seq::<u8>::empty()));
    assert(be32_bytes(cp2) + Seq::<u8>::empty() =~= be32_bytes(cp2));
    assert(all[0] == h1 && all[1] == l1);
}

/// UTF-7 round trip of two codepoints that need surrogate pairs: the run
/// the encoder writes for them (the modified Base64 of their eight UTF-16
/// bytes, eleven symbols) is read as a group of eight symbols and a rest
/// of three, and decoding it gives back both codepoints and leaves what
/// follows the closing `-`.
#[verifier::rlimit(100)]
pub proof fn lemma_utf7_two_pairs_round_trip(
    cp1: u32,
    cp2: u32,
    tail: Seq<Item>,
    r: Option<Result<Vec<u8>, CodeError>>,
    mode: Mode,
    w: Seq<Item>,
)
    requires
        0x10000 <= cp1 <= 0x10FFFF,
        0x10000 <= cp2 <= 0x10FFFF,
        run_result(
            run_scan(
                byte_items(
                    spec_modified_base64().spec_encode(
                        utf16_encode_spec(cp1, true)->Some_0 + utf16_encode_spec(cp2, true)->Some_0,
                    ),
                ) + seq![Ok::<u8, CodeError>(45)] + tail,
                Seq::<u8>::empty(),
                Seq::<u16>::empty(),
            ),
            r,
            mode,
            w,
        ),
    ensures
        spec_modified_base64().spec_encode(utf16_encode_spec(cp1, true)->Some_0 + utf16_encode_spec(cp2, true)->Some_0).len()
            == 11,
        r matches Some(Ok(out)) && out@ == be32_bytes(cp1) + be32_bytes(cp2),
        w == tail,
        mode == Mode::Direct,
{
    let b64 = spec_modified_base64();
    let u = utf16_encode_spec(cp1, true)->Some_0 + utf16_encode_spec(cp2, true)->Some_0;
    lemma_two_pair_units(cp1, cp2);
    let h1 = (0xD800 + (cp1 - 0x10000) / 0x400) as u16;
    let l1 = (0xDC00 + (cp1 - 0x10000) % 0x400) as u16;
    let h2 = (0xD800 + (cp2 - 0x10000) / 0x400) as u16;
    let l2 = (0xDC00 + (cp2 - 0x10000) % 0x400) as u16;
    let a = u.take(6);
    let c = u.skip(6);
    assert(a + c =~= u);
    lemma_two_pair_symbols(a, c);
    let sa = b64.spec_encode(a);
    let sc = b64.spec_encode(c);
    let s = b64.spec_encode(u);
    lemma_symbols_in_alphabet(u);
    let v = byte_items(s) + seq![Ok::<u8, CodeError>(45)] + tail;
    assert forall|i: int| 0 <= i < 11 implies (#[trigger] v[i]) is Ok && is_b64_symbol(v[i]->Ok_0) by {
        assert(v[i] == Ok::<u8, CodeError>(s[i]));
    }
    lemma_scan_symbols(v, Seq::<u8>::empty(), Seq::<u16>::empty(), 7);
    assert(Seq::<u8>::empty() + item_bytes(v.take(7)) =~= sa.take(7));
    let v7 = v.skip(7);
    assert(v7[0] == v[7]);
    assert(sa.take(7).push(sa[7]) =~= sa);
    crate::base64::lemma_base64_round_trip(b64, a);
    crate::base64::lemma_base64_round_trip(b64, c);
    let units = seq![h1, l1, h2];
    assert(Seq::<u16>::empty() + be_units(a) =~= units);
    assert(units.last() == h2);
    assert(run_scan(v7, sa.take(7), Seq::<u16>::empty()) == run_scan(v7.drop_first(), Seq::<u8>::empty(), units));
    let v8 = v7.drop_first();
    assert(v8 =~= v.skip(8));
    assert forall|i: int| 0 <= i < 3 implies (#[trigger] v8[i]) is Ok && is_b64_symbol(v8[i]->Ok_0) by {
        assert(v8[i] == v[i + 8]);
    }
    lemma_scan_symbols(v8, Seq::<u8>::empty(), units, 3);
    assert(Seq::<u8>::empty() + item_bytes(v8.take(3)) =~= sc);
    let v11 = v8.skip(3);
    assert(v11[0] == Ok::<u8, CodeError>(45));
    assert(v11.drop_first() =~= tail);
    assert(run_scan(v11, sc, units) == (3int, sc, units, tail, None::<CodeError>));
    assert(units + be_units(c) =~= seq![h1, l1, h2, l2]);
}
} // verus!
