use vstd::prelude::*;
use crate::encoding::{BufferedInput, CodeError, Item, item_bytes};

verus! {

/// A Base64 alphabet: `A-Z`, `a-z`, `0-9`, two chosen symbols for the values
/// 62 and 63, and an optional pad symbol.
#[derive(Debug, Clone, Copy)]
pub struct Base64 {
    pub code62: u8,
    pub code63: u8,
    pub pad: Option<u8>,
}

/// Whether `c` is one of `A-Z`, `a-z`, `0-9`.
pub open spec fn is_alnum(c: u8) -> bool {
    (65 <= c <= 90) || (97 <= c <= 122) || (48 <= c <= 57)
}

/// The 6-bit values of a byte sequence, four for each full group of three
/// bytes, and two or three for a trailing group of one or two bytes.
pub open spec fn sixes(b: Seq<u8>) -> Seq<u8>
    decreases b.len(),
{
    if b.len() == 0 {
        seq![]
    } else if b.len() == 1 {
        seq![b[0] / 4, ((b[0] % 4) * 16) as u8]
    } else if b.len() == 2 {
        seq![b[0] / 4, ((b[0] % 4) * 16 + b[1] / 16) as u8, ((b[1] % 16) * 4) as u8]
    } else {
        seq![b[0] / 4, ((b[0] % 4) * 16 + b[1] / 16) as u8, ((b[1] % 16) * 4 + b[2] / 64) as u8, b[2] % 64]
            + sixes(b.skip(3))
    }
}

/// The bytes that a sequence of 6-bit values packs: three for each full
/// group of four, and one or two for a trailing group of two or three. A
/// trailing single value holds no full byte.
pub open spec fn unsix(v: Seq<u8>) -> Seq<u8>
    decreases v.len(),
{
    if v.len() <= 1 {
        seq![]
    } else if v.len() == 2 {
        seq![(v[0] * 4 + v[1] / 16) as u8]
    } else if v.len() == 3 {
        seq![(v[0] * 4 + v[1] / 16) as u8, ((v[1] % 16) * 16 + v[2] / 4) as u8]
    } else {
        seq![(v[0] * 4 + v[1] / 16) as u8, ((v[1] % 16) * 16 + v[2] / 4) as u8, ((v[2] % 4) * 64 + v[3]) as u8]
            + unsix(v.skip(4))
    }
}

impl Base64 {
    /// The alphabet decodes unambiguously: the two special symbols differ from
    /// each other and from `A-Z`, `a-z`, `0-9`, and the pad symbol is none of them.
    pub open spec fn wf(&self) -> bool {
        &&& self.code62 != self.code63
        &&& !is_alnum(self.code62)
        &&& !is_alnum(self.code63)
        &&& self.pad matches Some(p) ==> (!is_alnum(p) && p != self.code62 && p != self.code63)
    }

    /// The symbol for a 6-bit value.
    pub open spec fn symbol(&self, n: u8) -> u8 {
        if n < 26 {
            (65 + n) as u8
        } else if n < 52 {
            (97 + n - 26) as u8
        } else if n < 62 {
            (48 + n - 52) as u8
        } else if n == 62 {
            self.code62
        } else {
            self.code63
        }
    }

    /// The 6-bit value of a symbol; the two special symbols are looked at first.
    pub open spec fn value_of(&self, c: u8) -> Option<u8> {
        if c == self.code62 {
            Some(62u8)
        } else if c == self.code63 {
            Some(63u8)
        } else if 65 <= c <= 90 {
            Some((c - 65) as u8)
        } else if 97 <= c <= 122 {
            Some((c - 97 + 26) as u8)
        } else if 48 <= c <= 57 {
            Some((c - 48 + 52) as u8)
        } else {
            None
        }
    }

    /// The symbols of a byte sequence, without padding.
    pub open spec fn symbols(&self, b: Seq<u8>) -> Seq<u8> {
        sixes(b).map_values(|n: u8| self.symbol(n))
    }

    /// The encoded form of `b`: its symbols, padded to a multiple of four when
    /// a pad symbol is set.
    pub open spec fn spec_encode(&self, b: Seq<u8>) -> Seq<u8> {
        let s = self.symbols(b);
        match self.pad {
            Some(p) => s + Seq::new(((4 - s.len() % 4) % 4) as nat, |i: int| p),
            None => s,
        }
    }

    /// How much of `s` is data: at most two trailing pad symbols are left out,
    /// and only from an input longer than one symbol.
    pub open spec fn data_len(&self, s: Seq<u8>) -> int {
        match self.pad {
            Some(p) => if s.len() > 1 && s[s.len() - 1] == p {
                if s.len() > 2 && s[s.len() - 2] == p {
                    s.len() - 2
                } else {
                    s.len() - 1
                }
            } else {
                s.len() as int
            },
            None => s.len() as int,
        }
    }

    /// The number of leading symbols of `s` that are in the alphabet.
    pub open spec fn valid_prefix_len(&self, s: Seq<u8>) -> int
        decreases s.len(),
    {
        if s.len() == 0 {
            0
        } else if self.value_of(s[0]) is None {
            0
        } else {
            1 + self.valid_prefix_len(s.drop_first())
        }
    }

    /// The 6-bit values of a sequence of symbols of the alphabet.
    pub open spec fn values(&self, s: Seq<u8>) -> Seq<u8> {
        s.map_values(|c: u8| self.value_of(c)->Some_0)
    }

    /// Decoding `s`: `Ok` with the bytes, or `Err` with the bytes decoded before
    /// the fault. A symbol outside the alphabet in the data is a fault; so is,
    /// with padding set, data that is not a multiple of four symbols in an
    /// input that is not either. Without padding, a lone trailing symbol still
    /// gives a byte of its six bits.
    pub open spec fn spec_decode(&self, s: Seq<u8>) -> Result<Seq<u8>, Seq<u8>> {
        let data = s.take(self.data_len(s));
        let k = self.valid_prefix_len(data);
        if k < data.len() {
            Err(unsix(self.values(data.take(k))))
        } else {
            let vals = self.values(data);
            let out = if self.pad is None && data.len() % 4 == 1 {
                unsix(vals).push((vals.last() * 4) as u8)
            } else {
                unsix(vals)
            };
            if self.pad is Some && data.len() % 4 != 0 && s.len() % 4 != 0 {
                Err(out)
            } else {
                Ok(out)
            }
        }
    }
}


proof fn lemma_symbols_step(b64: Base64, s: Seq<u8>)
    requires
        s.len() > 0,
    ensures
        s.len() == 1 ==> b64.symbols(s) == seq![b64.symbol(s[0] / 4), b64.symbol(((s[0] % 4) * 16) as u8)],
        s.len() == 2 ==> b64.symbols(s) == seq![
            b64.symbol(s[0] / 4),
            b64.symbol(((s[0] % 4) * 16 + s[1] / 16) as u8),
            b64.symbol(((s[1] % 16) * 4) as u8),
        ],
        s.len() >= 3 ==> b64.symbols(s) == seq![
            b64.symbol(s[0] / 4),
            b64.symbol(((s[0] % 4) * 16 + s[1] / 16) as u8),
            b64.symbol(((s[1] % 16) * 4 + s[2] / 64) as u8),
            b64.symbol(s[2] % 64),
        ] + b64.symbols(s.skip(3)),
{
    if s.len() == 1 {
        assert(b64.symbols(s) =~= seq![b64.symbol(s[0] / 4), b64.symbol(((s[0] % 4) * 16) as u8)]);
    } else if s.len() == 2 {
        assert(b64.symbols(s) =~= seq![
            b64.symbol(s[0] / 4),
            b64.symbol(((s[0] % 4) * 16 + s[1] / 16) as u8),
            b64.symbol(((s[1] % 16) * 4) as u8),
        ]);
    } else {
        assert(b64.symbols(s) =~= seq![
            b64.symbol(s[0] / 4),
            b64.symbol(((s[0] % 4) * 16 + s[1] / 16) as u8),
            b64.symbol(((s[1] % 16) * 4 + s[2] / 64) as u8),
            b64.symbol(s[2] % 64),
        ] + b64.symbols(s.skip(3)));
    }
}

proof fn lemma_unsix_step(v: Seq<u8>)
    requires
        v.len() >= 4,
    ensures
        unsix(v) == seq![
            (v[0] * 4 + v[1] / 16) as u8,
            ((v[1] % 16) * 16 + v[2] / 4) as u8,
            ((v[2] % 4) * 64 + v[3]) as u8,
        ] + unsix(v.skip(4)),
{
}

impl Base64 {
    proof fn lemma_valid_prefix(&self, s: Seq<u8>, i: int)
        requires
            0 <= i <= s.len(),
            forall|j: int| 0 <= j < i ==> self.value_of(#[trigger] s[j]) is Some,
            i < s.len() ==> self.value_of(s[i]) is None,
        ensures
            self.valid_prefix_len(s) == i,
        decreases i,
    {
        if i > 0 {
            assert(forall|j: int| 0 <= j < i - 1 ==> s.drop_first()[j] == s[j + 1]);
            self.lemma_valid_prefix(s.drop_first(), i - 1);
        }
    }

    fn encode_internal(&self, n: u8) -> (r: u8)
        requires
            n < 64,
        ensures
            r == self.symbol(n),
    {
        if n < 26 {
            65 + n
        } else if n < 52 {
            97 + (n - 26)
        } else if n < 62 {
            48 + (n - 52)
        } else if n == 62 {
            self.code62
        } else {
            self.code63
        }
    }

    fn decode_internal(&self, n: u8) -> (r: Result<u8, String>)
        ensures
            r is Ok <==> self.value_of(n) is Some,
            r matches Ok(v) ==> self.value_of(n) == Some(v) && v < 64,
    {
        if n == self.code62 {
            Ok(62)
        } else if n == self.code63 {
            Ok(63)
        } else if 65 <= n && n <= 90 {
            Ok(n - 65)
        } else if 97 <= n && n <= 122 {
            Ok(n - 97 + 26)
        } else if 48 <= n && n <= 57 {
            Ok(n - 48 + 52)
        } else if self.pad == Some(n) {
            Err("unexpected pad character".to_owned())
        } else {
            Err("invalid Base64 character".to_owned())
        }
    }

    /// Encodes `bytes`, padding the output when a pad symbol is set.
    pub fn encode(&self, bytes: &[u8]) -> (r: Vec<u8>)
        ensures
            r@ == self.spec_encode(bytes@),
    {
        let mut out: Vec<u8> = Vec::new();
        let mut pos: usize = 0;
        let len = bytes.len();
        assert(bytes@.skip(0) =~= bytes@);
        assert(out@ + self.symbols(bytes@) =~= self.symbols(bytes@));
        while pos < len
            invariant
                len == bytes@.len(),
                pos <= len,
                out@ + self.symbols(bytes@.skip(pos as int)) == self.symbols(bytes@),
            decreases len - pos,
        {
            let ghost rest = bytes@.skip(pos as int);
            proof {
                lemma_symbols_step(*self, rest);
            }
            let a = bytes[pos];
            if len - pos == 1 {
                out.push(self.encode_internal(a / 4));
                out.push(self.encode_internal((a % 4) * 16));
                pos = pos + 1;
            } else if len - pos == 2 {
                let b = bytes[pos + 1];
                out.push(self.encode_internal(a / 4));
                out.push(self.encode_internal((a % 4) * 16 + b / 16));
                out.push(self.encode_internal((b % 16) * 4));
                pos = pos + 2;
            } else {
                let b = bytes[pos + 1];
                let c = bytes[pos + 2];
                out.push(self.encode_internal(a / 4));
                out.push(self.encode_internal((a % 4) * 16 + b / 16));
                out.push(self.encode_internal((b % 16) * 4 + c / 64));
                out.push(self.encode_internal(c % 64));
                pos = pos + 3;
                assert(rest.skip(3) =~= bytes@.skip(pos as int));
            }
            proof {
                if pos == len {
                    assert(bytes@.skip(pos as int) =~= Seq::<u8>::empty());
                    assert(self.symbols(Seq::<u8>::empty()) =~= Seq::<u8>::empty());
                }
            }
            assert(out@ + self.symbols(bytes@.skip(pos as int)) =~= self.symbols(bytes@));
        }
        assert(bytes@.skip(pos as int) =~= Seq::<u8>::empty());
        assert(self.symbols(Seq::<u8>::empty()) =~= Seq::<u8>::empty());
        assert(out@ =~= self.symbols(bytes@));
        if let Some(p) = self.pad {
            let ghost s = out@;
            let npad: usize = (4 - out.len() % 4) % 4;
            let mut i: usize = 0;
            while i < npad
                invariant
                    i <= npad,
                    out@ == s + Seq::new(i as nat, |j: int| p),
                decreases npad - i,
            {
                out.push(p);
                i = i + 1;
                assert(out@ =~= s + Seq::new(i as nat, |j: int| p));
            }
        }
        out
    }

    fn unsix_all(vals: &Vec<u8>) -> (r: Vec<u8>)
        requires
            forall|i: int| 0 <= i < vals@.len() ==> #[trigger] vals@[i] < 64,
        ensures
            r@ == unsix(vals@),
    {
        let mut out: Vec<u8> = Vec::new();
        let mut pos: usize = 0;
        let len = vals.len();
        assert(vals@.skip(0) =~= vals@);
        assert(out@ + unsix(vals@) =~= unsix(vals@));
        while len - pos >= 4
            invariant
                len == vals@.len(),
                pos <= len,
                forall|i: int| 0 <= i < vals@.len() ==> #[trigger] vals@[i] < 64,
                out@ + unsix(vals@.skip(pos as int)) == unsix(vals@),
            decreases len - pos,
        {
            let ghost rest = vals@.skip(pos as int);
            proof {
                lemma_unsix_step(rest);
            }
            let a = vals[pos];
            let b = vals[pos + 1];
            let c = vals[pos + 2];
            let d = vals[pos + 3];
            out.push(a * 4 + b / 16);
            out.push((b % 16) * 16 + c / 4);
            out.push((c % 4) * 64 + d);
            pos = pos + 4;
            assert(rest.skip(4) =~= vals@.skip(pos as int));
            assert(out@ + unsix(vals@.skip(pos as int)) =~= unsix(vals@));
        }
        let ghost rest = vals@.skip(pos as int);
        if len - pos >= 2 {
            let a = vals[pos];
            let b = vals[pos + 1];
            out.push(a * 4 + b / 16);
            if len - pos == 3 {
                let c = vals[pos + 2];
                out.push((b % 16) * 16 + c / 4);
            }
        }
        assert(out@ =~= unsix(vals@));
        out
    }

    /// Decodes `bytes`. On a fault, the error comes with the bytes decoded
    /// before it.
    pub fn decode(&self, bytes: &[u8]) -> (r: Result<Vec<u8>, (Vec<u8>, CodeError)>)
        ensures
            match r {
                Ok(v) => self.spec_decode(bytes@) == Ok::<Seq<u8>, Seq<u8>>(v@),
                Err((v, _)) => self.spec_decode(bytes@) == Err::<Seq<u8>, Seq<u8>>(v@),
            },
    {
        let len = bytes.len();
        let data_len: usize = match self.pad {
            Some(p) => if len > 1 && bytes[len - 1] == p {
                if len > 2 && bytes[len - 2] == p {
                    len - 2
                } else {
                    len - 1
                }
            } else {
                len
            },
            None => len,
        };
        assert(data_len == self.data_len(bytes@));
        let ghost data = bytes@.take(data_len as int);
        let mut vals: Vec<u8> = Vec::new();
        let mut i: usize = 0;
        while i < data_len
            invariant
                data_len <= len == bytes@.len(),
                data_len == self.data_len(bytes@),
                data == bytes@.take(data_len as int),
                i <= data_len,
                vals@ == self.values(data.take(i as int)),
                forall|j: int| 0 <= j < i ==> self.value_of(#[trigger] data[j]) is Some,
                forall|j: int| 0 <= j < vals@.len() ==> #[trigger] vals@[j] < 64,
            decreases data_len - i,
        {
            match self.decode_internal(bytes[i]) {
                Ok(v) => {
                    vals.push(v);
                    i = i + 1;
                    assert(vals@ =~= self.values(data.take(i as int)));
                },
                Err(e) => {
                    proof {
                        self.lemma_valid_prefix(data, i as int);
                        assert(data.len() == data_len);
                        assert(self.valid_prefix_len(data) < data.len());
                    }
                    let out = Self::unsix_all(&vals);
                    return Err((out, CodeError::new(e.as_str())));
                },
            }
        }
        proof {
            self.lemma_valid_prefix(data, data_len as int);
            assert(data.take(data_len as int) =~= data);
        }
        let mut out = Self::unsix_all(&vals);
        if data_len % 4 != 0 {
            if self.pad.is_none() && data_len % 4 == 1 {
                let last = vals[vals.len() - 1];
                out.push(last * 4);
            }
            if self.pad.is_some() && len % 4 != 0 {
                return Err((out, CodeError::new("incomplete Base64 without required padding")));
            }
        }
        Ok(out)
    }
}


proof fn lemma_group(a: u8, b: u8, c: u8)
    ensures
        ((a / 4) * 4 + (((a % 4) * 16 + b / 16) as u8) / 16) as u8 == a,
        (((((a % 4) * 16 + b / 16) as u8) % 16) * 16 + (((b % 16) * 4 + c / 64) as u8) / 4) as u8 == b,
        (((((b % 16) * 4 + c / 64) as u8) % 4) * 64 + c % 64) as u8 == c,
        (a % 4) * 16 + b / 16 < 64,
        (b % 16) * 4 + c / 64 < 64,
        (((a % 4) * 16) as u8) / 16 == a % 4,
        (((((a % 4) * 16 + b / 16) as u8) % 16) * 16 + (((b % 16) * 4) as u8) / 4) as u8 == b,
{
    assert(((a / 4) * 4 + (((a % 4) * 16 + b / 16) as u8) / 16) as u8 == a) by (bit_vector);
    assert((((((a % 4) * 16 + b / 16) as u8) % 16) * 16 + (((b % 16) * 4 + c / 64) as u8) / 4) as u8 == b)
        by (bit_vector);
    assert((((((b % 16) * 4 + c / 64) as u8) % 4) * 64 + c % 64) as u8 == c) by (bit_vector);
    assert((((a % 4) * 16) as u8) / 16 == a % 4) by (bit_vector);
    assert((((((a % 4) * 16 + b / 16) as u8) % 16) * 16 + (((b % 16) * 4) as u8) / 4) as u8 == b)
        by (bit_vector);
}

/// The 6-bit values of `b` are below 64, never leave a lone trailing value,
/// and pack back into `b`.
pub(crate) proof fn lemma_sixes(b: Seq<u8>)
    ensures
        sixes(b).len() % 4 != 1,
        forall|i: int| 0 <= i < sixes(b).len() ==> #[trigger] sixes(b)[i] < 64,
        unsix(sixes(b)) == b,
    decreases b.len(),
{
    if b.len() == 0 {
        assert(unsix(sixes(b)) =~= b);
    } else if b.len() == 1 {
        lemma_group(b[0], 0, 0);
        assert(unsix(sixes(b)) =~= b);
    } else if b.len() == 2 {
        lemma_group(b[0], b[1], 0);
        assert(unsix(sixes(b)) =~= b);
    } else {
        lemma_group(b[0], b[1], b[2]);
        lemma_sixes(b.skip(3));
        let g = seq![
            b[0] / 4,
            ((b[0] % 4) * 16 + b[1] / 16) as u8,
            ((b[1] % 16) * 4 + b[2] / 64) as u8,
            b[2] % 64,
        ];
        let v = sixes(b);
        assert(v == g + sixes(b.skip(3)));
        assert(v.skip(4) =~= sixes(b.skip(3)));
        lemma_unsix_step(v);
        assert(unsix(sixes(b)) =~= b);
    }
}

impl Base64 {
    proof fn lemma_symbol_value(&self, n: u8)
        requires
            self.wf(),
            n < 64,
        ensures
            self.value_of(self.symbol(n)) == Some(n),
            self.pad matches Some(p) ==> self.symbol(n) != p,
    {
    }
}

/// With a well-formed alphabet, decoding what `encode` gives yields the
/// bytes that were encoded, whether or not a pad symbol is set.
#[verifier::rlimit(100)]
pub proof fn lemma_base64_round_trip(b64: Base64, bytes: Seq<u8>)
    requires
        b64.wf(),
    ensures
        b64.spec_decode(b64.spec_encode(bytes)) == Ok::<Seq<u8>, Seq<u8>>(bytes),
{
    lemma_sixes(bytes);
    let v = sixes(bytes);
    let syms = b64.symbols(bytes);
    let s = b64.spec_encode(bytes);
    assert forall|i: int| 0 <= i < syms.len() implies b64.value_of(#[trigger] syms[i]) == Some(v[i])
        && (b64.pad matches Some(p) ==> syms[i] != p) by {
        b64.lemma_symbol_value(v[i]);
    }
    let l = syms.len() as int;
    assert(b64.data_len(s) == l) by {
        if let Some(p) = b64.pad {
            if l % 4 == 2 {
                assert(s[s.len() - 1] == p && s[s.len() - 2] == p);
            } else if l % 4 == 3 {
                assert(s[s.len() - 1] == p && s[s.len() - 2] == syms[l - 1]);
            } else {
                assert(s =~= syms);
                if l > 1 {
                    assert(s[s.len() - 1] == syms[l - 1]);
                }
            }
        }
    }
    let data = s.take(l);
    assert(data =~= syms);
    b64.lemma_valid_prefix(data, l);
    assert(b64.values(data) =~= v);
}

/// `s` written from column `col` with a line break after every `w`-th column.
pub open spec fn wrapped(s: Seq<u8>, col: nat, w: nat) -> Seq<u8>
    decreases s.len(),
{
    if s.len() == 0 {
        seq![]
    } else if col + 1 == w {
        seq![s[0], 10u8] + wrapped(s.drop_first(), 0, w)
    } else {
        seq![s[0]] + wrapped(s.drop_first(), col + 1, w)
    }
}

/// The column reached after writing `s` from column `col`.
pub open spec fn wrapped_col(s: Seq<u8>, col: nat, w: nat) -> nat
    decreases s.len(),
{
    if s.len() == 0 {
        col
    } else if col + 1 == w {
        wrapped_col(s.drop_first(), 0, w)
    } else {
        wrapped_col(s.drop_first(), col + 1, w)
    }
}

/// How many items a stream codec takes as one group: up to `n`, fewer at the end.
pub open spec fn group_len(v: Seq<Item>, n: nat) -> int {
    if v.len() < n {
        v.len() as int
    } else {
        n as int
    }
}

/// Encodes data as Base64, three bytes at a time, optionally breaking lines.
pub struct Base64Encode {
    pub base64: Base64,
    pub line_width: Option<usize>,
    pub output_line_width: usize,
}

impl Base64Encode {
    /// The width at which lines break; 0 when they do not.
    pub open spec fn width(&self) -> nat {
        match self.line_width {
            Some(w) => w as nat,
            None => 0,
        }
    }

    pub open spec fn wf(&self) -> bool {
        self.width() > 0 ==> self.output_line_width < self.width()
    }

    pub fn new(base64: Base64, line_width: Option<usize>) -> (r: Base64Encode)
        ensures
            r.wf(),
            r.base64 == base64,
            r.line_width == line_width,
            r.output_line_width == 0,
    {
        Base64Encode { base64, line_width, output_line_width: 0 }
    }

    /// Reads up to three bytes and writes their Base64 form, breaking the
    /// line where the width is reached.
    pub fn next(&mut self, input: &mut BufferedInput) -> (r: Option<Result<Vec<u8>, CodeError>>)
        requires
            old(self).wf(),
        ensures
            final(self).wf(),
            final(self).base64 == old(self).base64,
            final(self).line_width == old(self).line_width,
            r is None <==> old(input)@.len() == 0,
            r is Some ==> final(input)@.len() < old(input)@.len(),
            ({
                let v = old(input)@;
                let n = group_len(v, 3);
                let chunk = item_bytes(v.take(n));
                let width = old(self).width();
                let col = old(self).output_line_width as nat;
                v.len() > 0 && (forall|i: int| 0 <= i < n ==> (#[trigger] v[i]) is Ok) ==> {
                    &&& r matches Some(Ok(out)) && out@ == wrapped(old(self).base64.spec_encode(chunk), col, width)
                    &&& width > 0 ==> final(self).output_line_width == wrapped_col(old(self).base64.spec_encode(chunk), col, width)
                    &&& final(input)@ == v.skip(n)
                }
            }),
    {
        let ghost v = input@;
        let ghost n = group_len(v, 3);
        let mut bytes: Vec<u8> = Vec::new();
        let mut i: usize = 0;
        let mut eof = false;
        while i < 3 && !eof
            invariant
                v == old(input)@,
                *self == *old(self),
                old(self).wf(),
                eof ==> v.len() == i && i > 0,
                n == group_len(v, 3),
                i <= 3,
                i <= v.len(),
                bytes@.len() == i,
                bytes@ == item_bytes(v.take(i as int)),
                forall|j: int| 0 <= j < i ==> (#[trigger] v[j]) is Ok,
                input@ == v.skip(i as int),
            decreases 3 - i + (if eof { 0int } else { 1int }),
        {
            let ghost before = input@;
            match input.get_byte() {
                Some(Ok(b)) => {
                    assert(before[0] == v[i as int]);
                    assert(before.drop_first() =~= v.skip(i + 1));
                    bytes.push(b);
                    i = i + 1;
                    assert(item_bytes(v.take(i as int)) =~= bytes@);
                },
                Some(Err(e)) => {
                    assert(before[0] == v[i as int]);
                    assert(before.drop_first() =~= v.skip(i + 1));
                    return Some(Err(CodeError::new("error getting byte").with_bytes(bytes).with_inner(e)));
                },
                None => {
                    if i == 0 {
                        return None;
                    }
                    eof = true;
                },
            }
        }
        assert(i as int == n);
        let encoded = self.base64.encode(bytes.as_slice());
        match self.line_width {
            Some(w) => {
                if w > 0 {
                    let mut out: Vec<u8> = Vec::new();
                    let mut col = self.output_line_width;
                    let mut k: usize = 0;
                    let ghost col0 = col as nat;
                    assert(encoded@.skip(0) =~= encoded@);
                    assert(out@ + wrapped(encoded@, col0, w as nat) =~= wrapped(encoded@, col0, w as nat));
                    while k < encoded.len()
                        invariant
                            k <= encoded@.len(),
                            col < w,
                            out@ + wrapped(encoded@.skip(k as int), col as nat, w as nat) == wrapped(encoded@, col0, w as nat),
                            wrapped_col(encoded@.skip(k as int), col as nat, w as nat) == wrapped_col(encoded@, col0, w as nat),
                        decreases encoded@.len() - k,
                    {
                        let ghost rest = encoded@.skip(k as int);
                        assert(rest.drop_first() =~= encoded@.skip(k + 1));
                        out.push(encoded[k]);
                        if col + 1 == w {
                            out.push(10);
                            col = 0;
                        } else {
                            col = col + 1;
                        }
                        k = k + 1;
                        assert(out@ + wrapped(encoded@.skip(k as int), col as nat, w as nat) =~= wrapped(encoded@, col0, w as nat));
                    }
                    assert(encoded@.skip(k as int) =~= Seq::<u8>::empty());
                    assert(out@ =~= wrapped(encoded@, col0, w as nat));
                    self.output_line_width = col;
                    return Some(Ok(out));
                }
            },
            None => {},
        }
        proof {
            lemma_wrapped_unwrapped(encoded@, self.output_line_width as nat);
        }
        Some(Ok(encoded))
    }

    pub fn replacement(&self) -> (r: Vec<u8>)
        ensures
            r@ == seq![63u8],
    {
        vec![63]
    }
}

proof fn lemma_wrapped_unwrapped(s: Seq<u8>, col: nat)
    ensures
        wrapped(s, col, 0) == s,
        wrapped_col(s, col, 0) == col + s.len(),
    decreases s.len(),
{
    if s.len() > 0 {
        lemma_wrapped_unwrapped(s.drop_first(), col + 1);
        assert(seq![s[0]] + s.drop_first() =~= s);
    }
}

/// Whether a byte is kept for decoding: in the alphabet, or the pad symbol.
pub open spec fn is_symbol(b64: Base64, c: u8) -> bool {
    is_alnum(c) || c == b64.code62 || c == b64.code63 || b64.pad == Some(c)
}

/// Where the Base64 decoder's reading of a group ends, starting from the
/// symbols `buf` already kept: `(0, buf, w, None)` at the end of the
/// input; `(1, buf, w, Some(e))` at an error `e` from upstream; `(2, buf, w,
/// None)` with four symbols; `(3, buf, w, None)` at a byte outside the
/// alphabet that is not ignored. `w` is the input left. CR and LF are
/// passed over, and so are other bytes outside the alphabet when `ignore`.
pub open spec fn scan(b64: Base64, ignore: bool, v: Seq<Item>, buf: Seq<u8>) -> (int, Seq<u8>, Seq<Item>, Option<CodeError>)
    decreases v.len(),
{
    if v.len() == 0 {
        (0, buf, v, None)
    } else {
        match v[0] {
            Err(e) => (1, buf, v.drop_first(), Some(e)),
            Ok(c) => if c == 10 || c == 13 {
                scan(b64, ignore, v.drop_first(), buf)
            } else if is_symbol(b64, c) {
                if buf.len() >= 3 {
                    (2, buf.push(c), v.drop_first(), None)
                } else {
                    scan(b64, ignore, v.drop_first(), buf.push(c))
                }
            } else if !ignore {
                (3, buf, v.drop_first(), None)
            } else {
                scan(b64, ignore, v.drop_first(), buf)
            },
        }
    }
}

/// What the Base64 decoder gives once its reading of a group ended as `s`:
/// an error from upstream is handed on; a byte outside the alphabet before
/// any symbol is an error carrying no bytes; otherwise the symbols kept are
/// decoded, and a byte outside the alphabet after them is held back as an
/// error, as is a decoding error that comes after some bytes. `stash` says
/// whether an error is held back afterwards and `w` is the input left.
pub open spec fn scanned(
    b64: Base64,
    ignore: bool,
    s: (int, Seq<u8>, Seq<Item>, Option<CodeError>),
    r: Option<Result<Vec<u8>, CodeError>>,
    stash: bool,
    w: Seq<Item>,
) -> bool {
    let (kind, buf, rest, up) = s;
    &&& w == rest
    &&& if kind == 1 {
        r == Some(Err::<Vec<u8>, CodeError>(up->Some_0)) && !stash
    } else if kind == 3 && buf.len() == 0 {
        (r matches Some(Err(e)) && e.bad_bytes matches Some(bb) && bb@.len() == 0) && !stash
    } else if buf.len() == 0 {
        r is None && !stash
    } else {
        match b64.spec_decode(buf) {
            Ok(b) => (r matches Some(Ok(out)) && out@ == b) && (stash <==> kind == 3),
            Err(b) => if b.len() == 0 {
                (r matches Some(Err(_))) && (stash <==> kind == 3)
            } else {
                (r matches Some(Ok(out)) && out@ == b) && stash
            },
        }
    }
}

/// Decodes Base64, four symbols at a time. Line breaks are passed over; so
/// is any other byte outside the alphabet when garbage is ignored.
pub struct Base64Decode {
    pub base64: Base64,
    pub ignore_garbage: bool,
    pub stashed_error: Option<CodeError>,
}

impl Base64Decode {
    /// An error waits to be handed out before anything more is read.
    pub open spec fn has_stash(&self) -> bool {
        self.stashed_error is Some
    }

    /// 1 while an error waits, else 0.
    pub open spec fn pending(&self) -> nat {
        if self.has_stash() {
            1
        } else {
            0
        }
    }

    pub fn new(base64: Base64, ignore_garbage: bool) -> (r: Base64Decode)
        ensures
            r.base64 == base64,
            r.ignore_garbage == ignore_garbage,
            !r.has_stash(),
    {
        Base64Decode { base64, ignore_garbage, stashed_error: None }
    }

    /// Reads up to four symbols and writes the bytes they decode to. CR
    /// and LF are passed over; so is any other byte outside the alphabet
    /// when garbage is ignored, else it ends the group with an error. An
    /// error found after some symbols were read is held back until those
    /// are decoded and handed out.
    pub fn next(&mut self, input: &mut BufferedInput) -> (r: Option<Result<Vec<u8>, CodeError>>)
        ensures
            final(self).base64 == old(self).base64,
            final(self).ignore_garbage == old(self).ignore_garbage,
            final(input)@.len() <= old(input)@.len(),
            old(self).has_stash() ==> (r matches Some(Err(_))) && final(input)@ == old(input)@ && !final(self).has_stash(),
            r is Some && !(r matches Some(Ok(b)) && b@.len() > 0) ==> 2 * final(input)@.len() + final(self).pending()
                < 2 * old(input)@.len() + old(self).pending(),
            !old(self).has_stash() ==> scanned(
                old(self).base64,
                old(self).ignore_garbage,
                scan(old(self).base64, old(self).ignore_garbage, old(input)@, Seq::<u8>::empty()),
                r,
                final(self).has_stash(),
                final(input)@,
            ),
    {
        if self.stashed_error.is_some() {
            let e = self.stashed_error.take().unwrap();
            return Some(Err(e));
        }
        let ghost v = input@;
        let ghost target = scan(self.base64, self.ignore_garbage, v, Seq::<u8>::empty());
        let mut buffer: Vec<u8> = Vec::new();
        let mut garbage = false;
        loop
            invariant_except_break
                buffer@.len() < 4,
                self.stashed_error is None,
                !garbage,
                scan(self.base64, self.ignore_garbage, input@, buffer@) == target,
            invariant
                v == old(input)@,
                !old(self).has_stash(),
                self.base64 == old(self).base64,
                self.ignore_garbage == old(self).ignore_garbage,
                input@.len() + buffer@.len() <= v.len(),
                target == scan(self.base64, self.ignore_garbage, v, Seq::<u8>::empty()),
            ensures
                v == old(input)@,
                self.base64 == old(self).base64,
                self.ignore_garbage == old(self).ignore_garbage,
                buffer@.len() <= 4,
                input@.len() + buffer@.len() <= v.len(),
                self.stashed_error is Some ==> input@.len() + buffer@.len() + 1 <= v.len() && buffer@.len() > 0,
                self.stashed_error is Some <==> garbage,
                garbage ==> target == (3int, buffer@, input@, None::<CodeError>),
                !garbage && buffer@.len() == 4 ==> target == (2int, buffer@, input@, None::<CodeError>),
                !garbage && buffer@.len() < 4 ==> target == (0int, buffer@, input@, None::<CodeError>),
            decreases input@.len(),
        {
            let ghost before = input@;
            match input.get_byte() {
                Some(Ok(byte)) => {
                    if byte == 13 || byte == 10 {
                        continue;
                    } else if (65 <= byte && byte <= 90) || (97 <= byte && byte <= 122) || (48 <= byte && byte <= 57)
                        || byte == self.base64.code62 || byte == self.base64.code63 || self.base64.pad == Some(byte) {
                        buffer.push(byte);
                        if buffer.len() == 4 {
                            break;
                        }
                    } else if !self.ignore_garbage {
                        let error = CodeError::new("invalid Base64 character").with_bytes(buffer.clone());
                        if buffer.len() == 0 {
                            return Some(Err(error));
                        } else {
                            self.stashed_error = Some(error);
                            garbage = true;
                            break;
                        }
                    }
                },
                Some(Err(e)) => {
                    return Some(Err(e));
                },
                None => {
                    break;
                },
            }
        }
        if buffer.len() == 0 {
            return None;
        }
        match self.base64.decode(buffer.as_slice()) {
            Ok(bytes) => Some(Ok(bytes)),
            Err((bytes, error)) => {
                if bytes.len() == 0 {
                    Some(Err(error))
                } else {
                    self.stashed_error = Some(error);
                    Some(Ok(bytes))
                }
            },
        }
    }

    pub fn replacement(&self) -> (r: Vec<u8>)
        ensures
            r@ == seq![63u8],
    {
        vec![63]
    }
}

/// Encoding a non-empty byte sequence gives a non-empty result.
pub proof fn lemma_encode_nonempty(b64: Base64, b: Seq<u8>)
    requires
        b.len() > 0,
    ensures
        b64.spec_encode(b).len() > 0,
{
    assert(sixes(b).len() >= 2);
    assert(b64.symbols(b).len() == sixes(b).len());
}

} // verus!
