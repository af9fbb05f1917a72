use vstd::prelude::*;
use crate::codec::Codec;
use crate::encoding::{
    CodeError, Encoder, ErrorPolicy, Item, Outcome, byte_items, item_bytes, lemma_byte_items_concat, lemma_halt_output,
    lemma_replace_output, lemma_skip_output, named, policy_output, produced, produced_or_replaced, recorded, unit_output,
};
use crate::utf8::{
    codepoint_at, codepoint_text, four_bytes, lemma_utf8_round_trip, lemma_utf8_unit, utf8_decoded, utf8_encode_spec,
    utf8_text,
};
use crate::utils::{be32_bytes, lemma_be32_round_trip};

verus! {

proof fn lemma_codepoint_text_push(cps: Seq<u32>, k: int)
    requires
        0 <= k < cps.len(),
    ensures
        codepoint_text(cps.take(k + 1)) == codepoint_text(cps.take(k)) + be32_bytes(cps[k]),
    decreases k,
{
    if k == 0 {
        assert(cps.take(1).drop_first() =~= Seq::<u32>::empty());
        assert(cps.take(0) =~= Seq::<u32>::empty());
        assert(cps.take(1)[0] == cps[0]);
        assert(codepoint_text(Seq::<u32>::empty()) =~= Seq::<u8>::empty());
        assert(codepoint_text(cps.take(1)) =~= be32_bytes(cps[0]));
    } else {
        let t = cps.drop_first();
        lemma_codepoint_text_push(t, k - 1);
        assert(cps.take(k + 1).drop_first() =~= t.take(k));
        assert(cps.take(k).drop_first() =~= t.take(k - 1));
        assert(codepoint_text(cps.take(k + 1)) =~= codepoint_text(cps.take(k)) + be32_bytes(cps[k]));
    }
}

proof fn lemma_utf8_text_push(cps: Seq<u32>, k: int)
    requires
        0 <= k < cps.len(),
    ensures
        utf8_text(cps.take(k + 1)) == utf8_text(cps.take(k)) + utf8_encode_spec(cps[k])->Some_0,
    decreases k,
{
    if k == 0 {
        assert(cps.take(1).drop_first() =~= Seq::<u32>::empty());
        assert(cps.take(0) =~= Seq::<u32>::empty());
        assert(utf8_text(cps.take(1)) =~= utf8_encode_spec(cps[0])->Some_0);
    } else {
        let t = cps.drop_first();
        lemma_utf8_text_push(t, k - 1);
        assert(cps.take(k + 1).drop_first() =~= t.take(k));
        assert(cps.take(k).drop_first() =~= t.take(k - 1));
        assert(utf8_text(cps.take(k + 1)) =~= utf8_text(cps.take(k)) + utf8_encode_spec(cps[k])->Some_0);
    }
}

proof fn lemma_decode_step(c0: Codec, v: Seq<Item>, r: Option<Result<Vec<u8>, CodeError>>, c1: Codec, w: Seq<Item>)
    requires
        c0 is Utf8Decode,
        Codec::step(c0, v, r, c1, w),
    ensures
        c1 is Utf8Decode,
        v.len() == 0 ==> r is None && w == v,
        v.len() > 0 ==> utf8_decoded(v, r, w),
{
    reveal(Codec::step);
}

proof fn lemma_encode_step(c0: Codec, v: Seq<Item>, r: Option<Result<Vec<u8>, CodeError>>, c1: Codec, w: Seq<Item>)
    requires
        c0 is Utf8Encode,
        Codec::step(c0, v, r, c1, w),
    ensures
        c1 is Utf8Encode,
        v.len() == 0 ==> r is None && w == v,
        four_bytes(v) ==> w == v.skip(4) && match utf8_encode_spec(codepoint_at(v)) {
            Some(e) => r matches Some(Ok(out)) && out@ == e,
            None => r is Some,
        },
{
    reveal(Codec::step);
}

/// A stage has run to its end on the input it held before its first call,
/// nothing being fed later: its codec's last call gave nothing and no byte
/// is left queued.
pub open spec fn ran_to_end(enc: Encoder) -> bool {
    &&& enc.history_ok()
    &&& forall|i: int| 0 <= i < enc.feeds().len() ==> (#[trigger] enc.feeds()[i]).len() == 0
    &&& enc.output_ok()
    &&& enc.results().len() > 0
    &&& enc.results().last() is None
    &&& enc.queued().len() == 0
}

#[verifier::rlimit(100)]
proof fn lemma_decode_prefix(enc: Encoder, cps: Seq<u32>, i: int)
    requires
        enc.history_ok(),
        forall|i: int| 0 <= i < enc.feeds().len() ==> (#[trigger] enc.feeds()[i]).len() == 0,
        forall|j: int| 0 <= j < cps.len() ==> #[trigger] cps[j] <= 0x10FFFF,
        enc.states()[0].0 is Utf8Decode,
        enc.states()[0].1 == byte_items(utf8_text(cps)),
        0 <= i <= enc.results().len(),
    ensures
        ({
            let k = if i < cps.len() { i } else { cps.len() as int };
            &&& enc.states()[i].0 is Utf8Decode
            &&& enc.states()[i].1 == byte_items(utf8_text(cps.skip(k)))
            &&& policy_output(enc.policy(), enc.replacement(), enc.outcomes().take(i)) == byte_items(
                codepoint_text(cps.take(k)),
            )
            &&& (0 < i && i <= cps.len()) ==> enc.results()[i - 1] is Some
        }),
    decreases i,
{
    if i == 0 {
        assert(cps.skip(0) =~= cps);
        assert(cps.take(0) =~= Seq::<u32>::empty());
        assert(enc.outcomes().take(0) =~= Seq::<Outcome>::empty());
        assert(byte_items(Seq::<u8>::empty()) =~= Seq::<Item>::empty());
    } else {
        let j = i - 1;
        lemma_decode_prefix(enc, cps, j);
        let k = if j < cps.len() { j } else { cps.len() as int };
        let v = enc.states()[j].1;
        let r = enc.results()[j];
        let w = enc.ends()[j];
        assert(Codec::step(enc.states()[j].0, v, r, enc.states()[j + 1].0, w));
        assert(enc.states()[j + 1].1 == enc.ends()[j] + enc.feeds()[j]);
        assert(enc.feeds()[j].len() == 0);
        assert(enc.states()[i].1 =~= w);
        lemma_decode_step(enc.states()[j].0, v, r, enc.states()[i].0, w);
        assert(enc.outcomes().take(i).drop_last() =~= enc.outcomes().take(j));
        assert(enc.outcomes().take(i).last() == enc.outcomes()[j]);
        let o = enc.outcomes()[j];
        assert(crate::encoding::recorded(o, r, enc.policy(), enc.name()));
        if j < cps.len() {
            let cp = cps[j];
            let e = utf8_encode_spec(cp)->Some_0;
            lemma_utf8_unit(cp);
            let rest = byte_items(utf8_text(cps.skip(j + 1)));
            assert(cps.skip(j).drop_first() =~= cps.skip(j + 1));
            assert(cps.skip(j)[0] == cp);
            assert(byte_items(utf8_text(cps.skip(j))) =~= byte_items(e) + rest);
            assert(v.len() > 0);
            lemma_utf8_round_trip(cp, rest, r, w);
            assert(o == Some(Ok::<Seq<u8>, CodeError>(be32_bytes(cp))));
            lemma_codepoint_text_push(cps, j);
            lemma_byte_items_concat(codepoint_text(cps.take(j)), be32_bytes(cp));
        } else {
            assert(cps.skip(k) =~= Seq::<u32>::empty());
            assert(utf8_text(Seq::<u32>::empty()) =~= Seq::<u8>::empty());
            assert(byte_items(Seq::<u8>::empty()) =~= Seq::<Item>::empty());
            assert(v.len() == 0);
            assert(r is None && w == v);
            assert(unit_output(enc.policy(), enc.replacement(), o) =~= Seq::<Item>::empty());
        }
    }
}

proof fn lemma_encode_prefix(enc: Encoder, cps: Seq<u32>, i: int)
    requires
        enc.history_ok(),
        forall|i: int| 0 <= i < enc.feeds().len() ==> (#[trigger] enc.feeds()[i]).len() == 0,
        forall|j: int| 0 <= j < cps.len() ==> #[trigger] cps[j] <= 0x10FFFF,
        enc.states()[0].0 is Utf8Encode,
        enc.states()[0].1 == byte_items(codepoint_text(cps)),
        0 <= i <= enc.results().len(),
    ensures
        ({
            let k = if i < cps.len() { i } else { cps.len() as int };
            &&& enc.states()[i].0 is Utf8Encode
            &&& enc.states()[i].1 == byte_items(codepoint_text(cps.skip(k)))
            &&& policy_output(enc.policy(), enc.replacement(), enc.outcomes().take(i)) == byte_items(
                utf8_text(cps.take(k)),
            )
            &&& (0 < i && i <= cps.len()) ==> enc.results()[i - 1] is Some
        }),
    decreases i,
{
    if i == 0 {
        assert(cps.skip(0) =~= cps);
        assert(cps.take(0) =~= Seq::<u32>::empty());
        assert(enc.outcomes().take(0) =~= Seq::<Outcome>::empty());
        assert(byte_items(Seq::<u8>::empty()) =~= Seq::<Item>::empty());
    } else {
        let j = i - 1;
        lemma_encode_prefix(enc, cps, j);
        let k = if j < cps.len() { j } else { cps.len() as int };
        let v = enc.states()[j].1;
        let r = enc.results()[j];
        let w = enc.ends()[j];
        assert(Codec::step(enc.states()[j].0, v, r, enc.states()[j + 1].0, w));
        assert(enc.states()[j + 1].1 == enc.ends()[j] + enc.feeds()[j]);
        assert(enc.feeds()[j].len() == 0);
        assert(enc.states()[i].1 =~= w);
        lemma_encode_step(enc.states()[j].0, v, r, enc.states()[i].0, w);
        assert(enc.outcomes().take(i).drop_last() =~= enc.outcomes().take(j));
        assert(enc.outcomes().take(i).last() == enc.outcomes()[j]);
        let o = enc.outcomes()[j];
        assert(crate::encoding::recorded(o, r, enc.policy(), enc.name()));
        if j < cps.len() {
            let cp = cps[j];
            lemma_utf8_unit(cp);
            lemma_be32_round_trip(cp);
            let rest = byte_items(codepoint_text(cps.skip(j + 1)));
            assert(cps.skip(j).drop_first() =~= cps.skip(j + 1));
            assert(cps.skip(j)[0] == cp);
            assert(v =~= byte_items(be32_bytes(cp)) + rest);
            assert(four_bytes(v));
            assert(item_bytes(v.take(4)) =~= be32_bytes(cp));
            assert(codepoint_at(v) == cp);
            assert(v.skip(4) =~= rest);
            assert(o == Some(Ok::<Seq<u8>, CodeError>(utf8_encode_spec(cp)->Some_0)));
            lemma_utf8_text_push(cps, j);
            lemma_byte_items_concat(utf8_text(cps.take(j)), utf8_encode_spec(cp)->Some_0);
        } else {
            assert(cps.skip(k) =~= Seq::<u32>::empty());
            assert(codepoint_text(Seq::<u32>::empty()) =~= Seq::<u8>::empty());
            assert(byte_items(Seq::<u8>::empty()) =~= Seq::<Item>::empty());
            assert(v.len() == 0);
            assert(r is None && w == v);
            assert(unit_output(enc.policy(), enc.replacement(), o) =~= Seq::<Item>::empty());
        }
    }
}

/// Chaining a UTF-8 decoding stage and a UTF-8 encoding stage is the
/// identity: if the decoding stage read the UTF-8 text of codepoints up to
/// U+10FFFF and ran to its end, and the encoding stage read everything the
/// first handed out and ran to its end, the second has handed out exactly
/// the text the first read, under any error policy.
pub proof fn lemma_utf8_stages_identity(dec: Encoder, enc: Encoder, cps: Seq<u32>)
    requires
        forall|j: int| 0 <= j < cps.len() ==> #[trigger] cps[j] <= 0x10FFFF,
        ran_to_end(dec),
        dec.states()[0].0 is Utf8Decode,
        dec.states()[0].1 == byte_items(utf8_text(cps)),
        ran_to_end(enc),
        enc.states()[0].0 is Utf8Encode,
        enc.states()[0].1 == dec.delivered(),
    ensures
        dec.delivered() == byte_items(codepoint_text(cps)),
        enc.delivered() == byte_items(utf8_text(cps)),
{
    let n = dec.results().len() as int;
    lemma_decode_prefix(dec, cps, n);
    assert(dec.outcomes().take(n) =~= dec.outcomes());
    if n <= cps.len() {
        assert(dec.results()[n - 1] is Some);
    }
    assert(cps.take(cps.len() as int) =~= cps);
    assert(byte_items(dec.queued()) =~= Seq::<Item>::empty());
    assert(dec.delivered() + byte_items(dec.queued()) =~= dec.delivered());
    let m = enc.results().len() as int;
    lemma_encode_prefix(enc, cps, m);
    assert(enc.outcomes().take(m) =~= enc.outcomes());
    if m <= cps.len() {
        assert(enc.results()[m - 1] is Some);
    }
    assert(byte_items(enc.queued()) =~= Seq::<Item>::empty());
    assert(enc.delivered() + byte_items(enc.queued()) =~= enc.delivered());
}

/// A codec's result that is an error.
pub open spec fn is_fault(r: Option<Result<Vec<u8>, CodeError>>) -> bool {
    r matches Some(Err(_))
}

/// The outcome that a codec's result stands for.
pub open spec fn outcome_of(r: Option<Result<Vec<u8>, CodeError>>) -> Outcome {
    match r {
        None => None,
        Some(Ok(b)) => Some(Ok(b@)),
        Some(Err(e)) => Some(Err(e)),
    }
}

/// A stage's output under its policy, in terms of what its codec returned
/// on the stage's input: under skip, the bytes the codec produced with the
/// faulty units left out; under replace, the same with the replacement
/// bytes where each faulty unit was; under halt, the bytes before the
/// codec's first error and then that error, named after the stage.
pub proof fn lemma_stage_output(enc: Encoder)
    requires
        enc.history_ok(),
        enc.output_ok(),
    ensures
        enc.policy() != ErrorPolicy::Halt ==> enc.outcomes() == enc.results().map_values(
            |r: Option<Result<Vec<u8>, CodeError>>| outcome_of(r),
        ),
        enc.policy() == ErrorPolicy::Skip ==> enc.delivered() + byte_items(enc.queued()) == byte_items(
            produced(enc.outcomes()),
        ),
        enc.policy() == ErrorPolicy::Replace ==> enc.delivered() + byte_items(enc.queued()) == byte_items(
            produced_or_replaced(enc.outcomes(), enc.replacement()),
        ),
        forall|k: int|
            0 <= k < enc.results().len() && enc.policy() == ErrorPolicy::Halt && is_fault(#[trigger] enc.results()[k]) && (forall|i: int| 0 <= i < k ==> !is_fault(#[trigger] enc.results()[i])) ==> {
                let good = enc.outcomes().take(k);
                let e2 = enc.outcomes()[k]->Some_0->Err_0;
                &&& named(e2, enc.results()[k]->Some_0->Err_0, enc.name())
                &&& (enc.delivered() + byte_items(enc.queued())).take((produced(good).len() + 1) as int) == byte_items(
                    produced(good),
                ).push(Err::<u8, CodeError>(e2))
            },
{
    if enc.policy() != ErrorPolicy::Halt {
        assert forall|i: int| 0 <= i < enc.results().len() implies enc.outcomes()[i] == outcome_of(
            enc.results()[i],
        ) by {
            assert(recorded(enc.outcomes()[i], enc.results()[i], enc.policy(), enc.name()));
        }
        assert(enc.outcomes() =~= enc.results().map_values(|r: Option<Result<Vec<u8>, CodeError>>| outcome_of(r)));
    }
    if enc.policy() == ErrorPolicy::Skip {
        lemma_skip_output(enc.replacement(), enc.outcomes());
    }
    if enc.policy() == ErrorPolicy::Replace {
        lemma_replace_output(enc.replacement(), enc.outcomes());
    }
    assert forall|k: int|
        0 <= k < enc.results().len() && enc.policy() == ErrorPolicy::Halt && is_fault(#[trigger] enc.results()[k]) && (forall|i: int| 0 <= i < k ==> !is_fault(#[trigger] enc.results()[i])) implies {
            let good = enc.outcomes().take(k);
            let e2 = enc.outcomes()[k]->Some_0->Err_0;
            &&& named(e2, enc.results()[k]->Some_0->Err_0, enc.name())
            &&& (enc.delivered() + byte_items(enc.queued())).take((produced(good).len() + 1) as int) == byte_items(
                produced(good),
            ).push(Err::<u8, CodeError>(e2))
        } by {
        let os = enc.outcomes();
        let good = os.take(k);
        assert(recorded(os[k], enc.results()[k], enc.policy(), enc.name()));
        let e2 = os[k]->Some_0->Err_0;
        assert forall|i: int| 0 <= i < good.len() implies !((#[trigger] good[i]) matches Some(Err(_))) by {
            assert(recorded(os[i], enc.results()[i], enc.policy(), enc.name()));
        }
        let rest = os.skip(k + 1);
        assert(os =~= good.push(Some(Err(e2))) + rest);
        lemma_halt_output(enc.replacement(), good, e2, rest);
    }
}

} // verus!
