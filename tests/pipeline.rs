use transcode::base64::Base64;
use transcode::catalog::get_encoding;
use transcode::codec::Codec;
use transcode::chain::{Pipeline, Step};
use transcode::encoding::{parse_error_policy, BufferedInput, CodeError, Encoder, ErrorPolicy, Item, Pull};
use transcode::utf16::Utf16Encode;
use transcode::utf7::Utf7Encode;
use transcode::utils::{u16_from_bytes, u16_to_bytes, u32_from_bytes, u32_to_bytes, unicode_replacement};

fn items(bytes: &[u8]) -> Vec<Item> {
    bytes.iter().map(|b| Ok(*b)).collect()
}

fn run(codec: Codec, input: Vec<Item>, policy: ErrorPolicy) -> Vec<Item> {
    let mut encoder = Encoder::new(input, codec, "stage", policy);
    let mut out = Vec::new();
    while let Some(item) = encoder.next() {
        out.push(item);
        assert!(out.len() < 100_000);
    }
    out
}

fn stage(name: &str, options: &str, input: Vec<Item>, policy: ErrorPolicy) -> Vec<Item> {
    run(get_encoding(name, options).unwrap(), input, policy)
}

fn bytes_of(out: &[Item]) -> Vec<u8> {
    out.iter().map(|i| *i.as_ref().unwrap()).collect()
}

fn codepoints(cps: &[u32]) -> Vec<u8> {
    cps.iter().flat_map(|c| c.to_be_bytes()).collect()
}

fn first_error(out: &[Item]) -> Option<(usize, &CodeError)> {
    out.iter().enumerate().find_map(|(i, x)| x.as_ref().err().map(|e| (i, e)))
}

#[test]
fn utf8_round_trip_of_codepoints() {
    let cps = [0x0, 0x41, 0x7F, 0x80, 0xE9, 0x7FF, 0x800, 0x20AC, 0xFFFF, 0x10000, 0x1F600, 0x10FFFF];
    let encoded = bytes_of(&stage("utf8", "", items(&codepoints(&cps)), ErrorPolicy::Halt));
    assert_eq!(&encoded[1..3], &[0x41, 0x7F]);
    let decoded = bytes_of(&stage("un_utf8", "", items(&encoded), ErrorPolicy::Halt));
    assert_eq!(decoded, codepoints(&cps));
}

#[test]
fn utf8_encodes_euro_sign_in_three_bytes() {
    let out = bytes_of(&stage("utf8", "", items(&codepoints(&[0x20AC])), ErrorPolicy::Halt));
    assert_eq!(out, vec![0xE2, 0x82, 0xAC]);
}

#[test]
fn utf8_truncated_sequence_at_eof_is_an_error() {
    let out = stage("un_utf8", "", items(&[0x41, 0xE2, 0x82]), ErrorPolicy::Halt);
    assert_eq!(bytes_of(&out[..4]), vec![0, 0, 0, 0x41]);
    let (pos, e) = first_error(&out).unwrap();
    assert_eq!(pos, 4);
    assert_eq!(e.bad_bytes, Some(vec![0xE2, 0x82]));
}

#[test]
fn utf8_encoding_out_of_range_is_an_error() {
    let out = stage("utf8", "", items(&[0x80, 0, 0, 0]), ErrorPolicy::Halt);
    assert!(out[0].is_err());
}

#[test]
fn utf8_illegal_lead_byte_is_an_error() {
    let out = stage("un_utf8", "", items(&[0xFF]), ErrorPolicy::Halt);
    assert_eq!(out.len(), 1);
    assert_eq!(out[0].as_ref().err().unwrap().bad_bytes, Some(vec![0xFF]));
}

#[test]
fn utf16_round_trip_with_surrogate_pair() {
    let cps = [0x41, 0xFFFD, 0x1F600, 0x10FFFF];
    for order in ["le", "be"] {
        let encoded = bytes_of(&stage("utf16", order, items(&codepoints(&cps)), ErrorPolicy::Halt));
        let decoded = bytes_of(&stage("un_utf16", order, items(&encoded), ErrorPolicy::Halt));
        assert_eq!(decoded, codepoints(&cps));
    }
    let le = bytes_of(&stage("utf16", "", items(&codepoints(&[0x1F600])), ErrorPolicy::Halt));
    assert_eq!(le, vec![0x3D, 0xD8, 0x00, 0xDE]);
}

#[test]
fn utf16_surrogate_codepoint_cannot_be_encoded() {
    assert!(Utf16Encode::encode_codepoint(0xD800, true).is_err());
    assert!(Utf16Encode::encode_codepoint(0xDFFF, false).is_err());
    assert!(Utf16Encode::encode_codepoint(0x110000, false).is_err());
    let out = stage("utf16", "be", items(&codepoints(&[0xDC00])), ErrorPolicy::Halt);
    assert!(out[0].is_err());
}

#[test]
fn utf16_lone_high_surrogate_at_eof_reports_its_bytes() {
    let out = stage("un_utf16", "le", items(&[0x3D, 0xD8]), ErrorPolicy::Halt);
    assert_eq!(out.len(), 1);
    assert_eq!(out[0].as_ref().err().unwrap().bad_bytes, Some(vec![0x3D, 0xD8]));
}

#[test]
fn utf16_low_surrogate_first_is_an_error() {
    let out = stage("un_utf16", "be", items(&[0xDC, 0x00, 0x00, 0x41]), ErrorPolicy::Halt);
    assert!(out[0].is_err());
    assert_eq!(bytes_of(&out[1..]), vec![0, 0, 0, 0x41]);
}

#[test]
fn utf7_round_trip_with_surrogate_pair() {
    let text: Vec<u32> = "Hi Mom -+~\\ A".chars().map(|c| c as u32).chain([0x1F600, 0x62, 0xE9, 0x263A, 0x2D]).collect();
    let encoded = bytes_of(&stage("utf7", "", items(&codepoints(&text)), ErrorPolicy::Halt));
    let decoded = bytes_of(&stage("un_utf7", "", items(&encoded), ErrorPolicy::Halt));
    assert_eq!(decoded, codepoints(&text));
}

#[test]
fn utf7_encoding_of_a_surrogate_pair() {
    let encoded = bytes_of(&stage("utf7", "", items(&codepoints(&[0x41, 0x1F600, 0x62])), ErrorPolicy::Halt));
    assert_eq!(encoded, b"A+2D3eAA-b".to_vec());
    let plus = bytes_of(&stage("utf7", "", items(&codepoints(&[0x2B])), ErrorPolicy::Halt));
    assert_eq!(plus, b"+ACs".to_vec());
}

#[test]
fn utf7_decoding_drops_the_closing_dash() {
    let decoded = bytes_of(&stage("un_utf7", "", items(b"A+2D3eAA-b+ACs-"), ErrorPolicy::Halt));
    assert_eq!(decoded, codepoints(&[0x41, 0x1F600, 0x62, 0x2B]));
    let unterminated = bytes_of(&stage("un_utf7", "", items(b"+AGEAYgBj."), ErrorPolicy::Halt));
    assert_eq!(unterminated, codepoints(&[0x61, 0x62, 0x63, 0x2E]));
}

#[test]
fn utf7_eight_bit_byte_is_an_error() {
    let out = stage("un_utf7", "", items(&[0x41, 0xC3]), ErrorPolicy::Halt);
    assert_eq!(bytes_of(&out[..4]), codepoints(&[0x41]));
    assert_eq!(out[4].as_ref().err().unwrap().bad_bytes, Some(vec![0xC3]));
}

#[test]
fn halt_policy_gives_bytes_before_the_fault_then_the_error() {
    let out = stage("un_utf8", "", items(&[0x41, 0xFF, 0x42]), ErrorPolicy::Halt);
    let (pos, e) = first_error(&out).unwrap();
    assert_eq!(pos, 4);
    assert_eq!(bytes_of(&out[..4]), codepoints(&[0x41]));
    assert_eq!(e.encoding_name.as_deref(), Some("stage"));
}

#[test]
fn skip_policy_leaves_faulty_units_out() {
    let out = stage("un_utf8", "", items(&[0x41, 0xFF, 0x42, 0xE2, 0x41]), ErrorPolicy::Skip);
    assert_eq!(bytes_of(&out), codepoints(&[0x41, 0x42, 0x41]));
}

#[test]
fn replace_policy_puts_replacement_where_faults_were() {
    let out = stage("un_utf8", "", items(&[0x41, 0xFF, 0x42]), ErrorPolicy::Replace);
    assert_eq!(bytes_of(&out), codepoints(&[0x41, 0xFFFD, 0x42]));
    let w = stage("utf8", "", items(&codepoints(&[0x80000000, 0x41])), ErrorPolicy::Replace);
    assert_eq!(bytes_of(&w), vec![0xEF, 0xBF, 0xBD, 0x41]);
}

#[test]
fn decoding_then_encoding_utf8_is_the_identity() {
    let text = "h\u{e9}llo \u{20ac} \u{1f600} \u{10ffff}".as_bytes().to_vec();
    let cps = stage("un_utf8", "", items(&text), ErrorPolicy::Halt);
    let again = bytes_of(&stage("utf8", "", cps, ErrorPolicy::Halt));
    assert_eq!(again, text);
}

#[test]
fn base64_stage_encodes_and_wraps() {
    let out = bytes_of(&stage("base64", "width=none", items(b"foo!"), ErrorPolicy::Halt));
    assert_eq!(out, b"Zm9vIQ==".to_vec());
    let wrapped = bytes_of(&stage("base64", "width=6", items(b"foobar!"), ErrorPolicy::Halt));
    assert_eq!(wrapped, b"Zm9vYm\nFyIQ==\n".to_vec());
    let narrow = bytes_of(&stage("base64", "width=1", items(b"f"), ErrorPolicy::Halt));
    assert_eq!(narrow, b"Z\ng\n=\n=\n".to_vec());
}

#[test]
fn base64_stage_decodes_across_line_breaks() {
    let out = bytes_of(&stage("un_base64", "", items(b"Zm9v\r\nYmFy\nIQ=="), ErrorPolicy::Halt));
    assert_eq!(out, b"foobar!".to_vec());
    let custom = bytes_of(&stage("un_base64", "62=-,63=_,pad=none", items(b"-_8"), ErrorPolicy::Halt));
    assert_eq!(custom, vec![0xFB, 0xFF]);
}

#[test]
fn base64_stage_reports_garbage_after_the_good_bytes() {
    let out = stage("un_base64", "", items(b"Zm9v*"), ErrorPolicy::Halt);
    assert_eq!(bytes_of(&out[..3]), b"foo".to_vec());
    assert!(out[3].is_err());
    let ignored = bytes_of(&stage("un_base64", "ignore_garbage", items(b"Zm*9v"), ErrorPolicy::Halt));
    assert_eq!(ignored, b"foo".to_vec());
    let partial = stage("un_base64", "", items(b"Zm9vYg*"), ErrorPolicy::Halt);
    assert_eq!(bytes_of(&partial[..4]), b"foob".to_vec());
    assert!(partial[4].is_err());
}

#[test]
fn base64_round_trip_of_all_lengths() {
    let b64 = Base64 { code62: b'+', code63: b'/', pad: Some(b'=') };
    let unpadded = Base64 { code62: b'-', code63: b'_', pad: None };
    let data: Vec<u8> = (0..=255u8).collect();
    for n in 0..20 {
        assert_eq!(b64.decode(&b64.encode(&data[..n])).unwrap(), data[..n].to_vec());
        assert_eq!(unpadded.decode(&unpadded.encode(&data[250 - n..])).unwrap(), data[250 - n..].to_vec());
    }
}

#[test]
fn base64_invalid_character_and_missing_padding() {
    let b64 = Base64 { code62: b'+', code63: b'/', pad: Some(b'=') };
    let (out, _) = b64.decode(b"Zm9v!").err().unwrap();
    assert_eq!(out, b"foo".to_vec());
    let (out, _) = b64.decode(b"Zg=").err().unwrap();
    assert_eq!(out, b"f".to_vec());
}

#[test]
fn hex_stages() {
    let out = bytes_of(&stage("hex", "", items(&[0xAB, 0x01]), ErrorPolicy::Halt));
    assert_eq!(out, b"ab 01 \n".to_vec());
    let back = bytes_of(&stage("un_hex", "", items(b" aB\n0f "), ErrorPolicy::Halt));
    assert_eq!(back, vec![0xAB, 0x0F]);
    let odd = stage("un_hex", "", items(b"abc"), ErrorPolicy::Halt);
    assert_eq!(bytes_of(&odd[..1]), vec![0xAB]);
    assert!(odd[1].is_err());
    let bad = stage("un_hex", "", items(b"zz"), ErrorPolicy::Halt);
    assert!(bad[0].is_err());
}

#[test]
fn null_discards_everything() {
    assert!(stage("null", "", items(b"anything"), ErrorPolicy::Halt).is_empty());
}

#[test]
fn windows1252_stages() {
    let out = bytes_of(&stage("windows1252", "", items(&codepoints(&[0x41, 0x20AC, 0x178, 0xE9, 0x3A9])), ErrorPolicy::Halt));
    assert_eq!(out, vec![0x41, 0x80, 0x9F, 0xE9, b'?']);
    let back = bytes_of(&stage("un_windows1252", "", items(&[0x80, 0x41, 0x9F]), ErrorPolicy::Halt));
    assert_eq!(back, codepoints(&[0x20AC, 0x41, 0x178]));
    let undefined = stage("un_windows1252", "", items(&[0x81]), ErrorPolicy::Halt);
    assert_eq!(undefined[0].as_ref().err().unwrap().bad_bytes, Some(vec![0x81]));
}

#[test]
fn ucode_stages() {
    let out = bytes_of(&stage("ucode", "", items(&codepoints(&[0x41, 0x1F600])), ErrorPolicy::Halt));
    assert_eq!(out, b"U+0041 U+1F600 ".to_vec());
    let back = bytes_of(&stage("un_ucode", "", items(b" U+0041 U+1F600\nU+10FFFF"), ErrorPolicy::Halt));
    assert_eq!(back, codepoints(&[0x41, 0x1F600, 0x10FFFF]));
    let bad = stage("un_ucode", "", items(b"X+0041"), ErrorPolicy::Halt);
    assert!(bad[0].is_err());
}

#[test]
fn catalog_rejects_unknown_names_and_options() {
    assert!(get_encoding("nope", "").is_err());
    assert!(get_encoding("utf16", "middle").is_err());
    assert!(get_encoding("base64", "width=wide").is_err());
    assert!(get_encoding("base64", "62=ab").is_err());
    assert!(get_encoding("UTF8", "").is_ok());
}

#[test]
fn error_policy_names() {
    assert_eq!(parse_error_policy("halt"), Some(ErrorPolicy::Halt));
    assert_eq!(parse_error_policy("skip"), Some(ErrorPolicy::Skip));
    assert_eq!(parse_error_policy("replace"), Some(ErrorPolicy::Replace));
    assert_eq!(parse_error_policy("Halt"), None);
}

#[test]
fn byte_conversions() {
    assert_eq!(u32_to_bytes(0x01020304, true), vec![1, 2, 3, 4]);
    assert_eq!(u32_to_bytes(0x01020304, false), vec![4, 3, 2, 1]);
    assert_eq!(u32_from_bytes(&[1, 2, 3, 4], true), 0x01020304);
    assert_eq!(u32_from_bytes(&[1, 2, 3, 4], false), 0x04030201);
    assert_eq!(u16_to_bytes(0xFFFD, false), vec![0xFD, 0xFF]);
    assert_eq!(u16_from_bytes(&[0xD8, 0x3D], true), 0xD83D);
    assert_eq!(unicode_replacement(), vec![0, 0, 0xFF, 0xFD]);
}

#[test]
fn upstream_error_reaches_the_next_stage() {
    let mut input = items(&[0x41]);
    input.push(Err(CodeError::new("broken pipe")));
    let out = stage("hex", "", input, ErrorPolicy::Halt);
    assert_eq!(bytes_of(&out[..3]), b"41 ".to_vec());
    assert_eq!(out[3].as_ref().err().unwrap().message, "broken pipe");
}

#[test]
fn cp437_stages() {
    let out = bytes_of(&stage("cp437", "", items(&codepoints(&[0x41, 0x263A, 0x0A, 0x2302, 0x3A9, 0x1F600])), ErrorPolicy::Halt));
    assert_eq!(out, vec![0x41, 0x01, 0x0A, 0x7F, 0xEA, b'?']);
    let nonl = bytes_of(&stage("cp437", "nonl", items(&codepoints(&[0x0A, 0x25D9])), ErrorPolicy::Halt));
    assert_eq!(nonl, vec![b'?', 0x0A]);
    let back = bytes_of(&stage("un_cp437", "", items(&[0x01, 0x0A, 0x41, 0xEA]), ErrorPolicy::Halt));
    assert_eq!(back, codepoints(&[0x263A, 0x0A, 0x41, 0x3A9]));
    let back_nonl = bytes_of(&stage("un_cp437", "nonl", items(&[0x0A]), ErrorPolicy::Halt));
    assert_eq!(back_nonl, codepoints(&[0x25D9]));
    assert!(get_encoding("cp437", "wide").is_err());
}

#[test]
fn iso8859_stages() {
    let latin2 = bytes_of(&stage("iso8859", "2", items(&codepoints(&[0x41, 0x0104, 0x0141, 0x20AC])), ErrorPolicy::Halt));
    assert_eq!(latin2, vec![0x41, 0xA1, 0xA3, b'?']);
    let latin9 = bytes_of(&stage("iso8859", "15", items(&codepoints(&[0x20AC, 0xE9, 0x100])), ErrorPolicy::Halt));
    assert_eq!(latin9, vec![0xA4, 0xE9, b'?']);
    let latin1 = bytes_of(&stage("iso8859", "1", items(&codepoints(&[0xE9, 0x100])), ErrorPolicy::Halt));
    assert_eq!(latin1, vec![0xE9, b'?']);
    let back = bytes_of(&stage("un_iso8859", "15", items(&[0xA4, 0xE9]), ErrorPolicy::Halt));
    assert_eq!(back, codepoints(&[0x20AC, 0xE9]));
    let back2 = bytes_of(&stage("un_iso8859", "2", items(&[0xA1, 0x41]), ErrorPolicy::Halt));
    assert_eq!(back2, codepoints(&[0x0104, 0x41]));
    let arabic = stage("un_iso8859", "6", items(&[0xA1, 0xA4]), ErrorPolicy::Halt);
    assert_eq!(arabic[0].as_ref().err().unwrap().bad_bytes, Some(vec![0xA1]));
    assert_eq!(bytes_of(&arabic[1..]), codepoints(&[0xA4]));
    assert!(get_encoding("iso8859", "").is_err());
    assert!(get_encoding("iso8859", "7").is_err());
    assert!(get_encoding("iso8859", "12").is_err());
}

#[test]
fn shift_jis_decoding() {
    let out = stage("un_shift_jis", "", items(&[0x41, 0x5C, 0x7E, 0xB1, 0x82, 0xA0, 0x80]), ErrorPolicy::Halt);
    assert_eq!(bytes_of(&out[..20]), codepoints(&[0x41, 0xA5, 0x203E, 0xFF71, 0xFFFD]));
    assert_eq!(out[20].as_ref().err().unwrap().bad_bytes, Some(vec![0x80]));
    let mismatched = stage("un_shift_jis", "", items(&[0x82, 0x40]), ErrorPolicy::Halt);
    assert!(mismatched[0].is_err());
    assert!(get_encoding("shift_jis", "").is_err());
}

#[test]
fn base64_unpadded_trailing_groups() {
    let b64 = Base64 { code62: b'+', code63: b'/', pad: None };
    assert_eq!(b64.decode(b"Zg").unwrap(), b"f".to_vec());
    assert_eq!(b64.decode(b"Zm8").unwrap(), b"fo".to_vec());
    assert_eq!(b64.encode(b"fo"), b"Zm8".to_vec());
}

#[test]
fn utf7_encoder_reads_on_until_a_run_can_be_written() {
    let mut input = BufferedInput::new(items(&codepoints(&[0x1F600, 0x61])));
    let mut enc = Utf7Encode::new();
    assert_eq!(enc.next(&mut input).unwrap().unwrap(), b"+2D3eAA-a".to_vec());
    assert!(enc.next(&mut input).is_none());
    let mut tail = BufferedInput::new(items(&codepoints(&[0x263A])));
    let mut enc2 = Utf7Encode::new();
    assert_eq!(enc2.next(&mut tail).unwrap().unwrap(), b"+Jjo".to_vec());
    assert!(enc2.next(&mut tail).is_none());
}

#[test]
fn fresh_stage_over_empty_input_ends_at_once() {
    assert!(stage("un_utf8", "", Vec::new(), ErrorPolicy::Halt).is_empty());
}

#[test]
fn ucode_codes_of_five_and_six_digits_and_at_the_end() {
    let six = bytes_of(&stage("un_ucode", "", items(b"U+10FFFFU+0041"), ErrorPolicy::Halt));
    assert_eq!(six, codepoints(&[0x10FFFF, 0x41]));
    let five_at_end = bytes_of(&stage("un_ucode", "", items(b"U+1F600"), ErrorPolicy::Halt));
    assert_eq!(five_at_end, codepoints(&[0x1F600]));
}

#[test]
fn utf7_run_of_eleven_symbols_and_run_closed_by_the_end() {
    let cps = [0x1F600, 0x1F601, 0x41];
    let encoded = bytes_of(&stage("utf7", "", items(&codepoints(&cps)), ErrorPolicy::Halt));
    let decoded = bytes_of(&stage("un_utf7", "", items(&encoded), ErrorPolicy::Halt));
    assert_eq!(decoded, codepoints(&cps));
    let open_run = bytes_of(&stage("un_utf7", "", items(b"+2D3eAA"), ErrorPolicy::Halt));
    assert_eq!(open_run, codepoints(&[0x1F600]));
}

fn streamed(schemes: &[(&str, &str)], input: &[u8], chunk: usize, policy: ErrorPolicy) -> Vec<Item> {
    let mut pipeline: Option<Pipeline> = None;
    for (name, options) in schemes {
        let codec = get_encoding(name, options).unwrap();
        pipeline = Some(match pipeline {
            None => Pipeline::source(codec, name, policy),
            Some(below) => Pipeline::stack(below, codec, name, policy),
        });
    }
    let mut pipeline = pipeline.unwrap();
    let mut fed = 0;
    let mut out = Vec::new();
    loop {
        match pipeline.step() {
            Step::Ready(item) => out.push(item),
            Step::End => break,
            Step::Moved => {}
            Step::NeedInput => {
                if fed >= input.len() {
                    pipeline.end_input();
                } else {
                    let end = (fed + chunk).min(input.len());
                    pipeline.feed(items(&input[fed..end]));
                    fed = end;
                }
            }
        }
        assert!(out.len() < 100_000);
    }
    out
}

#[test]
fn streamed_pipeline_matches_whole_input() {
    let text = "h\u{e9}llo \u{20ac} \u{1f600}\u{1f601} +~ \u{10ffff}!".as_bytes().to_vec();
    for chunk in [1, 2, 3, 7, 100] {
        let same = bytes_of(&streamed(&[("un_utf8", ""), ("utf8", "")], &text, chunk, ErrorPolicy::Halt));
        assert_eq!(same, text);
        let utf7 = bytes_of(&streamed(&[("un_utf8", ""), ("utf7", ""), ("un_utf7", ""), ("utf8", "")], &text, chunk, ErrorPolicy::Halt));
        assert_eq!(utf7, text);
        let b64 = bytes_of(&streamed(&[("base64", "width=5"), ("un_base64", "")], &text, chunk, ErrorPolicy::Halt));
        assert_eq!(b64, text);
        let hex = bytes_of(&streamed(&[("hex", ""), ("un_hex", "")], &text, chunk, ErrorPolicy::Halt));
        assert_eq!(hex, text);
        let ucode = bytes_of(&streamed(&[("un_utf8", ""), ("ucode", ""), ("un_ucode", ""), ("utf16", "be"), ("un_utf16", "be"), ("utf8", "")], &text, chunk, ErrorPolicy::Halt));
        assert_eq!(ucode, text);
    }
}

#[test]
fn open_stage_asks_for_more_input() {
    let mut stage = Encoder::open(get_encoding("un_utf8", "").unwrap(), "un_utf8", ErrorPolicy::Halt);
    stage.feed(items(&[0xE2, 0x82]));
    assert!(matches!(stage.pull(), Pull::NeedInput));
    stage.feed(items(&[0xAC]));
    stage.end_input();
    let mut out = Vec::new();
    loop {
        match stage.pull() {
            Pull::Ready(item) => out.push(item),
            Pull::End => break,
            Pull::NeedInput => panic!("closed input"),
        }
    }
    assert_eq!(bytes_of(&out), codepoints(&[0x20AC]));
}

#[test]
fn streamed_errors_follow_the_policy() {
    let out = streamed(&[("un_utf8", "")], &[0x41, 0xFF, 0x42], 1, ErrorPolicy::Replace);
    assert_eq!(bytes_of(&out), codepoints(&[0x41, 0xFFFD, 0x42]));
    let halted = streamed(&[("un_utf8", "")], &[0x41, 0xFF, 0x42], 1, ErrorPolicy::Halt);
    assert_eq!(bytes_of(&halted[..4]), codepoints(&[0x41]));
    assert!(halted[4].is_err());
}
