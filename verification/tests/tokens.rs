//! The two tokenizers.

use tiny_infer::host::error::HostError;
use tiny_infer::llama::bpe::UNK_ID;
use tiny_infer::llama::tokenizer::{TokenEntry, Vocab, BOS_ID};
use tiny_infer::scalar::Scalar;
use tiny_infer::seq2seq::tokenizer::{normalize, Piece, SpecialIds, Tokenizer, TOKENIZER_MAGIC};

/// Single-precision arithmetic on bit patterns.
fn single(s: Scalar) -> u32 {
    let f = f32::from_bits;
    let r = match s {
        Scalar::Add(x, y) => f(x) + f(y),
        Scalar::Sub(x, y) => f(x) - f(y),
        Scalar::Mul(x, y) => f(x) * f(y),
        Scalar::Div(x, y) => f(x) / f(y),
        Scalar::Sqrt(x) => libm::sqrtf(f(x)),
        Scalar::Exp(x) => libm::expf(f(x)),
        Scalar::Sin(x) => libm::sinf(f(x)),
        Scalar::Cos(x) => libm::cosf(f(x)),
        Scalar::Erf(x) => libm::erff(f(x)),
        Scalar::Pow(x, y) => libm::powf(f(x), f(y)),
        Scalar::Count(n) => n as f32,
        Scalar::Int(i) => i as f32,
        Scalar::Nearest(x) => return libm::roundf(f(x)) as i8 as u8 as u32,
        Scalar::SumLanes(v) => wide::f32x8::from(v.map(f)).reduce_add(),
    };
    r.to_bits()
}

/// Build a tokenizer blob from scores and pieces.
fn blob(max_len: i32, entries: &[(f32, &[u8])]) -> Vec<u8> {
    let mut out = Vec::new();
    out.extend_from_slice(&max_len.to_le_bytes());
    for (score, piece) in entries {
        out.extend_from_slice(&score.to_le_bytes());
        out.extend_from_slice(&(piece.len() as i32).to_le_bytes());
        out.extend_from_slice(piece);
    }
    out
}

fn complaint(r: Result<Vocab, HostError>) -> String {
    match r {
        Err(HostError::Tokenizer(msg)) => msg,
        _ => panic!("no complaint about the tokenizer"),
    }
}

#[test]
fn parses_synthetic_vocab() {
    let data = blob(5, &[(0.0, b"<unk>"), (-1.0, b"\xe2\x96\x81the"), (-2.0, b"<0x0A>")]);
    let v = Vocab::parse(&data, 3).unwrap();
    assert_eq!(v.max_token_length, 5);
    assert_eq!(v.len(), 3);
    assert!(!v.is_empty());
    assert_eq!(v.tokens[0].display(), "<unk>");
    assert_eq!(v.tokens[1].display(), "_the");
    assert!(v.tokens[2].is_byte_fallback());
    assert!(!v.tokens[0].is_byte_fallback());
    assert_eq!(v.tokens[1].score, (-1.0f32).to_bits());
}

#[test]
fn rejects_truncated_blob() {
    let mut data = blob(5, &[(0.0, b"hi")]);
    data.pop();
    let err = Vocab::parse(&data, 1).unwrap_err();
    assert!(matches!(err, HostError::Tokenizer(_)));
}

#[test]
fn rejects_trailing_data() {
    let mut data = blob(5, &[(0.0, b"hi")]);
    data.push(0xFF);
    assert!(matches!(Vocab::parse(&data, 1).unwrap_err(), HostError::Tokenizer(_)));
}

#[test]
fn rejects_too_few_tokens() {
    let data = blob(5, &[(0.0, b"hi")]);
    assert!(matches!(Vocab::parse(&data, 2).unwrap_err(), HostError::Tokenizer(_)));
}

#[test]
fn complaints_say_where_a_blob_is_bad() {
    let cut = complaint(Vocab::parse(&[1, 2], 1));
    assert!(cut.contains("max_token_length"), "{cut}");
    let mut data = blob(5, &[(0.0, b"hi")]);
    data[8..12].copy_from_slice(&(-2i32).to_le_bytes());
    assert_eq!(complaint(Vocab::parse(&data, 1)), "token 0 has negative length -2");
}

#[test]
fn broken_utf8_is_shown_with_replacements() {
    let data = blob(3, &[(0.0, b"a\xffb")]);
    let v = Vocab::parse(&data, 1).unwrap();
    assert_eq!(v.tokens[0].display(), "a\u{fffd}b");
}

fn entry(score: f32, bytes: &[u8]) -> TokenEntry {
    TokenEntry { score: score.to_bits(), bytes: bytes.to_vec() }
}

/// A small vocabulary with two possible merges.
fn ab_vocab() -> Vocab {
    Vocab {
        max_token_length: 5,
        tokens: vec![
            entry(0.0, b"<unk>"),
            entry(0.0, b"\n<s>\n"),
            entry(0.0, b"\n</s>\n"),
            entry(-1.0, b"a"),
            entry(-2.0, b"b"),
            entry(5.0, b"ab"),
            entry(-3.0, b" "),
            entry(1.0, b" a"),
        ],
    }
}

/// The three specials followed by all byte-fallback tokens.
fn byte_vocab() -> Vocab {
    let mut tokens = vec![
        entry(0.0, b"<unk>"),
        entry(0.0, b"\n<s>\n"),
        entry(0.0, b"\n</s>\n"),
    ];
    for n in 0u32..256 {
        tokens.push(entry(0.0, format!("<0x{n:02X}>").as_bytes()));
    }
    Vocab { max_token_length: 6, tokens }
}

#[test]
fn byte_fallback_value_parses_hex() {
    assert_eq!(entry(0.0, b"<0x0A>").byte_fallback_value(), Some(0x0A));
    assert_eq!(entry(0.0, b"<0xFF>").byte_fallback_value(), Some(0xFF));
    assert_eq!(entry(0.0, b"hello!").byte_fallback_value(), None);
    assert_eq!(entry(0.0, b" the").byte_fallback_value(), None);
}

#[test]
fn encode_emits_bos_dummy_prefix_and_best_merge() {
    let v = ab_vocab();
    assert_eq!(v.encode("ab", true), vec![1, 6, 5]);
    assert_eq!(v.encode("ab", false), vec![6, 5]);
    assert_eq!(v.encode("", true), vec![1]);
}

#[test]
fn encode_falls_back_to_byte_tokens() {
    let v = byte_vocab();
    assert_eq!(v.encode("\n", false), vec![0x0A + 3]);
    assert_eq!(v.encode("\n\n", false), vec![0x0A + 3, 0x0A + 3]);
}

#[test]
fn without_byte_tokens_the_unknown_is_unknown() {
    let v = ab_vocab();
    assert_eq!(v.encode("aé", false), vec![7, UNK_ID]);
}

#[test]
fn decode_strips_leading_space_after_bos() {
    let v = ab_vocab();
    assert_eq!(v.decode(BOS_ID, 6), b"");
    assert_eq!(v.decode(BOS_ID, 7), b"a");
    assert_eq!(v.decode(7, 7), b" a");
}

#[test]
fn decode_expands_byte_fallback_tokens() {
    let v = byte_vocab();
    assert_eq!(v.decode(0, 0x0A + 3), vec![b'\n']);
}

#[test]
fn encode_decode_round_trips() {
    let v = ab_vocab();
    let toks = v.encode("ab", true);
    let mut out = Vec::new();
    for w in toks.windows(2) {
        out.extend(v.decode(w[0], w[1]));
    }
    assert_eq!(out, b"ab");
}

#[test]
fn bytes_come_back_through_fallback_tokens() {
    let mut v = byte_vocab();
    v.tokens.push(entry(-1.0, b" "));
    let text = "é\n!";
    let toks = v.encode(text, true);
    let mut out = Vec::new();
    for w in toks.windows(2) {
        out.extend(v.decode(w[0], w[1]));
    }
    assert_eq!(out, text.as_bytes());
}

/// A tokenizer over a few pieces.
fn toy() -> Tokenizer {
    let entries = [
        ("▁he", 10u32, -1.0f32),
        ("▁hello", 11, -1.5),
        ("ll", 12, -3.0),
        ("o", 13, -3.0),
        ("e", 14, -3.0),
        ("h", 15, -4.0),
        ("▁", 16, -2.0),
        ("!", 17, -1.0),
    ];
    let mut id_to_piece = vec![String::new(); 32];
    let mut pieces = Vec::new();
    for (p, id, sc) in entries {
        pieces.push(Piece { text: p.to_string(), id, score: sc.to_bits() });
        id_to_piece[id as usize] = p.to_string();
    }
    Tokenizer::new(pieces, id_to_piece, SpecialIds { unk: 0, eos: 1, pad: 2 }, &single)
}

#[test]
fn normalize_collapses_and_marks_whitespace() {
    assert_eq!(normalize("  hello   world  "), "▁hello▁world");
    assert_eq!(normalize("hi"), "▁hi");
    assert_eq!(normalize(""), "");
}

#[test]
fn viterbi_prefers_the_higher_scoring_segmentation() {
    let t = toy();
    let ids = t.encode("hello!", &single);
    assert_eq!(ids, vec![11, 17, t.eos_id]);
}

#[test]
fn unknown_characters_fall_back_to_unk() {
    let t = toy();
    let ids = t.encode("z", &single);
    assert_eq!(*ids.last().unwrap(), t.eos_id);
    assert!(ids.contains(&t.unk_id), "expected an unk token in {ids:?}");
    assert_eq!(ids, vec![16, 0, 1]);
}

#[test]
fn decode_joins_pieces_and_restores_spaces() {
    let t = toy();
    assert_eq!(t.decode(&[11, 17, t.eos_id]), "hello!");
    assert_eq!(t.decode(&[t.pad_id, 11, t.pad_id]), "hello");
}

#[test]
fn the_least_score_sets_that_of_the_unknown() {
    let t = toy();
    assert_eq!(f32::from_bits(t.unk_score), -14.0);
    assert_eq!(t.max_piece_chars, 6);
}

/// The bytes of a tokenizer file with two pieces and three texts.
fn artifact() -> Vec<u8> {
    let mut out = TOKENIZER_MAGIC.to_le_bytes().to_vec();
    for v in [1i32, 3, 2, 0, 1, 2] {
        out.extend_from_slice(&v.to_le_bytes());
    }
    for (id, score, piece) in [(0u32, -2.0f32, "▁"), (1, -3.5, "▁é")] {
        out.extend_from_slice(&id.to_le_bytes());
        out.extend_from_slice(&score.to_le_bytes());
        out.extend_from_slice(&(piece.len() as u32).to_le_bytes());
        out.extend_from_slice(piece.as_bytes());
    }
    for text in ["▁", "▁é", "</s>"] {
        out.extend_from_slice(&(text.len() as u32).to_le_bytes());
        out.extend_from_slice(text.as_bytes());
    }
    out
}

#[test]
fn a_tokenizer_file_is_read() {
    assert_eq!(&artifact()[..4], b"tit1");
    let t = Tokenizer::parse(&artifact(), &single).unwrap();
    assert_eq!((t.unk_id, t.eos_id, t.pad_id), (0, 1, 2));
    assert_eq!(t.id_to_piece, ["▁", "▁é", "</s>"]);
    assert_eq!(t.max_piece_chars, 2);
    assert_eq!(f32::from_bits(t.unk_score), -13.5);
    assert_eq!(t.encode(" é ", &single), vec![1, 1]);
    assert_eq!(t.encode("\t\n", &single), vec![1]);
}

#[test]
fn a_broken_tokenizer_file_is_refused() {
    let good = artifact();
    for n in 0..good.len() {
        assert!(Tokenizer::parse(&good[..n], &single).is_none(), "{n} bytes");
    }
    // Bytes behind the last text are passed over.
    let mut longer = good.clone();
    longer.push(0);
    assert!(Tokenizer::parse(&longer, &single).is_some());
    // Another magic, another version, and a text that is no UTF-8.
    let last = good.len() - 1;
    for (at, byte) in [(0usize, b'x'), (4, 2), (last, 0xff)] {
        let mut bad = good.clone();
        bad[at] = byte;
        assert!(Tokenizer::parse(&bad, &single).is_none());
    }
}
