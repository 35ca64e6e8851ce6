//! Loading, converting and reporting on checkpoints.

use tiny_infer::error::EngineError;
use tiny_infer::host::args::Target;
use tiny_infer::host::error::HostError;
use tiny_infer::llama::config::{Config, ModelFormat};
use tiny_infer::llama::convert::{convert, summary};
use tiny_infer::llama::loader::Model;
use tiny_infer::llama::quantize::{
    quantize_weights, quantized_scale_count, quantized_weight_count,
};
use tiny_infer::llama::report::{
    check_sizes, format_label, quant_group_size, report_memory, report_model, report_tokenizer,
    weight_sizes,
};
use tiny_infer::llama::tokenizer::{TokenEntry, Vocab};
use tiny_infer::llama::weights::weight_floats;
use tiny_infer::q8::quantize_group;
use tiny_infer::scalar::Scalar;
use tiny_infer::seq2seq;
use tiny_infer::seq2seq::loader::Seq2SeqModel;
use tiny_infer::seq2seq::report::report_seq2seq;

/// Single-precision arithmetic on bit patterns.
fn single(s: Scalar) -> u32 {
    let f = f32::from_bits;
    let r = match s {
        Scalar::Add(x, y) => f(x) + f(y),
        Scalar::Sub(x, y) => f(x) - f(y),
        Scalar::Mul(x, y) => f(x) * f(y),
        Scalar::Div(x, y) => f(x) / f(y),
        Scalar::Sqrt(x) => libm::sqrtf(f(x)),
        Scalar::Exp(x) => libm::expf(f(x)),
        Scalar::Sin(x) => libm::sinf(f(x)),
        Scalar::Cos(x) => libm::cosf(f(x)),
        Scalar::Erf(x) => libm::erff(f(x)),
        Scalar::Pow(x, y) => libm::powf(f(x), f(y)),
        Scalar::Count(n) => n as f32,
        Scalar::Int(i) => i as f32,
        Scalar::Nearest(x) => return libm::roundf(f(x)) as i8 as u8 as u32,
        Scalar::SumLanes(v) => wide::f32x8::from(v.map(f)).reduce_add(),
    };
    r.to_bits()
}

fn by_groups(g: &[u32]) -> (Vec<i8>, u32) {
    quantize_group(g, &single)
}

/// A legacy checkpoint with made-up weights.
fn legacy(shared: bool) -> Vec<u8> {
    let vocab = if shared { 6 } else { -6 };
    let mut out = Vec::new();
    for v in [8i32, 16, 2, 4, 2, vocab, 4] {
        out.extend_from_slice(&v.to_le_bytes());
    }
    let c = Config::parse(&out).unwrap();
    for i in 0..weight_floats(&c) {
        out.extend_from_slice(&((i as f32 * 0.37).sin() * 0.1).to_le_bytes());
    }
    out
}

fn load(bytes: &[u8]) -> Model {
    Model::parse("m.bin".to_string(), bytes).unwrap()
}

#[test]
fn a_loaded_checkpoint_has_its_weights() {
    let bytes = legacy(true);
    let m = load(&bytes);
    assert_eq!(m.format, ModelFormat::Legacy);
    assert_eq!(m.path(), "m.bin");
    assert_eq!(m.file_bytes, bytes.len());
    assert_eq!(m.weight_bytes(), bytes.len() - 28);
    let w = m.weights().unwrap();
    assert_eq!(w.token_embedding[1], ((0.37f32).sin() * 0.1).to_bits());
    assert!(matches!(m.unpack_q8(), Err(HostError::Format { .. })));
}

#[test]
fn truncated_and_odd_checkpoints_are_refused() {
    let bytes = legacy(true);
    let odd = Model::parse("m.bin".to_string(), &bytes[..30]);
    assert!(matches!(odd, Err(HostError::NotF32Aligned { len: 30, .. })));
    let header = Model::parse("m.bin".to_string(), &bytes[..28]);
    let error = match header {
        Err(HostError::Engine { source, .. }) => source,
        _ => panic!("no engine error"),
    };
    assert_eq!(error, EngineError::SizeMismatch { expected: bytes.len(), actual: 28 });
    assert!(error.message().contains("size mismatch"));
    let short = Model::parse("m.bin".to_string(), &bytes[..8]);
    assert!(matches!(
        short,
        Err(HostError::Engine { source: EngineError::HeaderTooShort, .. })
    ));
}

#[test]
fn converting_to_v1_keeps_every_bit() {
    for shared in [true, false] {
        let m = load(&legacy(shared));
        let image = convert(&m, Target::V1, 32, &by_groups).unwrap();
        let v1 = load(&image);
        assert_eq!(v1.format, ModelFormat::V1);
        assert_eq!(v1.config, m.config);
        let (a, b) = (m.weights().unwrap(), v1.weights().unwrap());
        assert_eq!(a.rms_att, b.rms_att);
        assert_eq!(a.token_embedding, b.token_embedding);
        assert_eq!(a.wq, b.wq);
        assert_eq!(a.wk, b.wk);
        assert_eq!(a.wv, b.wv);
        assert_eq!(a.wo, b.wo);
        assert_eq!(a.rms_ffn, b.rms_ffn);
        assert_eq!(a.w1, b.w1);
        assert_eq!(a.w2, b.w2);
        assert_eq!(a.w3, b.w3);
        assert_eq!(a.rms_final, b.rms_final);
        assert_eq!(a.wcls, b.wcls);
    }
}

#[test]
fn converting_to_v2_is_quantizing() {
    for shared in [true, false] {
        let m = load(&legacy(shared));
        let gs = 4;
        let v2 = load(&convert(&m, Target::V2, gs, &by_groups).unwrap());
        assert_eq!(v2.format, ModelFormat::V2 { group_size: gs });
        let packed = v2.unpack_q8().unwrap();
        let w = m.weights().unwrap();
        let mut data = vec![0i8; quantized_weight_count(&m.config)];
        let mut scales = vec![0u32; quantized_scale_count(&m.config, gs)];
        quantize_weights(&w, &mut data, &mut scales, gs, &m.config, &by_groups);
        assert_eq!(packed.data, data);
        assert_eq!(packed.scales, scales);
        assert_eq!(packed.rms_att, w.rms_att);
        assert_eq!(packed.rms_ffn, w.rms_ffn);
        assert_eq!(packed.rms_final, w.rms_final);
        assert_eq!(packed.group_size, gs);
        // There are no weights in full precision any more, and no way back to them.
        assert!(matches!(v2.weights(), Err(HostError::Format { .. })));
        let back = convert(&v2, Target::V1, gs, &by_groups);
        assert!(matches!(back, Err(HostError::Format { ref msg, .. }) if msg.contains("already int8")));
    }
}

#[test]
fn a_conversion_is_summed_up() {
    assert_eq!(
        summary(Target::V1, "o.bin", 1234, 32),
        "[wrote v1 (fp32) checkpoint: o.bin (1234 bytes)]"
    );
    assert_eq!(
        summary(Target::V2, "o.bin", 77, 32),
        "[wrote v2 (int8) checkpoint: o.bin (77 bytes), group_size 32]"
    );
}

#[test]
fn reports_show_the_format() {
    assert_eq!(format_label(ModelFormat::Legacy), "legacy (v0), fp32 weights");
    assert_eq!(format_label(ModelFormat::V1), "v1, fp32 weights");
    assert_eq!(
        format_label(ModelFormat::V2 { group_size: 32 }),
        "v2, int8 weights (group_size 32)"
    );
}

#[test]
fn a_model_is_reported_line_by_line() {
    let m = load(&legacy(true));
    let n = weight_floats(&m.config) * 4;
    let kib = (n as f64 / 1024.0 * 100.0).round() / 100.0;
    let want = [
        "Model: x/m.bin",
        "  status         OK (file size matches config)",
        "  format         legacy (v0), fp32 weights",
        "  dim            8",
        "  hidden_dim     16",
        "  n_layers       2",
        "  n_heads        4",
        "  n_kv_heads     2",
        "  vocab_size     6",
        "  seq_len        4",
        "  head_size      2",
        "  kv_dim         4",
        "  kv_mul         2",
        "  shared_weights true (output projection reuses token embedding)",
        &format!("  weights        {kib} KiB ({},{:03})", n / 1000, n % 1000),
        "",
    ]
    .join("\n");
    assert_eq!(report_model("x/m.bin", &m), want);
}

#[test]
fn memory_is_reported_with_both_weights() {
    let m = load(&legacy(true));
    let c = m.config;
    assert!(check_sizes(&c));
    assert_eq!(quant_group_size(&c), None);
    let sizes = weight_sizes(&c);
    assert_eq!(sizes.int8, None);
    let text = report_memory(&m, "");
    assert!(text.contains("not int8-quantizable"), "{text}");
    // 8 divides every row of a model with wider heads.
    let c = Config { n_kv_heads: 4, ..c };
    assert_eq!(quant_group_size(&c), Some(8));
    let values = quantized_weight_count(&c);
    let norms = 2 * 2 * 8 + 8;
    let sizes = weight_sizes(&c);
    assert_eq!(sizes.fp32, (values + norms) * 4);
    assert_eq!(sizes.int8, Some((8, values + values / 8 * 4 + norms * 4)));
    // A config that no machine could hold.
    let big = i32::MAX as usize;
    let huge = Config { dim: big - 1, hidden_dim: big, n_heads: 1, n_kv_heads: 1, n_layers: big, ..c };
    assert!(!check_sizes(&huge));
}

#[test]
fn a_tokenizer_is_reported() {
    let entry = |bytes: &[u8]| TokenEntry { score: 0, bytes: bytes.to_vec() };
    let vocab = Vocab {
        max_token_length: 7,
        tokens: vec![entry(b"<unk>"), entry(b"a\"b"), entry(b"<0x0A>")],
    };
    let scores = vec!["   0.0000".to_string(), "  -1.0000".to_string(), "   0.0000".to_string()];
    let text = report_tokenizer("t.bin", &vocab, &scores, "   0.0000");
    assert!(text.contains("Tokenizer: t.bin"), "{text}");
    assert!(text.contains("tokens             3"), "{text}");
    // The piece is quoted and escaped.
    assert!(text.contains("\"a\\\"b\""), "{text}");
}

fn marian() -> Vec<u8> {
    let mut out = b"tis2".to_vec();
    for v in [1i32, 4, 1, 1, 2, 2, 8, 8, 10, 6, 5, 9, 0, 0] {
        out.extend_from_slice(&v.to_le_bytes());
    }
    out.extend_from_slice(&[0, 1, 1]);
    out.resize(256, 0);
    for i in 0..482 {
        out.extend_from_slice(&(i as f32).to_le_bytes());
    }
    out
}

#[test]
fn a_seq2seq_checkpoint_is_loaded() {
    let bytes = marian();
    let m = Seq2SeqModel::parse("m.bin".to_string(), &bytes).unwrap();
    assert_eq!(m.weight_bytes(), 482 * 4);
    let w = m.weights().unwrap();
    assert_eq!(f32::from_bits(w.enc_wq[0]), 40.0);
    assert_eq!(f32::from_bits(w.final_logits_bias[9]), 481.0);
    let cut = Seq2SeqModel::parse("m.bin".to_string(), &bytes[..256]);
    assert!(matches!(
        cut,
        Err(HostError::Engine { source: EngineError::SizeMismatch { actual: 256, .. }, .. })
    ));
    let odd = Seq2SeqModel::parse("m.bin".to_string(), &bytes[..257]);
    assert!(matches!(odd, Err(HostError::NotF32Aligned { len: 257, .. })));
    let mut other = bytes.clone();
    other[0] = b'x';
    assert!(matches!(
        Seq2SeqModel::parse("m.bin".to_string(), &other),
        Err(HostError::Engine { source: EngineError::NotSeq2Seq, .. })
    ));
}

#[test]
fn a_seq2seq_model_is_reported() {
    let m = Seq2SeqModel::parse("m.bin".to_string(), &marian()).unwrap();
    assert!(seq2seq::report::check_sizes(&m));
    let text = report_seq2seq("m.bin", &m, "");
    for line in [
        "Model: m.bin",
        "  format          tiny-infer seq2seq v1 (Marian encoder-decoder), fp32 weights",
        "  d_model         4",
        "  encoder         1 layers, 2 heads (head_dim 2), ffn 8",
        "  decoder         1 layers, 2 heads (head_dim 2), ffn 8",
        "  vocab_size      10",
        "  max_src/max_tgt 6 / 5",
        "  pad/eos/bos     9 / 0 / 0  (decoder starts at pad)",
        "  norm placement  post-norm (Marian default)",
        "  activation      swish (SiLU)",
        "  scale_embedding true (embeddings × √d_model)",
        "  weights         1.88 KiB (1,928)",
        "Memory budget (working arena at max_src=6 / max_tgt=5):",
        "  encoder buffers      408 B  (102 f32)",
        "  cross-KV cache       192 B  (48 f32)",
        "  self-KV cache        160 B  (40 f32)",
        "  step scratch         184 B  (46 f32)",
        "  arena total          944 B  (236 f32)",
        "  weights (disk)    1.88 KiB",
        "  peak RAM         2.80 KiB  (weights + arena; not int8-quantizable)",
    ] {
        assert!(text.lines().any(|l| l == line), "no {line:?} in\n{text}");
    }
}

#[test]
fn quantized_weights_are_reported_as_smaller() {
    let mut bytes = b"tis2".to_vec();
    for v in [1i32, 8, 1, 1, 2, 2, 16, 16, 10, 6, 5, 9, 0, 0] {
        bytes.extend_from_slice(&v.to_le_bytes());
    }
    bytes.extend_from_slice(&[0, 1, 1]);
    bytes.resize(256, 0);
    let c = seq2seq::config::Config::parse(&bytes).unwrap();
    bytes.resize(seq2seq::weights::expected_file_bytes(&c), 0);
    let m = Seq2SeqModel::parse("m.bin".to_string(), &bytes).unwrap();
    let (gs, int8) = seq2seq::report::int8_size(&m).unwrap();
    assert_eq!(gs, 8);
    assert!(int8 < m.weight_bytes());
    let text = report_seq2seq("m.bin", &m, "2.9");
    assert!(text.contains("group_size 8"), "{text}");
    assert!(text.contains("(2.9× smaller)"), "{text}");
}
