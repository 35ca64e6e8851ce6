//! Checkpoint headers: parsing, validation, and telling formats apart.

use tiny_infer::error::{ConfigField, EngineError, Seq2SeqField};
use tiny_infer::llama::config::{
    is_llama, parse_header, Config, ModelFormat, HEADER_BYTES, MAGIC, VERSIONED_HEADER_BYTES,
};
use tiny_infer::seq2seq::config::{
    is_seq2seq, Activation, Config as Seq2SeqConfig, SEQ2SEQ_HEADER_BYTES, SEQ2SEQ_VERSION,
};

/// Build a 28-byte header from seven raw values.
fn header(fields: [i32; 7]) -> [u8; HEADER_BYTES] {
    let mut out = [0u8; HEADER_BYTES];
    for (i, v) in fields.iter().enumerate() {
        out[i * 4..i * 4 + 4].copy_from_slice(&v.to_le_bytes());
    }
    out
}

/// Build a 256-byte versioned header.
fn versioned_header(
    version: i32,
    fields: [i32; 7],
    shared: u8,
    group_size: Option<i32>,
) -> [u8; VERSIONED_HEADER_BYTES] {
    let mut out = [0u8; VERSIONED_HEADER_BYTES];
    out[0..4].copy_from_slice(&MAGIC.to_le_bytes());
    out[4..8].copy_from_slice(&version.to_le_bytes());
    for (i, v) in fields.iter().enumerate() {
        out[8 + i * 4..8 + i * 4 + 4].copy_from_slice(&v.to_le_bytes());
    }
    out[36] = shared;
    if let Some(gs) = group_size {
        out[37..41].copy_from_slice(&gs.to_le_bytes());
    }
    out
}

/// Build a 256-byte seq2seq header from raw fields and flag bytes.
fn seq2seq_header(fields: [i32; 13], flags: [u8; 3]) -> [u8; SEQ2SEQ_HEADER_BYTES] {
    let mut out = [0u8; SEQ2SEQ_HEADER_BYTES];
    out[0..4].copy_from_slice(b"tis2");
    out[4..8].copy_from_slice(&SEQ2SEQ_VERSION.to_le_bytes());
    for (i, v) in fields.iter().enumerate() {
        out[8 + i * 4..8 + i * 4 + 4].copy_from_slice(&v.to_le_bytes());
    }
    out[60..63].copy_from_slice(&flags);
    out
}

const STORIES15M: [i32; 7] = [288, 768, 6, 6, 6, 32000, 256];

/// d_model, enc/dec layers, heads, ffn dims, vocab, max_src, max_tgt, pad, eos, bos.
const OPUS_EN_FR: [i32; 13] = [512, 6, 6, 8, 8, 2048, 2048, 59514, 512, 512, 59513, 0, 0];

/// Post-norm, swish, scaled embeddings.
const OPUS_FLAGS: [u8; 3] = [0, 1, 1];

#[test]
fn config_parses_stories15m_header() {
    let bytes = header([288, 768, 6, 6, 6, 32000, 256]);
    let c = Config::parse(&bytes).unwrap();
    assert_eq!(c.dim, 288);
    assert_eq!(c.hidden_dim, 768);
    assert_eq!(c.n_layers, 6);
    assert_eq!(c.n_heads, 6);
    assert_eq!(c.n_kv_heads, 6);
    assert_eq!(c.vocab_size, 32000);
    assert_eq!(c.seq_len, 256);
    assert!(c.shared_weights);
    assert_eq!(c.head_size(), 48);
    assert_eq!(c.kv_dim(), 288);
    assert_eq!(c.kv_mul(), 1);
}

#[test]
fn config_negative_vocab_means_unshared_weights() {
    let bytes = header([288, 768, 6, 6, 6, -32000, 256]);
    let c = Config::parse(&bytes).unwrap();
    assert_eq!(c.vocab_size, 32000);
    assert!(!c.shared_weights);
}

#[test]
fn config_grouped_query_attention_dims() {
    let bytes = header([512, 1376, 8, 8, 2, 32000, 1024]);
    let c = Config::parse(&bytes).unwrap();
    assert_eq!(c.head_size(), 64);
    assert_eq!(c.kv_dim(), 128);
    assert_eq!(c.kv_mul(), 4);
}

#[test]
fn config_rejects_short_header() {
    assert_eq!(Config::parse(&[0u8; 12]).unwrap_err(), EngineError::HeaderTooShort);
    assert_eq!(parse_header(&[0u8; 12]).unwrap_err(), EngineError::HeaderTooShort);
}

#[test]
fn rejects_short_header() {
    // Too short to even check the magic.
    assert_eq!(Seq2SeqConfig::parse(&[0u8; 3]).unwrap_err(), EngineError::HeaderTooShort);
    // Magic present but the header is truncated.
    let bytes = seq2seq_header(OPUS_EN_FR, OPUS_FLAGS);
    assert_eq!(Seq2SeqConfig::parse(&bytes[..200]).unwrap_err(), EngineError::HeaderTooShort);
}

#[test]
fn config_rejects_zero_fields() {
    let bytes = header([0, 768, 6, 6, 6, 32000, 256]);
    assert_eq!(
        Config::parse(&bytes).unwrap_err(),
        EngineError::InvalidConfig(ConfigField::Dim)
    );
}

#[test]
fn rejects_zero_fields() {
    let mut fields = OPUS_EN_FR;
    fields[0] = 0;
    assert_eq!(
        Seq2SeqConfig::parse(&seq2seq_header(fields, OPUS_FLAGS)).unwrap_err(),
        EngineError::InvalidSeq2SeqConfig(Seq2SeqField::DModel)
    );
    let mut fields = OPUS_EN_FR;
    fields[6] = -1;
    assert_eq!(
        Seq2SeqConfig::parse(&seq2seq_header(fields, OPUS_FLAGS)).unwrap_err(),
        EngineError::InvalidSeq2SeqConfig(Seq2SeqField::DecFfn)
    );
}

#[test]
fn config_rejects_dim_not_divisible_by_heads() {
    let bytes = header([100, 768, 6, 7, 7, 32000, 256]);
    assert_eq!(
        Config::parse(&bytes).unwrap_err(),
        EngineError::InvalidConfig(ConfigField::Dim)
    );
}

#[test]
fn config_rejects_kv_heads_not_dividing_heads() {
    let bytes = header([512, 1376, 8, 8, 3, 32000, 1024]);
    assert_eq!(
        Config::parse(&bytes).unwrap_err(),
        EngineError::InvalidConfig(ConfigField::NKvHeads)
    );
}

/// The config of a header without a magic, by way of the format's detection.
fn detected(fields: [i32; 7]) -> Result<Config, EngineError> {
    parse_header(&header(fields)).map(|(c, _)| c)
}

#[test]
fn parses_stories15m_header() {
    let c = detected([288, 768, 6, 6, 6, 32000, 256]).unwrap();
    assert_eq!(c.dim, 288);
    assert_eq!(c.hidden_dim, 768);
    assert_eq!(c.n_layers, 6);
    assert_eq!(c.n_heads, 6);
    assert_eq!(c.n_kv_heads, 6);
    assert_eq!(c.vocab_size, 32000);
    assert_eq!(c.seq_len, 256);
    assert!(c.shared_weights);
    assert_eq!(c.head_size(), 48);
    assert_eq!(c.kv_dim(), 288);
    assert_eq!(c.kv_mul(), 1);
}

#[test]
fn negative_vocab_means_unshared_weights() {
    let c = detected([288, 768, 6, 6, 6, -32000, 256]).unwrap();
    assert_eq!(c.vocab_size, 32000);
    assert!(!c.shared_weights);
}

#[test]
fn grouped_query_attention_dims() {
    let c = detected([512, 1376, 8, 8, 2, 32000, 1024]).unwrap();
    assert_eq!(c.head_size(), 64);
    assert_eq!(c.kv_dim(), 128);
    assert_eq!(c.kv_mul(), 4);
}

#[test]
fn rejects_dim_not_divisible_by_heads() {
    assert_eq!(
        detected([100, 768, 6, 7, 7, 32000, 256]).unwrap_err(),
        EngineError::InvalidConfig(ConfigField::Dim)
    );
}

#[test]
fn rejects_kv_heads_not_dividing_heads() {
    assert_eq!(
        detected([512, 1376, 8, 8, 3, 32000, 1024]).unwrap_err(),
        EngineError::InvalidConfig(ConfigField::NKvHeads)
    );
}

#[test]
fn config_names_each_bad_field() {
    let wants = [
        ConfigField::Dim,
        ConfigField::HiddenDim,
        ConfigField::NLayers,
        ConfigField::NHeads,
        ConfigField::NKvHeads,
        ConfigField::VocabSize,
        ConfigField::SeqLen,
    ];
    for (i, want) in wants.into_iter().enumerate() {
        let mut fields = STORIES15M;
        fields[i] = 0;
        assert_eq!(
            Config::parse(&header(fields)).unwrap_err(),
            EngineError::InvalidConfig(want)
        );
    }
    // The least value has a magnitude too.
    let mut fields = STORIES15M;
    fields[5] = i32::MIN;
    let c = Config::parse(&header(fields)).unwrap();
    assert_eq!((c.vocab_size, c.shared_weights), (0x8000_0000, false));
}

#[test]
fn parse_header_detects_legacy() {
    let bytes = header(STORIES15M);
    let (c, fmt) = parse_header(&bytes).unwrap();
    assert_eq!(fmt, ModelFormat::Legacy);
    assert_eq!(fmt.header_bytes(), HEADER_BYTES);
    assert_eq!(c, Config::parse(&bytes).unwrap());
}

#[test]
fn parse_header_reads_v1() {
    let bytes = versioned_header(1, STORIES15M, 1, None);
    let (c, fmt) = parse_header(&bytes).unwrap();
    assert_eq!(fmt, ModelFormat::V1);
    assert_eq!(fmt.header_bytes(), VERSIONED_HEADER_BYTES);
    assert_eq!(c.dim, 288);
    assert_eq!(c.vocab_size, 32000);
    assert!(c.shared_weights);
    let bytes = versioned_header(1, STORIES15M, 0, None);
    let (c, _) = parse_header(&bytes).unwrap();
    assert!(!c.shared_weights);
}

#[test]
fn parse_header_reads_v2_group_size() {
    let bytes = versioned_header(2, STORIES15M, 1, Some(32));
    let (c, fmt) = parse_header(&bytes).unwrap();
    assert_eq!(fmt, ModelFormat::V2 { group_size: 32 });
    assert!(c.shared_weights);
}

#[test]
fn parse_header_rejects_unknown_version() {
    let bytes = versioned_header(3, STORIES15M, 1, None);
    assert_eq!(
        parse_header(&bytes).unwrap_err(),
        EngineError::UnsupportedVersion { version: 3 }
    );
}

#[test]
fn parse_header_rejects_truncated_versioned_header() {
    let bytes = versioned_header(1, STORIES15M, 1, None);
    assert_eq!(parse_header(&bytes[..200]).unwrap_err(), EngineError::HeaderTooShort);
}

#[test]
fn parse_header_rejects_negative_vocab_in_versioned() {
    let bytes = versioned_header(1, [288, 768, 6, 6, 6, -32000, 256], 1, None);
    assert_eq!(
        parse_header(&bytes).unwrap_err(),
        EngineError::InvalidConfig(ConfigField::VocabSize)
    );
}

#[test]
fn is_llama_accepts_legacy_and_versioned() {
    assert!(is_llama(&header(STORIES15M)));
    assert!(is_llama(&versioned_header(1, STORIES15M, 1, None)));
    assert!(is_llama(&versioned_header(2, STORIES15M, 1, Some(32))));
}

#[test]
fn is_llama_rejects_nonsense_and_short_headers() {
    assert!(!is_llama(&[0u8; HEADER_BYTES]));
    assert!(!is_llama(&[0u8; 12]));
}

#[test]
fn is_llama_versioned_needs_the_exact_ak42_magic() {
    let mut bytes = [0u8; HEADER_BYTES];
    bytes[..4].copy_from_slice(b"tis2");
    assert!(!is_llama(&bytes));
}

#[test]
fn parse_header_rejects_bad_v2_group_size() {
    for gs in [0, -32] {
        let bytes = versioned_header(2, STORIES15M, 1, Some(gs));
        assert_eq!(
            parse_header(&bytes).unwrap_err(),
            EngineError::InvalidConfig(ConfigField::GroupSize)
        );
    }
    let bytes = versioned_header(2, STORIES15M, 1, Some(64));
    assert_eq!(
        parse_header(&bytes).unwrap_err(),
        EngineError::InvalidConfig(ConfigField::GroupSize)
    );
}

#[test]
fn parses_opus_mt_shaped_header() {
    let bytes = seq2seq_header(OPUS_EN_FR, OPUS_FLAGS);
    let c = Seq2SeqConfig::parse(&bytes).unwrap();
    assert_eq!(c.d_model, 512);
    assert_eq!(c.enc_layers, 6);
    assert_eq!(c.dec_layers, 6);
    assert_eq!(c.enc_heads, 8);
    assert_eq!(c.dec_heads, 8);
    assert_eq!(c.enc_ffn, 2048);
    assert_eq!(c.dec_ffn, 2048);
    assert_eq!(c.vocab_size, 59514);
    assert_eq!(c.max_src, 512);
    assert_eq!(c.max_tgt, 512);
    assert_eq!(c.pad_id, 59513);
    assert_eq!(c.eos_id, 0);
    assert_eq!(c.bos_id, 0);
    assert!(!c.norm_before);
    assert_eq!(c.activation, Activation::Swish);
    assert!(c.scale_embedding);
    assert_eq!(c.enc_head_dim(), 64);
    assert_eq!(c.dec_head_dim(), 64);
    assert_eq!(c.decoder_start_id(), 59513);
}

#[test]
fn parses_pre_norm_gelu_flags() {
    let bytes = seq2seq_header(OPUS_EN_FR, [1, 0, 0]);
    let c = Seq2SeqConfig::parse(&bytes).unwrap();
    assert!(c.norm_before);
    assert_eq!(c.activation, Activation::Gelu);
    assert!(!c.scale_embedding);
}

#[test]
fn rejects_wrong_magic() {
    let mut bytes = seq2seq_header(OPUS_EN_FR, OPUS_FLAGS);
    bytes[0..4].copy_from_slice(&MAGIC.to_le_bytes());
    assert_eq!(Seq2SeqConfig::parse(&bytes).unwrap_err(), EngineError::NotSeq2Seq);
    assert!(!is_seq2seq(&bytes));
    assert!(is_seq2seq(&seq2seq_header(OPUS_EN_FR, OPUS_FLAGS)));
}

#[test]
fn rejects_unknown_version() {
    let mut bytes = seq2seq_header(OPUS_EN_FR, OPUS_FLAGS);
    bytes[4..8].copy_from_slice(&2i32.to_le_bytes());
    assert_eq!(
        Seq2SeqConfig::parse(&bytes).unwrap_err(),
        EngineError::UnsupportedVersion { version: 2 }
    );
}

#[test]
fn rejects_heads_not_dividing_d_model() {
    let mut fields = OPUS_EN_FR;
    fields[3] = 7;
    assert_eq!(
        Seq2SeqConfig::parse(&seq2seq_header(fields, OPUS_FLAGS)).unwrap_err(),
        EngineError::InvalidSeq2SeqConfig(Seq2SeqField::EncHeads)
    );
    let mut fields = OPUS_EN_FR;
    fields[4] = 6;
    assert_eq!(
        Seq2SeqConfig::parse(&seq2seq_header(fields, OPUS_FLAGS)).unwrap_err(),
        EngineError::InvalidSeq2SeqConfig(Seq2SeqField::DecHeads)
    );
}

#[test]
fn rejects_token_ids_outside_vocab() {
    let mut fields = OPUS_EN_FR;
    fields[10] = 59514;
    assert_eq!(
        Seq2SeqConfig::parse(&seq2seq_header(fields, OPUS_FLAGS)).unwrap_err(),
        EngineError::InvalidSeq2SeqConfig(Seq2SeqField::PadId)
    );
    let mut fields = OPUS_EN_FR;
    fields[12] = -1;
    assert_eq!(
        Seq2SeqConfig::parse(&seq2seq_header(fields, OPUS_FLAGS)).unwrap_err(),
        EngineError::InvalidSeq2SeqConfig(Seq2SeqField::BosId)
    );
}

#[test]
fn rejects_unknown_activation_byte() {
    let bytes = seq2seq_header(OPUS_EN_FR, [0, 2, 1]);
    assert_eq!(
        Seq2SeqConfig::parse(&bytes).unwrap_err(),
        EngineError::InvalidSeq2SeqConfig(Seq2SeqField::Activation)
    );
}

#[test]
fn engine_errors_read_as_sentences() {
    let texts = [
        (EngineError::HeaderTooShort, "checkpoint is smaller than its config header"),
        (
            EngineError::UnsupportedVersion { version: -3 },
            "unsupported checkpoint format version -3 (supported: 1, 2)",
        ),
        (
            EngineError::InvalidConfig(ConfigField::GroupSize),
            "invalid model config: bad GroupSize field",
        ),
        (
            EngineError::SizeMismatch { expected: 12, actual: 7 },
            "checkpoint size mismatch: config implies 12 bytes, file has 7 bytes",
        ),
        (
            EngineError::ArenaOverflow { requested: 16, available: 8 },
            "arena overflow: requested 16 bytes, only 8 available",
        ),
        (EngineError::NotSeq2Seq, "checkpoint does not start with the seq2seq magic \"tis2\""),
        (
            EngineError::InvalidSeq2SeqConfig(Seq2SeqField::PadId),
            "invalid seq2seq model config: bad PadId field",
        ),
    ];
    for (error, text) in texts {
        assert_eq!(error.message(), text);
    }
}
