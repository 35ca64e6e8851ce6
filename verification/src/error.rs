//! The engine's error type and its diagnostics.

use vstd::prelude::*;

use crate::text::push_decimal;
#[allow(unused_imports)]
use crate::text::{decimal, signed_decimal};

verus! {

/// Errors produced by the engine core.
#[derive(Debug, Clone, Copy, PartialEq, Eq, Structural)]
#[non_exhaustive]
pub enum EngineError {
    /// The checkpoint was shorter than its header (28 bytes for the legacy Llama
    /// format, 256 for every other one).
    HeaderTooShort,
    /// The checkpoint carries a known magic but declares a version that is not
    /// supported.
    UnsupportedVersion {
        /// The version field found after the magic.
        version: i32,
    },
    /// A config field held an unusable value.
    InvalidConfig(ConfigField),
    /// A buffer did not have the length that the config implies, in bytes.
    SizeMismatch {
        /// Length the config asks for.
        expected: usize,
        /// Length actually provided.
        actual: usize,
    },
    /// The arena did not have room for a requested allocation, in bytes.
    ArenaOverflow {
        /// Bytes requested.
        requested: usize,
        /// Bytes still free in the arena.
        available: usize,
    },
    /// The file does not begin with the seq2seq magic.
    NotSeq2Seq,
    /// A seq2seq config field held an unusable value.
    InvalidSeq2SeqConfig(Seq2SeqField),
}

/// Identifies which Llama config field failed validation.
#[derive(Debug, Clone, Copy, PartialEq, Eq, Structural)]
#[non_exhaustive]
pub enum ConfigField {
    /// `dim` was not positive, or not divisible by `n_heads`.
    Dim,
    /// `hidden_dim` was not positive.
    HiddenDim,
    /// `n_layers` was not positive.
    NLayers,
    /// `n_heads` was not positive.
    NHeads,
    /// `n_kv_heads` was not positive, or did not divide `n_heads`.
    NKvHeads,
    /// `vocab_size` was zero, or negative where the sign carries no meaning.
    VocabSize,
    /// `seq_len` was not positive.
    SeqLen,
    /// The quantization group size was not positive, or did not divide `dim` and
    /// `hidden_dim`.
    GroupSize,
}

/// Identifies which seq2seq config field failed validation.
#[derive(Debug, Clone, Copy, PartialEq, Eq, Structural)]
#[non_exhaustive]
pub enum Seq2SeqField {
    /// `d_model` was not positive.
    DModel,
    /// `enc_layers` was not positive.
    EncLayers,
    /// `dec_layers` was not positive.
    DecLayers,
    /// `enc_heads` was not positive, or did not divide `d_model`.
    EncHeads,
    /// `dec_heads` was not positive, or did not divide `d_model`.
    DecHeads,
    /// `enc_ffn` was not positive.
    EncFfn,
    /// `dec_ffn` was not positive.
    DecFfn,
    /// `vocab_size` was not positive.
    VocabSize,
    /// `max_src` was not positive.
    MaxSrc,
    /// `max_tgt` was not positive.
    MaxTgt,
    /// `pad_id` was negative or not below `vocab_size`.
    PadId,
    /// `eos_id` was negative or not below `vocab_size`.
    EosId,
    /// `bos_id` was negative or not below `vocab_size`.
    BosId,
    /// The activation byte named no known activation.
    Activation,
}

impl ConfigField {
    /// The field's name as it appears in diagnostics.
    pub open spec fn name_text(self) -> Seq<char> {
        match self {
            ConfigField::Dim => "Dim"@,
            ConfigField::HiddenDim => "HiddenDim"@,
            ConfigField::NLayers => "NLayers"@,
            ConfigField::NHeads => "NHeads"@,
            ConfigField::NKvHeads => "NKvHeads"@,
            ConfigField::VocabSize => "VocabSize"@,
            ConfigField::SeqLen => "SeqLen"@,
            ConfigField::GroupSize => "GroupSize"@,
        }
    }

    /// The field's name.
    pub fn name(self) -> (r: &'static str)
        ensures
            r@ == self.name_text(),
    {
        match self {
            ConfigField::Dim => "Dim",
            ConfigField::HiddenDim => "HiddenDim",
            ConfigField::NLayers => "NLayers",
            ConfigField::NHeads => "NHeads",
            ConfigField::NKvHeads => "NKvHeads",
            ConfigField::VocabSize => "VocabSize",
            ConfigField::SeqLen => "SeqLen",
            ConfigField::GroupSize => "GroupSize",
        }
    }
}

impl Seq2SeqField {
    /// The field's name as it appears in diagnostics.
    pub open spec fn name_text(self) -> Seq<char> {
        match self {
            Seq2SeqField::DModel => "DModel"@,
            Seq2SeqField::EncLayers => "EncLayers"@,
            Seq2SeqField::DecLayers => "DecLayers"@,
            Seq2SeqField::EncHeads => "EncHeads"@,
            Seq2SeqField::DecHeads => "DecHeads"@,
            Seq2SeqField::EncFfn => "EncFfn"@,
            Seq2SeqField::DecFfn => "DecFfn"@,
            Seq2SeqField::VocabSize => "VocabSize"@,
            Seq2SeqField::MaxSrc => "MaxSrc"@,
            Seq2SeqField::MaxTgt => "MaxTgt"@,
            Seq2SeqField::PadId => "PadId"@,
            Seq2SeqField::EosId => "EosId"@,
            Seq2SeqField::BosId => "BosId"@,
            Seq2SeqField::Activation => "Activation"@,
        }
    }

    /// The field's name.
    pub fn name(self) -> (r: &'static str)
        ensures
            r@ == self.name_text(),
    {
        match self {
            Seq2SeqField::DModel => "DModel",
            Seq2SeqField::EncLayers => "EncLayers",
            Seq2SeqField::DecLayers => "DecLayers",
            Seq2SeqField::EncHeads => "EncHeads",
            Seq2SeqField::DecHeads => "DecHeads",
            Seq2SeqField::EncFfn => "EncFfn",
            Seq2SeqField::DecFfn => "DecFfn",
            Seq2SeqField::VocabSize => "VocabSize",
            Seq2SeqField::MaxSrc => "MaxSrc",
            Seq2SeqField::MaxTgt => "MaxTgt",
            Seq2SeqField::PadId => "PadId",
            Seq2SeqField::EosId => "EosId",
            Seq2SeqField::BosId => "BosId",
            Seq2SeqField::Activation => "Activation",
        }
    }
}

impl EngineError {
    /// The diagnostic for each error.
    pub open spec fn message_text(self) -> Seq<char> {
        match self {
            EngineError::HeaderTooShort => "checkpoint is smaller than its config header"@,
            EngineError::UnsupportedVersion { version } => "unsupported checkpoint format version "@
                + signed_decimal(version as int) + " (supported: 1, 2)"@,
            EngineError::InvalidConfig(field) => "invalid model config: bad "@ + field.name_text()
                + " field"@,
            EngineError::SizeMismatch { expected, actual } =>
                "checkpoint size mismatch: config implies "@ + decimal(expected as nat)
                + " bytes, file has "@ + decimal(actual as nat) + " bytes"@,
            EngineError::ArenaOverflow { requested, available } => "arena overflow: requested "@
                + decimal(requested as nat) + " bytes, only "@ + decimal(available as nat)
                + " available"@,
            EngineError::NotSeq2Seq =>
                "checkpoint does not start with the seq2seq magic \"tis2\""@,
            EngineError::InvalidSeq2SeqConfig(field) => "invalid seq2seq model config: bad "@
                + field.name_text() + " field"@,
        }
    }

    /// A user-facing diagnostic.
    pub fn message(self) -> (r: String)
        ensures
            r@ == self.message_text(),
    {
        let mut out = String::new();
        match self {
            EngineError::HeaderTooShort => {
                out.append("checkpoint is smaller than its config header");
            },
            EngineError::UnsupportedVersion { version } => {
                out.append("unsupported checkpoint format version ");
                if version < 0 {
                    out.push('-');
                    push_decimal(&mut out, (-(version as i64)) as u64);
                    proof {
                        assert(out@ =~= "unsupported checkpoint format version "@ + signed_decimal(
                            version as int,
                        ));
                    }
                } else {
                    push_decimal(&mut out, version as u64);
                }
                out.append(" (supported: 1, 2)");
            },
            EngineError::InvalidConfig(field) => {
                out.append("invalid model config: bad ");
                out.append(field.name());
                out.append(" field");
            },
            EngineError::SizeMismatch { expected, actual } => {
                out.append("checkpoint size mismatch: config implies ");
                push_decimal(&mut out, expected as u64);
                out.append(" bytes, file has ");
                push_decimal(&mut out, actual as u64);
                out.append(" bytes");
            },
            EngineError::ArenaOverflow { requested, available } => {
                out.append("arena overflow: requested ");
                push_decimal(&mut out, requested as u64);
                out.append(" bytes, only ");
                push_decimal(&mut out, available as u64);
                out.append(" available");
            },
            EngineError::NotSeq2Seq => {
                out.append("checkpoint does not start with the seq2seq magic \"tis2\"");
            },
            EngineError::InvalidSeq2SeqConfig(field) => {
                out.append("invalid seq2seq model config: bad ");
                out.append(field.name());
                out.append(" field");
            },
        }
        proof {
            assert(out@ =~= self.message_text());
        }
        out
    }
}

} // verus!
