//! Seq2seq (Marian-style encoder-decoder) hyperparameters, parsed from a checkpoint
//! header.
//!
//! The header is 256 bytes: the magic `"tis2"`, an `i32` version, thirteen `i32` fields
//! from offset 8 on (in the order of [`Config`]'s fields), three flag bytes at 60 (norm
//! placement, activation, embedding scaling), and padding. Every count is positive, and
//! the three token ids lie below `vocab_size`.

use vstd::prelude::*;

#[allow(unused_imports)]
use crate::bytes::{le_i32, le_u32};
use crate::bytes::{read_i32, read_u32};
use crate::error::{EngineError, Seq2SeqField};

verus! {

/// Size of the header.
pub const SEQ2SEQ_HEADER_BYTES: usize = 256;

/// The magic that opens a seq2seq checkpoint: the bytes of `"tis2"`, little-endian.
pub const SEQ2SEQ_MAGIC: u32 = 0x3273_6974;

/// The supported header version.
pub const SEQ2SEQ_VERSION: i32 = 1;

/// Whether the bytes open with the seq2seq magic.
pub open spec fn has_seq2seq_magic(s: Seq<u8>) -> bool {
    s.len() >= 4 && le_u32(s, 0) == SEQ2SEQ_MAGIC
}

/// Whether `bytes` opens with the seq2seq magic.
pub fn is_seq2seq(bytes: &[u8]) -> (r: bool)
    ensures
        r == has_seq2seq_magic(bytes@),
{
    bytes.len() >= 4 && read_u32(bytes, 0) == SEQ2SEQ_MAGIC
}

/// The feed-forward activation a checkpoint was trained with.
#[derive(Debug, Clone, Copy, PartialEq, Eq, Structural)]
pub enum Activation {
    /// Exact-erf GELU.
    Gelu,
    /// Swish / SiLU.
    Swish,
}

/// Parsed, validated hyperparameters.
#[derive(Debug, Clone, Copy, PartialEq, Eq, Structural)]
pub struct Config {
    /// Residual-stream width, shared by both stacks.
    pub d_model: usize,
    /// Number of encoder layers.
    pub enc_layers: usize,
    /// Number of decoder layers.
    pub dec_layers: usize,
    /// Number of encoder attention heads.
    pub enc_heads: usize,
    /// Number of decoder attention heads.
    pub dec_heads: usize,
    /// Inner width of the encoder feed-forward block.
    pub enc_ffn: usize,
    /// Inner width of the decoder feed-forward block.
    pub dec_ffn: usize,
    /// Vocabulary size.
    pub vocab_size: usize,
    /// Maximum source length.
    pub max_src: usize,
    /// Maximum target length.
    pub max_tgt: usize,
    /// Padding token id, which also starts decoding.
    pub pad_id: usize,
    /// End-of-sequence token id.
    pub eos_id: usize,
    /// Beginning-of-sequence token id.
    pub bos_id: usize,
    /// Whether LayerNorm runs before each sublayer rather than after it.
    pub norm_before: bool,
    /// Feed-forward activation.
    pub activation: Activation,
    /// Whether token embeddings are scaled by the square root of `d_model`.
    pub scale_embedding: bool,
}

/// The value of a seq2seq header's field `i`.
pub open spec fn seq2seq_field(s: Seq<u8>, i: int) -> int {
    le_i32(s, 8 + 4 * i)
}

/// Which field is reported for the first unusable count, of the ten counts.
pub open spec fn count_name(i: int) -> Seq2SeqField {
    if i == 0 {
        Seq2SeqField::DModel
    } else if i == 1 {
        Seq2SeqField::EncLayers
    } else if i == 2 {
        Seq2SeqField::DecLayers
    } else if i == 3 {
        Seq2SeqField::EncHeads
    } else if i == 4 {
        Seq2SeqField::DecHeads
    } else if i == 5 {
        Seq2SeqField::EncFfn
    } else if i == 6 {
        Seq2SeqField::DecFfn
    } else if i == 7 {
        Seq2SeqField::VocabSize
    } else if i == 8 {
        Seq2SeqField::MaxSrc
    } else {
        Seq2SeqField::MaxTgt
    }
}

/// The first of the ten counts from `i` on that is not positive, or ten.
pub open spec fn first_bad_count(s: Seq<u8>, i: int) -> int
    decreases 10 - i,
{
    if i >= 10 || seq2seq_field(s, i) <= 0 {
        i
    } else {
        first_bad_count(s, i + 1)
    }
}

/// Whether field `i` is a token id of the vocabulary.
pub open spec fn id_ok(s: Seq<u8>, i: int) -> bool {
    0 <= seq2seq_field(s, i) < seq2seq_field(s, 7)
}

/// What the bytes of a seq2seq header mean: the checks in order, then the fields.
pub open spec fn parsed_config(s: Seq<u8>) -> Result<Config, EngineError> {
    let bad = first_bad_count(s, 0);
    if s.len() < 4 {
        Err(EngineError::HeaderTooShort)
    } else if !has_seq2seq_magic(s) {
        Err(EngineError::NotSeq2Seq)
    } else if s.len() < SEQ2SEQ_HEADER_BYTES {
        Err(EngineError::HeaderTooShort)
    } else if le_i32(s, 4) != SEQ2SEQ_VERSION {
        Err(EngineError::UnsupportedVersion { version: le_i32(s, 4) as i32 })
    } else if bad < 10 {
        Err(EngineError::InvalidSeq2SeqConfig(count_name(bad)))
    } else if !id_ok(s, 10) {
        Err(EngineError::InvalidSeq2SeqConfig(Seq2SeqField::PadId))
    } else if !id_ok(s, 11) {
        Err(EngineError::InvalidSeq2SeqConfig(Seq2SeqField::EosId))
    } else if !id_ok(s, 12) {
        Err(EngineError::InvalidSeq2SeqConfig(Seq2SeqField::BosId))
    } else if seq2seq_field(s, 0) % seq2seq_field(s, 3) != 0 {
        Err(EngineError::InvalidSeq2SeqConfig(Seq2SeqField::EncHeads))
    } else if seq2seq_field(s, 0) % seq2seq_field(s, 4) != 0 {
        Err(EngineError::InvalidSeq2SeqConfig(Seq2SeqField::DecHeads))
    } else if s[61] > 1 {
        Err(EngineError::InvalidSeq2SeqConfig(Seq2SeqField::Activation))
    } else {
        Ok(
            Config {
                d_model: seq2seq_field(s, 0) as usize,
                enc_layers: seq2seq_field(s, 1) as usize,
                dec_layers: seq2seq_field(s, 2) as usize,
                enc_heads: seq2seq_field(s, 3) as usize,
                dec_heads: seq2seq_field(s, 4) as usize,
                enc_ffn: seq2seq_field(s, 5) as usize,
                dec_ffn: seq2seq_field(s, 6) as usize,
                vocab_size: seq2seq_field(s, 7) as usize,
                max_src: seq2seq_field(s, 8) as usize,
                max_tgt: seq2seq_field(s, 9) as usize,
                pad_id: seq2seq_field(s, 10) as usize,
                eos_id: seq2seq_field(s, 11) as usize,
                bos_id: seq2seq_field(s, 12) as usize,
                norm_before: s[60] != 0,
                activation: if s[61] == 0 {
                    Activation::Gelu
                } else {
                    Activation::Swish
                },
                scale_embedding: s[62] != 0,
            },
        )
    }
}

/// A count that must be positive.
fn positive(v: i32, field: Seq2SeqField) -> (r: Result<usize, EngineError>)
    ensures
        v > 0 ==> r == Ok::<usize, EngineError>(v as usize),
        v <= 0 ==> r == Err::<usize, EngineError>(EngineError::InvalidSeq2SeqConfig(field)),
{
    if v > 0 {
        Ok(v as usize)
    } else {
        Err(EngineError::InvalidSeq2SeqConfig(field))
    }
}

/// A token id, which must lie below the vocabulary size.
fn token_id(v: i32, vocab_size: usize, field: Seq2SeqField) -> (r: Result<usize, EngineError>)
    ensures
        0 <= v < vocab_size ==> r == Ok::<usize, EngineError>(v as usize),
        !(0 <= v < vocab_size) ==> r == Err::<usize, EngineError>(
            EngineError::InvalidSeq2SeqConfig(field),
        ),
{
    if v >= 0 && (v as usize) < vocab_size {
        Ok(v as usize)
    } else {
        Err(EngineError::InvalidSeq2SeqConfig(field))
    }
}

impl Config {
    /// Whether the hyperparameters are those of some valid header.
    pub open spec fn valid(self) -> bool {
        &&& 0 < self.d_model <= i32::MAX
        &&& 0 < self.enc_layers <= i32::MAX
        &&& 0 < self.dec_layers <= i32::MAX
        &&& 0 < self.enc_heads <= i32::MAX
        &&& 0 < self.dec_heads <= i32::MAX
        &&& 0 < self.enc_ffn <= i32::MAX
        &&& 0 < self.dec_ffn <= i32::MAX
        &&& 0 < self.vocab_size <= i32::MAX
        &&& 0 < self.max_src <= i32::MAX
        &&& 0 < self.max_tgt <= i32::MAX
        &&& self.pad_id < self.vocab_size
        &&& self.eos_id < self.vocab_size
        &&& self.bos_id < self.vocab_size
        &&& self.d_model % self.enc_heads == 0
        &&& self.d_model % self.dec_heads == 0
    }

    /// Parse and validate a header from the start of a checkpoint's bytes. Only the
    /// first [`SEQ2SEQ_HEADER_BYTES`] are read.
    pub fn parse(bytes: &[u8]) -> (r: Result<Config, EngineError>)
        ensures
            r == parsed_config(bytes@),
    {
        if bytes.len() < 4 {
            return Err(EngineError::HeaderTooShort);
        }
        if !is_seq2seq(bytes) {
            return Err(EngineError::NotSeq2Seq);
        }
        if bytes.len() < SEQ2SEQ_HEADER_BYTES {
            return Err(EngineError::HeaderTooShort);
        }
        let version: i32 = read_i32(bytes, 4);
        if version != SEQ2SEQ_VERSION {
            return Err(EngineError::UnsupportedVersion { version });
        }
        proof {
            reveal_with_fuel(first_bad_count, 11);
        }
        let d_model: usize = positive(read_i32(bytes, 8), Seq2SeqField::DModel)?;
        let enc_layers: usize = positive(read_i32(bytes, 12), Seq2SeqField::EncLayers)?;
        let dec_layers: usize = positive(read_i32(bytes, 16), Seq2SeqField::DecLayers)?;
        let enc_heads: usize = positive(read_i32(bytes, 20), Seq2SeqField::EncHeads)?;
        let dec_heads: usize = positive(read_i32(bytes, 24), Seq2SeqField::DecHeads)?;
        let enc_ffn: usize = positive(read_i32(bytes, 28), Seq2SeqField::EncFfn)?;
        let dec_ffn: usize = positive(read_i32(bytes, 32), Seq2SeqField::DecFfn)?;
        let vocab_size: usize = positive(read_i32(bytes, 36), Seq2SeqField::VocabSize)?;
        let max_src: usize = positive(read_i32(bytes, 40), Seq2SeqField::MaxSrc)?;
        let max_tgt: usize = positive(read_i32(bytes, 44), Seq2SeqField::MaxTgt)?;
        let pad_id: usize = token_id(read_i32(bytes, 48), vocab_size, Seq2SeqField::PadId)?;
        let eos_id: usize = token_id(read_i32(bytes, 52), vocab_size, Seq2SeqField::EosId)?;
        let bos_id: usize = token_id(read_i32(bytes, 56), vocab_size, Seq2SeqField::BosId)?;
        if d_model % enc_heads != 0 {
            return Err(EngineError::InvalidSeq2SeqConfig(Seq2SeqField::EncHeads));
        }
        if d_model % dec_heads != 0 {
            return Err(EngineError::InvalidSeq2SeqConfig(Seq2SeqField::DecHeads));
        }
        let norm_before: bool = bytes[60] != 0;
        let activation = match bytes[61] {
            0 => Activation::Gelu,
            1 => Activation::Swish,
            _ => {
                return Err(EngineError::InvalidSeq2SeqConfig(Seq2SeqField::Activation));
            },
        };
        let scale_embedding: bool = bytes[62] != 0;
        Ok(
            Config {
                d_model,
                enc_layers,
                dec_layers,
                enc_heads,
                dec_heads,
                enc_ffn,
                dec_ffn,
                vocab_size,
                max_src,
                max_tgt,
                pad_id,
                eos_id,
                bos_id,
                norm_before,
                activation,
                scale_embedding,
            },
        )
    }

    /// Size of a single encoder attention head.
    pub fn enc_head_dim(&self) -> (r: usize)
        requires
            self.enc_heads > 0,
        ensures
            r == self.d_model as nat / self.enc_heads as nat,
    {
        self.d_model / self.enc_heads
    }

    /// Size of a single decoder attention head.
    pub fn dec_head_dim(&self) -> (r: usize)
        requires
            self.dec_heads > 0,
        ensures
            r == self.d_model as nat / self.dec_heads as nat,
    {
        self.d_model / self.dec_heads
    }

    /// The token that seeds the decoder: the padding token.
    pub fn decoder_start_id(&self) -> (r: usize)
        ensures
            r == self.pad_id,
    {
        self.pad_id
    }
}

/// Whatever header parses describes a valid config.
pub proof fn parsed_seq2seq_configs_are_valid(s: Seq<u8>)
    ensures
        parsed_config(s) matches Ok(c) ==> c.valid(),
{
    reveal_with_fuel(first_bad_count, 11);
}

/// No file opens with both a seq2seq magic and the versioned Llama magic.
pub proof fn magics_differ(s: Seq<u8>)
    ensures
        !(has_seq2seq_magic(s) && crate::llama::config::has_magic(s)),
{
}

} // verus!
