//! Model hyperparameters, parsed from a checkpoint header.
//!
//! Three checkpoint formats are supported; [`parse_header`] detects which one a file
//! uses:
//!
//! * **Legacy ("version 0")**: seven little-endian `i32` fields and nothing else
//!   (`dim, hidden_dim, n_layers, n_heads, n_kv_heads, vocab_size, seq_len`). A
//!   negative `vocab_size` means that the classifier matrix is stored separately.
//! * **v1 / v2**: a 256-byte header: the [`MAGIC`], an `i32` version, the same seven
//!   fields, a shared-classifier flag byte, and in v2 the `i32` quantization group
//!   size; the rest is padding. v1 stores fp32 weights, v2 int8 ones.

use vstd::prelude::*;

#[allow(unused_imports)]
use crate::bytes::{le_i32, le_u32};
use crate::bytes::{read_i32, read_u32};
use crate::error::{ConfigField, EngineError};

verus! {

/// Number of bytes in the legacy header: seven `i32` fields.
pub const HEADER_BYTES: usize = 28;

/// Number of bytes in the versioned (v1/v2) header.
pub const VERSIONED_HEADER_BYTES: usize = 256;

/// The largest vocabulary that a legacy header can hold: the magnitude of the least `i32`.
pub const MOST_VOCAB: i64 = 0x8000_0000;

/// The magic that opens a versioned checkpoint ("ak42" in ASCII, as a `u32`).
pub const MAGIC: u32 = 0x616b_3432;

/// Which on-disk checkpoint format a file uses.
#[derive(Debug, Clone, Copy, PartialEq, Eq, Structural)]
pub enum ModelFormat {
    /// 28-byte header, fp32 weights with the rotary tables in the middle.
    Legacy,
    /// 256-byte header, fp32 weights with the norms stored first.
    V1,
    /// 256-byte header, fp32 norms followed by int8 matmul weights.
    V2 {
        /// Quantization group size from the header (one scale per group).
        group_size: usize,
    },
}

impl ModelFormat {
    /// Size of this format's header: the file offset where weight data begins.
    #[verifier::allow_in_spec]
    pub fn header_bytes(self) -> usize
        returns
            (match self {
                ModelFormat::Legacy => HEADER_BYTES,
                _ => VERSIONED_HEADER_BYTES,
            }),
    {
        match self {
            ModelFormat::Legacy => HEADER_BYTES,
            ModelFormat::V1 | ModelFormat::V2 { .. } => VERSIONED_HEADER_BYTES,
        }
    }
}

/// Parsed, validated model hyperparameters.
#[derive(Debug, Clone, Copy, PartialEq, Eq, Structural)]
pub struct Config {
    /// Transformer embedding/residual-stream width.
    pub dim: usize,
    /// Inner width of the feed-forward block.
    pub hidden_dim: usize,
    /// Number of transformer blocks.
    pub n_layers: usize,
    /// Number of query heads.
    pub n_heads: usize,
    /// Number of key/value heads.
    pub n_kv_heads: usize,
    /// Vocabulary size.
    pub vocab_size: usize,
    /// Maximum sequence length the checkpoint was exported for.
    pub seq_len: usize,
    /// Whether the output projection reuses the token-embedding table.
    pub shared_weights: bool,
}

/// The seven header fields that start at offset `o`, in on-disk order.
pub open spec fn header_fields(s: Seq<u8>, o: int) -> Seq<int> {
    Seq::new(7, |i: int| le_i32(s, o + 4 * i))
}

/// What seven header fields (in on-disk order) mean: the first unusable field is
/// reported, then the two divisibility rules that attention relies on.
pub open spec fn config_of(f: Seq<int>, shared: bool) -> Result<Config, EngineError> {
    if f[0] <= 0 {
        Err(EngineError::InvalidConfig(ConfigField::Dim))
    } else if f[1] <= 0 {
        Err(EngineError::InvalidConfig(ConfigField::HiddenDim))
    } else if f[2] <= 0 {
        Err(EngineError::InvalidConfig(ConfigField::NLayers))
    } else if f[3] <= 0 {
        Err(EngineError::InvalidConfig(ConfigField::NHeads))
    } else if f[4] <= 0 {
        Err(EngineError::InvalidConfig(ConfigField::NKvHeads))
    } else if f[5] <= 0 {
        Err(EngineError::InvalidConfig(ConfigField::VocabSize))
    } else if f[6] <= 0 {
        Err(EngineError::InvalidConfig(ConfigField::SeqLen))
    } else if f[0] % f[3] != 0 {
        Err(EngineError::InvalidConfig(ConfigField::Dim))
    } else if f[3] % f[4] != 0 {
        Err(EngineError::InvalidConfig(ConfigField::NKvHeads))
    } else {
        Ok(
            Config {
                dim: f[0] as usize,
                hidden_dim: f[1] as usize,
                n_layers: f[2] as usize,
                n_heads: f[3] as usize,
                n_kv_heads: f[4] as usize,
                vocab_size: f[5] as usize,
                seq_len: f[6] as usize,
                shared_weights: shared,
            },
        )
    }
}

/// The magnitude of a legacy `vocab_size`.
pub open spec fn vocab_magnitude(v: int) -> int {
    if v < 0 {
        -v
    } else {
        v
    }
}

/// What the bytes of a legacy checkpoint's header mean.
pub open spec fn legacy_config(s: Seq<u8>) -> Result<Config, EngineError> {
    if s.len() < HEADER_BYTES {
        Err(EngineError::HeaderTooShort)
    } else {
        let f = header_fields(s, 0);
        config_of(f.update(5, vocab_magnitude(f[5])), f[5] > 0)
    }
}

/// Whether the bytes open with the versioned magic.
pub open spec fn has_magic(s: Seq<u8>) -> bool {
    s.len() >= 4 && le_u32(s, 0) == MAGIC
}

/// What the bytes of a versioned header mean.
pub open spec fn versioned_header(s: Seq<u8>) -> Result<(Config, ModelFormat), EngineError> {
    let version = le_i32(s, 4);
    let group_size = le_i32(s, 37);
    if s.len() < VERSIONED_HEADER_BYTES {
        Err(EngineError::HeaderTooShort)
    } else if version != 1 && version != 2 {
        Err(EngineError::UnsupportedVersion { version: version as i32 })
    } else {
        match config_of(header_fields(s, 8), s[36] != 0) {
            Err(e) => Err(e),
            Ok(c) => if version == 1 {
                Ok((c, ModelFormat::V1))
            } else if group_size <= 0 || c.dim as int % group_size != 0 || c.hidden_dim as int
                % group_size != 0 {
                Err(EngineError::InvalidConfig(ConfigField::GroupSize))
            } else {
                Ok((c, ModelFormat::V2 { group_size: group_size as usize }))
            },
        }
    }
}

/// What the header bytes of any supported checkpoint mean.
pub open spec fn parsed_header(s: Seq<u8>) -> Result<(Config, ModelFormat), EngineError> {
    if has_magic(s) {
        versioned_header(s)
    } else {
        match legacy_config(s) {
            Ok(c) => Ok((c, ModelFormat::Legacy)),
            Err(e) => Err(e),
        }
    }
}

/// Whether `bytes` look like a Llama checkpoint of any supported format: either the
/// versioned magic, or a legacy header that parses.
///
/// The legacy format has no magic, so this also accepts the bytes of another
/// architecture that happen to form a plausible header. Test for the formats that
/// have a magic first.
pub fn is_llama(bytes: &[u8]) -> (r: bool)
    ensures
        r == (has_magic(bytes@) || legacy_config(bytes@) is Ok),
{
    if bytes.len() >= 4 && read_u32(bytes, 0) == MAGIC {
        return true;
    }
    Config::parse(bytes).is_ok()
}

/// Parse any supported checkpoint header: legacy, v1, or v2.
pub fn parse_header(bytes: &[u8]) -> (r: Result<(Config, ModelFormat), EngineError>)
    ensures
        r == parsed_header(bytes@),
{
    if bytes.len() >= 4 && read_u32(bytes, 0) == MAGIC {
        return parse_versioned(bytes);
    }
    match Config::parse(bytes) {
        Ok(c) => Ok((c, ModelFormat::Legacy)),
        Err(e) => Err(e),
    }
}

/// Parse a versioned (v1/v2) header; the magic has already matched.
fn parse_versioned(bytes: &[u8]) -> (r: Result<(Config, ModelFormat), EngineError>)
    ensures
        r == versioned_header(bytes@),
{
    if bytes.len() < VERSIONED_HEADER_BYTES {
        return Err(EngineError::HeaderTooShort);
    }
    let version: i32 = read_i32(bytes, 4);
    if version != 1 && version != 2 {
        return Err(EngineError::UnsupportedVersion { version });
    }
    let fields = read_fields(bytes, 8);
    let config = match Config::from_fields(fields, bytes[36] != 0) {
        Ok(c) => c,
        Err(e) => {
            return Err(e);
        },
    };
    if version == 1 {
        return Ok((config, ModelFormat::V1));
    }
    let group_size: i32 = read_i32(bytes, 37);
    if group_size <= 0 {
        return Err(EngineError::InvalidConfig(ConfigField::GroupSize));
    }
    let group_size: usize = group_size as usize;
    if config.dim % group_size != 0 || config.hidden_dim % group_size != 0 {
        return Err(EngineError::InvalidConfig(ConfigField::GroupSize));
    }
    Ok((config, ModelFormat::V2 { group_size }))
}

/// Read the seven fields that start at offset `o`.
fn read_fields(bytes: &[u8], o: usize) -> (f: [i64; 7])
    requires
        o + 28 <= bytes.len(),
    ensures
        f@.map_values(|v: i64| v as int) == header_fields(bytes@, o as int),
        forall|i: int| 0 <= i < 7 ==> i32::MIN <= #[trigger] f@[i] <= i32::MAX,
{
    let f = [
        read_i32(bytes, o) as i64,
        read_i32(bytes, o + 4) as i64,
        read_i32(bytes, o + 8) as i64,
        read_i32(bytes, o + 12) as i64,
        read_i32(bytes, o + 16) as i64,
        read_i32(bytes, o + 20) as i64,
        read_i32(bytes, o + 24) as i64,
    ];
    proof {
        assert(f@.map_values(|v: i64| v as int) =~= header_fields(bytes@, o as int));
    }
    f
}

/// A count that must be positive.
fn positive(v: i64, field: ConfigField) -> (r: Result<usize, EngineError>)
    requires
        v <= MOST_VOCAB,
    ensures
        v > 0 ==> r == Ok::<usize, EngineError>(v as usize),
        v <= 0 ==> r == Err::<usize, EngineError>(EngineError::InvalidConfig(field)),
{
    if v > 0 {
        Ok(v as usize)
    } else {
        Err(EngineError::InvalidConfig(field))
    }
}

impl Config {
    /// Whether the hyperparameters are those of some valid header.
    pub open spec fn valid(self) -> bool {
        &&& 0 < self.dim <= i32::MAX
        &&& 0 < self.hidden_dim <= i32::MAX
        &&& 0 < self.n_layers <= i32::MAX
        &&& 0 < self.n_heads <= i32::MAX
        &&& 0 < self.n_kv_heads <= i32::MAX
        &&& 0 < self.vocab_size <= MOST_VOCAB
        &&& 0 < self.seq_len <= i32::MAX
        &&& self.dim % self.n_heads == 0
        &&& self.n_heads % self.n_kv_heads == 0
    }

    /// Parse and validate a legacy (version 0) config from the start of a
    /// checkpoint's bytes. Only the first [`HEADER_BYTES`] are read.
    pub fn parse(bytes: &[u8]) -> (r: Result<Config, EngineError>)
        ensures
            r == legacy_config(bytes@),
    {
        if bytes.len() < HEADER_BYTES {
            return Err(EngineError::HeaderTooShort);
        }
        let mut fields = read_fields(bytes, 0);
        let ghost f = header_fields(bytes@, 0);
        let ghost read = fields@;
        let vocab_size: i64 = fields[5];
        proof {
            assert(read.map_values(|v: i64| v as int)[5] == f[5]);
        }
        fields[5] = if vocab_size < 0 {
            -vocab_size
        } else {
            vocab_size
        };
        proof {
            assert(fields@.map_values(|v: i64| v as int) =~= read.map_values(
                |v: i64| v as int,
            ).update(5, vocab_magnitude(f[5])));
        }
        Config::from_fields(fields, vocab_size > 0)
    }

    /// Validate seven raw header fields (in on-disk order).
    fn from_fields(fields: [i64; 7], shared_weights: bool) -> (r: Result<Config, EngineError>)
        requires
            forall|i: int| 0 <= i < 7 ==> #[trigger] fields@[i] <= MOST_VOCAB,
        ensures
            r == config_of(fields@.map_values(|v: i64| v as int), shared_weights),
    {
        proof {
            assert forall|i: int| 0 <= i < 7 implies fields@.map_values(|v: i64| v as int)[i]
                == fields@[i] by {}
        }
        let dim: usize = positive(fields[0], ConfigField::Dim)?;
        let hidden_dim: usize = positive(fields[1], ConfigField::HiddenDim)?;
        let n_layers: usize = positive(fields[2], ConfigField::NLayers)?;
        let n_heads: usize = positive(fields[3], ConfigField::NHeads)?;
        let n_kv_heads: usize = positive(fields[4], ConfigField::NKvHeads)?;
        let vocab_size: usize = positive(fields[5], ConfigField::VocabSize)?;
        let seq_len: usize = positive(fields[6], ConfigField::SeqLen)?;
        if dim % n_heads != 0 {
            return Err(EngineError::InvalidConfig(ConfigField::Dim));
        }
        if n_heads % n_kv_heads != 0 {
            return Err(EngineError::InvalidConfig(ConfigField::NKvHeads));
        }
        Ok(
            Config {
                dim,
                hidden_dim,
                n_layers,
                n_heads,
                n_kv_heads,
                vocab_size,
                seq_len,
                shared_weights,
            },
        )
    }

    /// Size of a single attention head: `dim / n_heads`.
    pub open spec fn head_size_spec(self) -> nat {
        self.dim as nat / self.n_heads as nat
    }

    /// Combined width of the key/value projections.
    pub open spec fn kv_dim_spec(self) -> nat {
        self.n_kv_heads as nat * self.head_size_spec()
    }

    /// Combined width of the query projection.
    pub open spec fn att_dim_spec(self) -> nat {
        self.n_heads as nat * self.head_size_spec()
    }

    /// Size of a single attention head: `dim / n_heads`.
    pub fn head_size(&self) -> (r: usize)
        requires
            self.n_heads > 0,
        ensures
            r == self.head_size_spec(),
    {
        self.dim / self.n_heads
    }

    /// Combined width of the key/value projections: `n_kv_heads * head_size`.
    pub fn kv_dim(&self) -> (r: usize)
        requires
            self.n_heads > 0,
            self.kv_dim_spec() <= usize::MAX,
        ensures
            r == self.kv_dim_spec(),
    {
        self.n_kv_heads * self.head_size()
    }

    /// How many query heads share each key/value head.
    pub fn kv_mul(&self) -> (r: usize)
        requires
            self.n_kv_heads > 0,
        ensures
            r == self.n_heads as nat / self.n_kv_heads as nat,
    {
        self.n_heads / self.n_kv_heads
    }
}

/// The heads of a valid config make up the model dimension, and the key/value projections
/// are no wider.
pub proof fn heads_make_up_the_dimension(c: Config)
    requires
        c.valid(),
    ensures
        c.att_dim_spec() == c.dim,
        c.kv_dim_spec() <= c.dim,
        c.kv_dim_spec() * (c.n_heads as nat / c.n_kv_heads as nat) == c.dim,
        0 < c.head_size_spec(),
{
    let d = c.dim as int;
    let h = c.n_heads as int;
    let k = c.n_kv_heads as int;
    let size = d / h;
    let m = h / k;
    assert(h * size == d && size > 0) by (nonlinear_arith)
        requires
            d > 0,
            h > 0,
            d % h == 0,
            size == d / h,
    ;
    assert(k * m == h && m > 0) by (nonlinear_arith)
        requires
            h > 0,
            k > 0,
            h % k == 0,
            m == h / k,
    ;
    assert((k * size) * m == h * size) by (nonlinear_arith)
        requires
            k * m == h,
    ;
    assert(k * size <= h * size) by (nonlinear_arith)
        requires
            k * m == h,
            m > 0,
            k > 0,
            size > 0,
    ;
}

/// Whatever header parses describes a valid config, and a v2 group size that divides
/// both matmul input widths.
pub proof fn parsed_configs_are_valid(s: Seq<u8>)
    ensures
        parsed_header(s) matches Ok((c, format)) ==> {
            &&& c.valid()
            &&& format matches ModelFormat::V2 { group_size } ==> {
                &&& 0 < group_size <= i32::MAX
                &&& c.dim % group_size == 0
                &&& c.hidden_dim % group_size == 0
            }
        },
{
}

/// Anything [`parse_header`] accepts, [`is_llama`] recognizes.
pub proof fn parsed_headers_are_llama(s: Seq<u8>)
    ensures
        parsed_header(s) is Ok ==> has_magic(s) || legacy_config(s) is Ok,
{
}

} // verus!
