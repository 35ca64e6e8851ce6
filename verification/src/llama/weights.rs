//! Zero-copy views into a checkpoint's weight region.
//!
//! After the header a full-precision checkpoint stores every weight tensor back to
//! back in a fixed order. [`Weights`] holds sub-slices that point straight into the
//! file buffer. The two full-precision formats store the same tensors in different
//! orders; the legacy one also holds two rotary tables, which are skipped.

use vstd::arithmetic::overflow::CheckedUsize;
use vstd::prelude::*;

use crate::error::EngineError;
#[allow(unused_imports)]
use crate::layout::{offset, part, short_region, total, true_lens};
use crate::layout::{check_region, cut_part, product, product3, total_checked};
use crate::llama::config::{Config, ModelFormat};
use crate::llama::quantize::{att_dim, quantized_weight_count_checked};
#[allow(unused_imports)]
use crate::llama::quantize::quantized_lens;

verus! {

/// Bytes of one full-precision value in a file.
pub const F32_BYTES: usize = 4;

/// Length of one rotary table: half a head per position.
pub open spec fn rotary_len(c: Config) -> nat {
    c.seq_len as nat * (c.head_size_spec() / 2)
}

/// Length of the separate classifier: none when it shares the embedding.
pub open spec fn classifier_len(c: Config) -> nat {
    if c.shared_weights {
        0
    } else {
        c.vocab_size as nat * c.dim as nat
    }
}

/// Lengths of the parts of a legacy checkpoint, in file order: the embedding,
/// `rms_att`, `wq`, `wk`, `wv`, `wo`, `rms_ffn`, `w1`, `w2`, `w3`, `rms_final`, the two
/// rotary tables, and the classifier.
pub open spec fn legacy_lens(c: Config) -> Seq<nat> {
    let l = c.n_layers as nat;
    let dim = c.dim as nat;
    let hidden = c.hidden_dim as nat;
    seq![
        c.vocab_size as nat * dim,
        l * dim,
        l * dim * c.att_dim_spec(),
        l * dim * c.kv_dim_spec(),
        l * dim * c.kv_dim_spec(),
        l * c.att_dim_spec() * dim,
        l * dim,
        l * hidden * dim,
        l * dim * hidden,
        l * hidden * dim,
        dim,
        rotary_len(c),
        rotary_len(c),
        classifier_len(c),
    ]
}

/// Lengths of the parts of a v1 checkpoint, in file order: `rms_att`, `rms_ffn`,
/// `rms_final`, the embedding, `wq`, `wk`, `wv`, `wo`, `w1`, `w2`, `w3`, and the
/// classifier.
pub open spec fn v1_lens(c: Config) -> Seq<nat> {
    let l = c.n_layers as nat;
    let dim = c.dim as nat;
    let hidden = c.hidden_dim as nat;
    seq![
        l * dim,
        l * dim,
        dim,
        c.vocab_size as nat * dim,
        l * dim * c.att_dim_spec(),
        l * dim * c.kv_dim_spec(),
        l * dim * c.kv_dim_spec(),
        l * c.att_dim_spec() * dim,
        l * hidden * dim,
        l * dim * hidden,
        l * hidden * dim,
        classifier_len(c),
    ]
}

/// Number of full-precision RMSNorm gains.
pub open spec fn norm_len(c: Config) -> nat {
    2 * c.n_layers as nat * c.dim as nat + c.dim as nat
}

/// Bytes of the weights behind the header.
pub open spec fn payload_bytes(c: Config, format: ModelFormat) -> nat {
    match format {
        ModelFormat::Legacy => total(legacy_lens(c)) * F32_BYTES as nat,
        ModelFormat::V1 => total(v1_lens(c)) * F32_BYTES as nat,
        ModelFormat::V2 { group_size } => norm_len(c) * F32_BYTES as nat + total(quantized_lens(c))
            + (total(quantized_lens(c)) / group_size as nat) * F32_BYTES as nat,
    }
}

/// Bytes of a whole checkpoint.
pub open spec fn file_bytes(c: Config, format: ModelFormat) -> nat {
    format.header_bytes() as nat + payload_bytes(c, format)
}

/// The parts of a legacy checkpoint, kept exact beyond the machine's range.
fn legacy_lens_checked(c: &Config) -> (r: [CheckedUsize; 14])
    requires
        c.n_heads > 0,
    ensures
        true_lens(r@) == legacy_lens(*c),
{
    let att_dim: usize = att_dim(c);
    let kv_dim = product(c.n_kv_heads, c.head_size());
    let r = [
        product(c.vocab_size, c.dim),
        product(c.n_layers, c.dim),
        product3(c.n_layers, c.dim, att_dim),
        product(c.n_layers, c.dim).mul_checked(&kv_dim),
        product(c.n_layers, c.dim).mul_checked(&kv_dim),
        product3(c.n_layers, att_dim, c.dim),
        product(c.n_layers, c.dim),
        product3(c.n_layers, c.hidden_dim, c.dim),
        product3(c.n_layers, c.dim, c.hidden_dim),
        product3(c.n_layers, c.hidden_dim, c.dim),
        CheckedUsize::new(c.dim),
        product(c.seq_len, c.head_size() / 2),
        product(c.seq_len, c.head_size() / 2),
        if c.shared_weights {
            CheckedUsize::new(0)
        } else {
            product(c.vocab_size, c.dim)
        },
    ];
    proof {
        assert(true_lens(r@) =~= legacy_lens(*c));
    }
    r
}

/// The parts of a v1 checkpoint, kept exact beyond the machine's range.
fn v1_lens_checked(c: &Config) -> (r: [CheckedUsize; 12])
    requires
        c.n_heads > 0,
    ensures
        true_lens(r@) == v1_lens(*c),
{
    let att_dim: usize = att_dim(c);
    let kv_dim = product(c.n_kv_heads, c.head_size());
    let r = [
        product(c.n_layers, c.dim),
        product(c.n_layers, c.dim),
        CheckedUsize::new(c.dim),
        product(c.vocab_size, c.dim),
        product3(c.n_layers, c.dim, att_dim),
        product(c.n_layers, c.dim).mul_checked(&kv_dim),
        product(c.n_layers, c.dim).mul_checked(&kv_dim),
        product3(c.n_layers, att_dim, c.dim),
        product3(c.n_layers, c.hidden_dim, c.dim),
        product3(c.n_layers, c.dim, c.hidden_dim),
        product3(c.n_layers, c.hidden_dim, c.dim),
        if c.shared_weights {
            CheckedUsize::new(0)
        } else {
            product(c.vocab_size, c.dim)
        },
    ];
    proof {
        assert(true_lens(r@) =~= v1_lens(*c));
    }
    r
}

/// Number of elements a legacy checkpoint stores after the header.
pub fn weight_floats(c: &Config) -> (r: usize)
    requires
        c.n_heads > 0,
        total(legacy_lens(*c)) <= usize::MAX,
    ensures
        r == total(legacy_lens(*c)),
{
    let lens = legacy_lens_checked(c);
    total_checked(&lens).unwrap()
}

/// Number of elements a v1 checkpoint stores after its header.
pub fn weight_floats_v1(c: &Config) -> (r: usize)
    requires
        c.n_heads > 0,
        total(v1_lens(*c)) <= usize::MAX,
    ensures
        r == total(v1_lens(*c)),
{
    let lens = v1_lens_checked(c);
    total_checked(&lens).unwrap()
}

/// The size of a checkpoint in bytes, kept exact beyond the machine's range.
pub fn expected_file_bytes_checked(c: &Config, format: ModelFormat) -> (r: CheckedUsize)
    requires
        c.n_heads > 0,
        format matches ModelFormat::V2 { group_size } ==> group_size > 0,
    ensures
        r@ == file_bytes(*c, format),
{
    let payload = match format {
        ModelFormat::Legacy => {
            let lens = legacy_lens_checked(c);
            total_checked(&lens).mul_value(F32_BYTES)
        },
        ModelFormat::V1 => {
            let lens = v1_lens_checked(c);
            total_checked(&lens).mul_value(F32_BYTES)
        },
        ModelFormat::V2 { group_size } => {
            let norms = product3(2, c.n_layers, c.dim).add_value(c.dim);
            let data = quantized_weight_count_checked(c);
            match data.to_option() {
                Some(n) => norms.mul_value(F32_BYTES).add_value(n).add_checked(
                    &product(n / group_size, F32_BYTES),
                ),
                None => CheckedUsize::new_overflowed(Ghost(payload_bytes(*c, format) as int)),
            }
        },
    };
    payload.add_value(format.header_bytes())
}

/// Total on-disk size of a checkpoint with this config and format, in bytes.
pub fn expected_file_bytes(c: &Config, format: ModelFormat) -> (r: usize)
    requires
        c.n_heads > 0,
        format matches ModelFormat::V2 { group_size } ==> group_size > 0,
        file_bytes(*c, format) <= usize::MAX,
    ensures
        r == file_bytes(*c, format),
{
    expected_file_bytes_checked(c, format).unwrap()
}

/// Borrowed views of every weight tensor.
#[derive(Debug, Clone, Copy)]
pub struct Weights<'a, T> {
    /// Token embedding table, `[vocab, dim]`.
    pub token_embedding: &'a [T],
    /// Per-layer attention RMSNorm gains, `[n_layers, dim]`.
    pub rms_att: &'a [T],
    /// Query projection, `[n_layers, dim, att_dim]`.
    pub wq: &'a [T],
    /// Key projection, `[n_layers, dim, kv_dim]`.
    pub wk: &'a [T],
    /// Value projection, `[n_layers, dim, kv_dim]`.
    pub wv: &'a [T],
    /// Attention output projection, `[n_layers, att_dim, dim]`.
    pub wo: &'a [T],
    /// Per-layer feed-forward RMSNorm gains, `[n_layers, dim]`.
    pub rms_ffn: &'a [T],
    /// SwiGLU gate projection, `[n_layers, hidden, dim]`.
    pub w1: &'a [T],
    /// SwiGLU down projection, `[n_layers, dim, hidden]`.
    pub w2: &'a [T],
    /// SwiGLU up projection, `[n_layers, hidden, dim]`.
    pub w3: &'a [T],
    /// Final RMSNorm gains, `[dim]`.
    pub rms_final: &'a [T],
    /// Output classifier, `[vocab, dim]` (the embedding itself if shared).
    pub wcls: &'a [T],
}

/// Whether the views are the parts of a legacy weight region.
pub open spec fn views_legacy<T>(w: Weights<'_, T>, s: Seq<T>, c: Config) -> bool {
    let lens = legacy_lens(c);
    &&& w.token_embedding@ == part(s, lens, 0)
    &&& w.rms_att@ == part(s, lens, 1)
    &&& w.wq@ == part(s, lens, 2)
    &&& w.wk@ == part(s, lens, 3)
    &&& w.wv@ == part(s, lens, 4)
    &&& w.wo@ == part(s, lens, 5)
    &&& w.rms_ffn@ == part(s, lens, 6)
    &&& w.w1@ == part(s, lens, 7)
    &&& w.w2@ == part(s, lens, 8)
    &&& w.w3@ == part(s, lens, 9)
    &&& w.rms_final@ == part(s, lens, 10)
    &&& w.wcls@ == if c.shared_weights {
        w.token_embedding@
    } else {
        part(s, lens, 13)
    }
}

/// Whether the views are the parts of a v1 weight region.
pub open spec fn views_v1<T>(w: Weights<'_, T>, s: Seq<T>, c: Config) -> bool {
    let lens = v1_lens(c);
    &&& w.rms_att@ == part(s, lens, 0)
    &&& w.rms_ffn@ == part(s, lens, 1)
    &&& w.rms_final@ == part(s, lens, 2)
    &&& w.token_embedding@ == part(s, lens, 3)
    &&& w.wq@ == part(s, lens, 4)
    &&& w.wk@ == part(s, lens, 5)
    &&& w.wv@ == part(s, lens, 6)
    &&& w.wo@ == part(s, lens, 7)
    &&& w.w1@ == part(s, lens, 8)
    &&& w.w2@ == part(s, lens, 9)
    &&& w.w3@ == part(s, lens, 10)
    &&& w.wcls@ == if c.shared_weights {
        w.token_embedding@
    } else {
        part(s, lens, 11)
    }
}

/// Whether every view has the shape that the config gives its tensor.
pub open spec fn shaped<T>(w: Weights<'_, T>, c: Config) -> bool {
    let l = c.n_layers as nat;
    let dim = c.dim as nat;
    let hidden = c.hidden_dim as nat;
    &&& w.token_embedding@.len() == c.vocab_size as nat * dim
    &&& w.rms_att@.len() == l * dim
    &&& w.wq@.len() == l * dim * c.att_dim_spec()
    &&& w.wk@.len() == l * dim * c.kv_dim_spec()
    &&& w.wv@.len() == l * dim * c.kv_dim_spec()
    &&& w.wo@.len() == l * c.att_dim_spec() * dim
    &&& w.rms_ffn@.len() == l * dim
    &&& w.w1@.len() == l * hidden * dim
    &&& w.w2@.len() == l * dim * hidden
    &&& w.w3@.len() == l * hidden * dim
    &&& w.rms_final@.len() == dim
    &&& w.wcls@.len() == c.vocab_size as nat * dim
}

impl<'a, T: Copy> Weights<'a, T> {
    /// Carve the weight tensors out of a legacy checkpoint's weight region.
    ///
    /// Fails with [`EngineError::SizeMismatch`] if the region is shorter than the
    /// config requires.
    pub fn new(floats: &'a [T], c: &Config) -> (r: Result<Weights<'a, T>, EngineError>)
        requires
            c.n_heads > 0,
        ensures
            match r {
                Ok(w) => floats@.len() >= total(legacy_lens(*c)) && views_legacy(w, floats@, *c)
                    && shaped(w, *c),
                Err(e) => floats@.len() < total(legacy_lens(*c)) && e == short_region::<T>(
                    total(legacy_lens(*c)),
                    floats@.len(),
                ),
            },
    {
        let lens = legacy_lens_checked(c);
        check_region::<T>(&total_checked(&lens), floats.len())?;
        let mut at: usize = 0;
        let token_embedding = cut_part(floats, &lens, 0, &mut at);
        let rms_att = cut_part(floats, &lens, 1, &mut at);
        let wq = cut_part(floats, &lens, 2, &mut at);
        let wk = cut_part(floats, &lens, 3, &mut at);
        let wv = cut_part(floats, &lens, 4, &mut at);
        let wo = cut_part(floats, &lens, 5, &mut at);
        let rms_ffn = cut_part(floats, &lens, 6, &mut at);
        let w1 = cut_part(floats, &lens, 7, &mut at);
        let w2 = cut_part(floats, &lens, 8, &mut at);
        let w3 = cut_part(floats, &lens, 9, &mut at);
        let rms_final = cut_part(floats, &lens, 10, &mut at);
        let _rotary_cos = cut_part(floats, &lens, 11, &mut at);
        let _rotary_sin = cut_part(floats, &lens, 12, &mut at);
        let wcls = if c.shared_weights {
            token_embedding
        } else {
            cut_part(floats, &lens, 13, &mut at)
        };
        Ok(
            Weights {
                token_embedding,
                rms_att,
                wq,
                wk,
                wv,
                wo,
                rms_ffn,
                w1,
                w2,
                w3,
                rms_final,
                wcls,
            },
        )
    }

    /// Carve the weight tensors out of a v1 checkpoint's weight region.
    ///
    /// Fails with [`EngineError::SizeMismatch`] if the region is shorter than the
    /// config requires.
    pub fn new_v1(floats: &'a [T], c: &Config) -> (r: Result<Weights<'a, T>, EngineError>)
        requires
            c.n_heads > 0,
        ensures
            match r {
                Ok(w) => floats@.len() >= total(v1_lens(*c)) && views_v1(w, floats@, *c) && shaped(
                    w,
                    *c,
                ),
                Err(e) => floats@.len() < total(v1_lens(*c)) && e == short_region::<T>(
                    total(v1_lens(*c)),
                    floats@.len(),
                ),
            },
    {
        let lens = v1_lens_checked(c);
        check_region::<T>(&total_checked(&lens), floats.len())?;
        let mut at: usize = 0;
        let rms_att = cut_part(floats, &lens, 0, &mut at);
        let rms_ffn = cut_part(floats, &lens, 1, &mut at);
        let rms_final = cut_part(floats, &lens, 2, &mut at);
        let token_embedding = cut_part(floats, &lens, 3, &mut at);
        let wq = cut_part(floats, &lens, 4, &mut at);
        let wk = cut_part(floats, &lens, 5, &mut at);
        let wv = cut_part(floats, &lens, 6, &mut at);
        let wo = cut_part(floats, &lens, 7, &mut at);
        let w1 = cut_part(floats, &lens, 8, &mut at);
        let w2 = cut_part(floats, &lens, 9, &mut at);
        let w3 = cut_part(floats, &lens, 10, &mut at);
        let wcls = if c.shared_weights {
            token_embedding
        } else {
            cut_part(floats, &lens, 11, &mut at)
        };
        Ok(
            Weights {
                token_embedding,
                rms_att,
                wq,
                wk,
                wv,
                wo,
                rms_ffn,
                w1,
                w2,
                w3,
                rms_final,
                wcls,
            },
        )
    }
}

/// A legacy checkpoint holds what a v1 checkpoint holds, plus the two rotary tables.
pub proof fn legacy_is_v1_plus_rotary_tables(c: Config)
    ensures
        total(legacy_lens(c)) == total(v1_lens(c)) + 2 * rotary_len(c),
{
    reveal_with_fuel(offset, 15);
}

/// A separate classifier adds one table of the embedding's size.
pub proof fn classifier_adds_a_table(shared: Config, separate: Config)
    requires
        shared.shared_weights,
        separate == (Config { shared_weights: false, ..shared }),
    ensures
        total(legacy_lens(separate)) == total(legacy_lens(shared)) + shared.vocab_size as nat
            * shared.dim as nat,
        total(v1_lens(separate)) == total(v1_lens(shared)) + shared.vocab_size as nat
            * shared.dim as nat,
        total(quantized_lens(separate)) == total(quantized_lens(shared)) + shared.vocab_size as nat
            * shared.dim as nat,
{
    reveal_with_fuel(offset, 15);
}

} // verus!
