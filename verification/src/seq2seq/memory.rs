//! Memory-budget arithmetic for the seq2seq working arena.
//!
//! The arena holds four groups of buffers: the encoder's (attention is all-to-all, so every
//! source position stays resident), the cross-attention cache (keys and values of the
//! encoder output per decoder layer), the decoder's self-attention cache, and the
//! single-position working set.

use vstd::arithmetic::overflow::CheckedUsize;
use vstd::prelude::*;

use crate::layout::{product, product3};
use crate::llama::weights::F32_BYTES;
use crate::seq2seq::config::Config;

verus! {

/// The larger of two sizes.
pub open spec fn larger(a: usize, b: usize) -> nat {
    if a > b {
        a as nat
    } else {
        b as nat
    }
}

/// Elements of the encoder-side buffers: the residual stream, the sublayer outputs, one
/// layer's keys and values, and one row of scores.
pub open spec fn encoder_len(c: Config, src_len: nat) -> nat {
    4 * (src_len * c.d_model as nat) + src_len
}

/// Elements of a pair of caches that hold `len` positions for every decoder layer.
pub open spec fn decoder_cache_len(c: Config, len: nat) -> nat {
    2 * (c.dec_layers as nat * len * c.d_model as nat)
}

/// Elements of the single-position working set: four vectors, the wider feed-forward
/// buffer, scores per head over the longer sequence, and the logits.
pub open spec fn step_len(c: Config, src_len: usize, tgt_len: usize) -> nat {
    4 * c.d_model as nat + larger(c.enc_ffn, c.dec_ffn) + c.dec_heads as nat * larger(
        src_len,
        tgt_len,
    ) + c.vocab_size as nat
}

/// Elements of the whole arena.
pub open spec fn arena_len(c: Config, src_len: usize, tgt_len: usize) -> nat {
    encoder_len(c, src_len as nat) + decoder_cache_len(c, src_len as nat) + decoder_cache_len(
        c,
        tgt_len as nat,
    ) + step_len(c, src_len, tgt_len)
}

/// The larger of two sizes.
pub fn max_of(a: usize, b: usize) -> (r: usize)
    ensures
        r == larger(a, b),
{
    if a > b {
        a
    } else {
        b
    }
}

/// Elements of the encoder-side buffers for a source of `src_len` tokens.
pub fn seq2seq_encoder_floats(c: &Config, src_len: usize) -> (r: usize)
    requires
        encoder_len(*c, src_len as nat) <= usize::MAX,
    ensures
        r == encoder_len(*c, src_len as nat),
{
    let n = product(src_len, c.d_model);
    CheckedUsize::new(4).mul_checked(&n).add_value(src_len).unwrap()
}

/// Elements of the cross-attention cache.
pub fn seq2seq_cross_kv_floats(c: &Config, src_len: usize) -> (r: usize)
    requires
        decoder_cache_len(*c, src_len as nat) <= usize::MAX,
    ensures
        r == decoder_cache_len(*c, src_len as nat),
{
    2 * product3(c.dec_layers, src_len, c.d_model).unwrap()
}

/// Elements of the decoder's self-attention cache for `tgt_len` positions.
pub fn seq2seq_self_kv_floats(c: &Config, tgt_len: usize) -> (r: usize)
    requires
        decoder_cache_len(*c, tgt_len as nat) <= usize::MAX,
    ensures
        r == decoder_cache_len(*c, tgt_len as nat),
{
    2 * product3(c.dec_layers, tgt_len, c.d_model).unwrap()
}

/// Elements of the single-position working set.
pub fn seq2seq_step_floats(c: &Config, src_len: usize, tgt_len: usize) -> (r: usize)
    requires
        step_len(*c, src_len, tgt_len) <= usize::MAX,
    ensures
        r == step_len(*c, src_len, tgt_len),
{
    let ffn: usize = max_of(c.enc_ffn, c.dec_ffn);
    let span: usize = max_of(src_len, tgt_len);
    product(4, c.d_model).add_value(ffn).add_checked(&product(c.dec_heads, span)).add_value(
        c.vocab_size,
    ).unwrap()
}

/// Total elements of the arena, kept exact beyond the machine's range.
pub fn arena_floats_checked(c: &Config, src_len: usize, tgt_len: usize) -> (r: CheckedUsize)
    ensures
        r@ == arena_len(*c, src_len, tgt_len),
{
    let ffn: usize = max_of(c.enc_ffn, c.dec_ffn);
    let span: usize = max_of(src_len, tgt_len);
    let encoder = CheckedUsize::new(4).mul_checked(&product(src_len, c.d_model)).add_value(src_len);
    let cross = product3(c.dec_layers, src_len, c.d_model).mul_value(2);
    let own = product3(c.dec_layers, tgt_len, c.d_model).mul_value(2);
    let step = product(4, c.d_model).add_value(ffn).add_checked(
        &product(c.dec_heads, span),
    ).add_value(c.vocab_size);
    encoder.add_checked(&cross).add_checked(&own).add_checked(&step)
}

/// Total elements the arena must hold for one run.
pub fn seq2seq_arena_floats(c: &Config, src_len: usize, tgt_len: usize) -> (r: usize)
    requires
        arena_len(*c, src_len, tgt_len) <= usize::MAX,
    ensures
        r == arena_len(*c, src_len, tgt_len),
{
    seq2seq_encoder_floats(c, src_len) + seq2seq_cross_kv_floats(c, src_len)
        + seq2seq_self_kv_floats(c, tgt_len) + seq2seq_step_floats(c, src_len, tgt_len)
}

/// A broken-down memory budget.
#[derive(Debug, Clone, Copy, PartialEq, Eq, Structural)]
pub struct MemoryBudget {
    /// Encoder-buffer elements.
    pub encoder_floats: usize,
    /// Cross-KV cache elements.
    pub cross_kv_floats: usize,
    /// Decoder self-KV cache elements.
    pub self_kv_floats: usize,
    /// Per-step working-set elements.
    pub step_floats: usize,
}

impl MemoryBudget {
    /// All four groups together.
    pub open spec fn sum(self) -> nat {
        (self.encoder_floats + self.cross_kv_floats + self.self_kv_floats + self.step_floats) as nat
    }

    /// Compute the budget for a config at the given sequence lengths.
    pub fn for_config(c: &Config, src_len: usize, tgt_len: usize) -> (r: Self)
        requires
            encoder_len(*c, src_len as nat) <= usize::MAX,
            decoder_cache_len(*c, src_len as nat) <= usize::MAX,
            decoder_cache_len(*c, tgt_len as nat) <= usize::MAX,
            step_len(*c, src_len, tgt_len) <= usize::MAX,
        ensures
            r.encoder_floats == encoder_len(*c, src_len as nat),
            r.cross_kv_floats == decoder_cache_len(*c, src_len as nat),
            r.self_kv_floats == decoder_cache_len(*c, tgt_len as nat),
            r.step_floats == step_len(*c, src_len, tgt_len),
            r.sum() == arena_len(*c, src_len, tgt_len),
    {
        MemoryBudget {
            encoder_floats: seq2seq_encoder_floats(c, src_len),
            cross_kv_floats: seq2seq_cross_kv_floats(c, src_len),
            self_kv_floats: seq2seq_self_kv_floats(c, tgt_len),
            step_floats: seq2seq_step_floats(c, src_len, tgt_len),
        }
    }

    /// Total elements across all four groups.
    pub fn total_floats(&self) -> (r: usize)
        requires
            self.sum() <= usize::MAX,
        ensures
            r == self.sum(),
    {
        self.encoder_floats + self.cross_kv_floats + self.self_kv_floats + self.step_floats
    }

    /// Encoder-buffer bytes.
    pub fn encoder_bytes(&self) -> (r: usize)
        requires
            self.encoder_floats * 4 <= usize::MAX,
        ensures
            r == self.encoder_floats * 4,
    {
        self.encoder_floats * F32_BYTES
    }

    /// Cross-KV cache bytes.
    pub fn cross_kv_bytes(&self) -> (r: usize)
        requires
            self.cross_kv_floats * 4 <= usize::MAX,
        ensures
            r == self.cross_kv_floats * 4,
    {
        self.cross_kv_floats * F32_BYTES
    }

    /// Decoder self-KV cache bytes.
    pub fn self_kv_bytes(&self) -> (r: usize)
        requires
            self.self_kv_floats * 4 <= usize::MAX,
        ensures
            r == self.self_kv_floats * 4,
    {
        self.self_kv_floats * F32_BYTES
    }

    /// Per-step working-set bytes.
    pub fn step_bytes(&self) -> (r: usize)
        requires
            self.step_floats * 4 <= usize::MAX,
        ensures
            r == self.step_floats * 4,
    {
        self.step_floats * F32_BYTES
    }

    /// Total arena bytes.
    pub fn total_bytes(&self) -> (r: usize)
        requires
            self.sum() * 4 <= usize::MAX,
        ensures
            r == self.sum() * 4,
    {
        self.total_floats() * F32_BYTES
    }
}

} // verus!
