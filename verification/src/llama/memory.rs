//! Memory-budget arithmetic: how large the working arena must be, computed from a
//! [`Config`] alone.

use vstd::arithmetic::overflow::CheckedUsize;
use vstd::prelude::*;

use crate::layout::product;
use crate::llama::config::Config;
use crate::llama::quantize::att_dim;
use crate::llama::weights::F32_BYTES;

verus! {

/// Elements of the per-step scratch buffers: `x`, `xb`, `xb2` (`dim` each), `hb`, `hb2`
/// (`hidden_dim` each), `q`, `att` (a row of `seq_len` per head), and `logits`.
pub open spec fn activation_len(c: Config) -> nat {
    3 * c.dim as nat + 2 * c.hidden_dim as nat + c.att_dim_spec() + c.n_heads as nat
        * c.seq_len as nat + c.vocab_size as nat
}

/// Elements of the key cache, or of the value cache.
pub open spec fn cache_len(c: Config) -> nat {
    c.n_layers as nat * c.seq_len as nat * c.kv_dim_spec()
}

/// Elements of the activation scratch, kept exact beyond the machine's range.
pub fn activation_floats_checked(c: &Config) -> (r: CheckedUsize)
    requires
        c.n_heads > 0,
    ensures
        r@ == activation_len(*c),
{
    let att_dim: usize = att_dim(c);
    product(3, c.dim).add_checked(&product(2, c.hidden_dim)).add_value(att_dim).add_checked(
        &product(c.n_heads, c.seq_len),
    ).add_value(c.vocab_size)
}

/// Elements of one cache, kept exact beyond the machine's range.
pub fn cache_floats_checked(c: &Config) -> (r: CheckedUsize)
    requires
        c.n_heads > 0,
    ensures
        r@ == cache_len(*c),
{
    product(c.n_layers, c.seq_len).mul_checked(&product(c.n_kv_heads, c.head_size()))
}

/// Elements of the per-step activation scratch buffers.
pub fn activation_floats(c: &Config) -> (r: usize)
    requires
        c.n_heads > 0,
        activation_len(*c) <= usize::MAX,
    ensures
        r == activation_len(*c),
{
    activation_floats_checked(c).unwrap()
}

/// The largest matmul input width across all projections.
pub fn max_proj_d_in(c: &Config) -> (r: usize)
    requires
        c.n_heads > 0,
    ensures
        r >= c.dim && r >= c.att_dim_spec() && r >= c.hidden_dim,
        r == c.dim || r == c.att_dim_spec() || r == c.hidden_dim,
{
    let att_dim: usize = att_dim(c);
    let a: usize = if c.dim > att_dim {
        c.dim
    } else {
        att_dim
    };
    if a > c.hidden_dim {
        a
    } else {
        c.hidden_dim
    }
}

/// Elements of the KV cache: the key cache and the value cache.
pub fn kv_cache_floats(c: &Config) -> (r: usize)
    requires
        c.n_heads > 0,
        2 * cache_len(*c) <= usize::MAX,
    ensures
        r == 2 * cache_len(*c),
{
    2 * cache_floats_checked(c).unwrap()
}

/// Total elements the arena must hold: activations plus KV cache.
pub fn arena_floats(c: &Config) -> (r: usize)
    requires
        c.n_heads > 0,
        activation_len(*c) + 2 * cache_len(*c) <= usize::MAX,
    ensures
        r == activation_len(*c) + 2 * cache_len(*c),
{
    activation_floats(c) + kv_cache_floats(c)
}

/// A broken-down memory budget.
#[derive(Debug, Clone, Copy, PartialEq, Eq, Structural)]
pub struct MemoryBudget {
    /// Elements of the activation scratch.
    pub activation_floats: usize,
    /// Elements of the KV cache.
    pub kv_cache_floats: usize,
}

impl MemoryBudget {
    /// Compute the budget for a config.
    pub fn for_config(c: &Config) -> (r: Self)
        requires
            c.n_heads > 0,
            activation_len(*c) <= usize::MAX,
            2 * cache_len(*c) <= usize::MAX,
        ensures
            r.activation_floats == activation_len(*c),
            r.kv_cache_floats == 2 * cache_len(*c),
    {
        MemoryBudget {
            activation_floats: activation_floats(c),
            kv_cache_floats: kv_cache_floats(c),
        }
    }

    /// Total elements.
    pub fn total_floats(&self) -> (r: usize)
        requires
            self.activation_floats + self.kv_cache_floats <= usize::MAX,
        ensures
            r == self.activation_floats + self.kv_cache_floats,
    {
        self.activation_floats + self.kv_cache_floats
    }

    /// Activation bytes.
    pub fn activation_bytes(&self) -> (r: usize)
        requires
            self.activation_floats * 4 <= usize::MAX,
        ensures
            r == self.activation_floats * 4,
    {
        self.activation_floats * F32_BYTES
    }

    /// KV-cache bytes.
    pub fn kv_cache_bytes(&self) -> (r: usize)
        requires
            self.kv_cache_floats * 4 <= usize::MAX,
        ensures
            r == self.kv_cache_floats * 4,
    {
        self.kv_cache_floats * F32_BYTES
    }

    /// Total arena bytes.
    pub fn total_bytes(&self) -> (r: usize)
        requires
            (self.activation_floats + self.kv_cache_floats) * 4 <= usize::MAX,
        ensures
            r == (self.activation_floats + self.kv_cache_floats) * 4,
    {
        self.total_floats() * F32_BYTES
    }
}

/// The budget is broken down completely: its parts make up the arena.
pub proof fn budget_is_the_arena(c: Config, b: MemoryBudget)
    requires
        b.activation_floats == activation_len(c),
        b.kv_cache_floats == 2 * cache_len(c),
    ensures
        b.activation_floats + b.kv_cache_floats == activation_len(c) + 2 * cache_len(c),
        b.activation_floats * 4 + b.kv_cache_floats * 4 == (b.activation_floats
            + b.kv_cache_floats) * 4,
{
}

} // verus!
