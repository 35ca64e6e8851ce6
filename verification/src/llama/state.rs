//! Per-step run state: every working buffer, carved from the [`Arena`] once.

use vstd::arithmetic::overflow::CheckedUsize;
use vstd::prelude::*;

use crate::arena::{carve, Arena};
#[allow(unused_imports)]
use crate::arena::{carving_error, all_default};
use crate::error::EngineError;
use crate::layout::product;
#[allow(unused_imports)]
use crate::layout::{offset, total};
use crate::llama::config::Config;
use crate::llama::memory::cache_floats_checked;
#[allow(unused_imports)]
use crate::llama::memory::{activation_len, cache_len};
use crate::llama::quantize::att_dim;

verus! {

/// All mutable buffers that a forward pass reads and writes. Each is a disjoint
/// sub-slice of the arena block.
pub struct RunState<'buf, T> {
    /// Residual stream, `[dim]`.
    pub x: &'buf mut [T],
    /// Normed / attention-output scratch, `[dim]`.
    pub xb: &'buf mut [T],
    /// Second residual scratch, `[dim]`.
    pub xb2: &'buf mut [T],
    /// SwiGLU gate branch, `[hidden_dim]`.
    pub hb: &'buf mut [T],
    /// SwiGLU up branch, `[hidden_dim]`.
    pub hb2: &'buf mut [T],
    /// Query vector for the current position, `[n_heads * head_size]`.
    pub q: &'buf mut [T],
    /// Attention scores, one row of `seq_len` per head.
    pub att: &'buf mut [T],
    /// Output logits over the vocabulary.
    pub logits: &'buf mut [T],
    /// Key cache, `[n_layers, seq_len, kv_dim]`.
    pub key_cache: &'buf mut [T],
    /// Value cache, `[n_layers, seq_len, kv_dim]`.
    pub value_cache: &'buf mut [T],
}

/// Lengths of the buffers, in the order in which they are carved.
pub open spec fn state_lens(c: Config) -> Seq<nat> {
    seq![
        c.dim as nat,
        c.dim as nat,
        c.dim as nat,
        c.hidden_dim as nat,
        c.hidden_dim as nat,
        c.att_dim_spec(),
        c.n_heads as nat * c.seq_len as nat,
        c.vocab_size as nat,
        cache_len(c),
        cache_len(c),
    ]
}

impl<'buf, T: Copy + Default> RunState<'buf, T> {
    /// The buffers' contents, in the order in which they are carved.
    pub open spec fn buffers(self) -> Seq<Seq<T>> {
        seq![
            self.x@,
            self.xb@,
            self.xb2@,
            self.hb@,
            self.hb2@,
            self.q@,
            self.att@,
            self.logits@,
            self.key_cache@,
            self.value_cache@,
        ]
    }

    /// Carve every buffer out of `arena` for the given config.
    ///
    /// Buffers are carved in a fixed order, and the first that does not fit is
    /// reported as [`EngineError::ArenaOverflow`].
    pub fn new(arena: &mut Arena<'buf, T>, c: &Config) -> (r: Result<
        RunState<'buf, T>,
        EngineError,
    >)
        requires
            old(arena).wf(),
            c.n_heads > 0,
        ensures
            final(arena).wf(),
            final(arena).capacity_spec() == old(arena).capacity_spec(),
            ({
                let lens = state_lens(*c);
                let room = old(arena).tail()@.len();
                match r {
                    Ok(s) => {
                        &&& total(lens) <= room
                        &&& final(arena).used_spec() == old(arena).used_spec() + total(lens)
                        &&& forall|i: int|
                            0 <= i < 10 ==> (#[trigger] s.buffers()[i]).len() == lens[i]
                                && all_default(s.buffers()[i])
                        &&& final(old(arena).tail())@ == final(s.x)@ +
                            (final(s.xb)@ + (final(s.xb2)@ + (final(s.hb)@ + (final(s.hb2)@ +
                            (final(s.q)@ + (final(s.att)@ + (final(s.logits)@ +
                            (final(s.key_cache)@ + (final(s.value_cache)@ +
                            final(final(arena).tail())@)))))))))
                    },
                    Err(e) => {
                        &&& total(lens) > room
                        &&& carving_error::<T>(
                            e,
                            lens,
                            room,
                            final(arena).used_spec() - old(arena).used_spec(),
                        )
                    },
                }
            }),
    {
        let cache = cache_floats_checked(c);
        let ghost lens = state_lens(*c);
        let ghost room = arena.tail()@.len();
        let x = carve(arena, &CheckedUsize::new(c.dim), Ghost(lens), Ghost(0), Ghost(room))?;
        let xb = carve(arena, &CheckedUsize::new(c.dim), Ghost(lens), Ghost(1), Ghost(room))?;
        let xb2 = carve(arena, &CheckedUsize::new(c.dim), Ghost(lens), Ghost(2), Ghost(room))?;
        let hb = carve(arena, &CheckedUsize::new(c.hidden_dim), Ghost(lens), Ghost(3), Ghost(room))?;
        let hb2 = carve(arena, &CheckedUsize::new(c.hidden_dim), Ghost(lens), Ghost(4), Ghost(room))?;
        let q = carve(arena, &CheckedUsize::new(att_dim(c)), Ghost(lens), Ghost(5), Ghost(room))?;
        let att = carve(arena, &product(c.n_heads, c.seq_len), Ghost(lens), Ghost(6), Ghost(room))?;
        let logits = carve(
            arena,
            &CheckedUsize::new(c.vocab_size),
            Ghost(lens),
            Ghost(7),
            Ghost(room),
        )?;
        let key_cache = carve(arena, &cache, Ghost(lens), Ghost(8), Ghost(room))?;
        let value_cache = carve(arena, &cache, Ghost(lens), Ghost(9), Ghost(room))?;
        let s = RunState { x, xb, xb2, hb, hb2, q, att, logits, key_cache, value_cache };
        Ok(s)
    }
}

/// Carving the run state takes exactly the memory budget.
pub proof fn state_takes_the_budget(c: Config)
    ensures
        total(state_lens(c)) == activation_len(c) + 2 * cache_len(c),
{
    reveal_with_fuel(offset, 11);
}

} // verus!
