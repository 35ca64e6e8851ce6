//! Working buffers for a seq2seq run, carved from the [`Arena`] once.

use vstd::arithmetic::overflow::CheckedUsize;
use vstd::prelude::*;

use crate::arena::{carve, Arena};
#[allow(unused_imports)]
use crate::arena::{all_default, carving_error};
use crate::error::EngineError;
use crate::layout::{product, product3};
#[allow(unused_imports)]
use crate::layout::{offset, total};
use crate::seq2seq::config::Config;
use crate::seq2seq::memory::max_of;
#[allow(unused_imports)]
use crate::seq2seq::memory::{arena_len, larger};

verus! {

/// Every mutable buffer that the encoder and decoder passes use. Each is a disjoint
/// sub-slice of the arena block.
pub struct RunState<'buf, T> {
    /// Encoder residual stream, which ends as the encoder output, `[src_len, d]`.
    pub enc_x: &'buf mut [T],
    /// Sublayer outputs, `[src_len, d]`.
    pub enc_sub: &'buf mut [T],
    /// One encoder layer's keys, `[src_len, d]`.
    pub enc_k: &'buf mut [T],
    /// One encoder layer's values, `[src_len, d]`.
    pub enc_v: &'buf mut [T],
    /// Attention scores of one query position, `[src_len]`.
    pub enc_scores: &'buf mut [T],
    /// Cross-attention keys, `[dec_layers, src_len, d]`.
    pub cross_k: &'buf mut [T],
    /// Cross-attention values, `[dec_layers, src_len, d]`.
    pub cross_v: &'buf mut [T],
    /// Decoder self-attention keys, `[dec_layers, tgt_len, d]`.
    pub self_k: &'buf mut [T],
    /// Decoder self-attention values, `[dec_layers, tgt_len, d]`.
    pub self_v: &'buf mut [T],
    /// Decoder residual stream, `[d]`.
    pub x: &'buf mut [T],
    /// Query of the current position, `[d]`.
    pub q: &'buf mut [T],
    /// Attention output before its projection, `[d]`.
    pub attn: &'buf mut [T],
    /// Norm and position scratch, `[d]`.
    pub norm: &'buf mut [T],
    /// Feed-forward hidden buffer, as wide as the wider stack.
    pub ffn: &'buf mut [T],
    /// Decoder attention scores, a row over the longer sequence per head.
    pub scores: &'buf mut [T],
    /// Output logits, `[vocab]`.
    pub logits: &'buf mut [T],
}

/// Lengths of the buffers, in the order in which they are carved.
pub open spec fn state_lens(c: Config, src_len: usize, tgt_len: usize) -> Seq<nat> {
    let d = c.d_model as nat;
    let ld = c.dec_layers as nat;
    let src = src_len as nat;
    let tgt = tgt_len as nat;
    seq![
        src * d,
        src * d,
        src * d,
        src * d,
        src,
        ld * src * d,
        ld * src * d,
        ld * tgt * d,
        ld * tgt * d,
        d,
        d,
        d,
        d,
        larger(c.enc_ffn, c.dec_ffn),
        c.dec_heads as nat * larger(src_len, tgt_len),
        c.vocab_size as nat,
    ]
}

impl<'buf, T: Copy + Default> RunState<'buf, T> {
    /// The buffers' contents, in the order in which they are carved.
    pub open spec fn buffers(self) -> Seq<Seq<T>> {
        seq![
            self.enc_x@,
            self.enc_sub@,
            self.enc_k@,
            self.enc_v@,
            self.enc_scores@,
            self.cross_k@,
            self.cross_v@,
            self.self_k@,
            self.self_v@,
            self.x@,
            self.q@,
            self.attn@,
            self.norm@,
            self.ffn@,
            self.scores@,
            self.logits@,
        ]
    }

    /// Carve every buffer out of `arena` for a run of up to `src_len` source and `tgt_len`
    /// target tokens.
    ///
    /// Buffers are carved in a fixed order, and the first that does not fit is reported
    /// as [`EngineError::ArenaOverflow`]. With no target tokens the decoder caches are
    /// empty.
    #[verifier::rlimit(40)]
    pub fn new(arena: &mut Arena<'buf, T>, c: &Config, src_len: usize, tgt_len: usize) -> (r:
        Result<RunState<'buf, T>, EngineError>)
        requires
            old(arena).wf(),
        ensures
            final(arena).wf(),
            final(arena).capacity_spec() == old(arena).capacity_spec(),
            ({
                let lens = state_lens(*c, src_len, tgt_len);
                let room = old(arena).tail()@.len();
                match r {
                    Ok(s) => {
                        &&& total(lens) <= room
                        &&& final(arena).used_spec() == old(arena).used_spec() + total(lens)
                        &&& forall|i: int|
                            0 <= i < 16 ==> (#[trigger] s.buffers()[i]).len() == lens[i]
                                && all_default(s.buffers()[i])
                        &&& final(old(arena).tail())@ == final(s.enc_x)@ + (final(s.enc_sub)@ +
                            (final(s.enc_k)@ + (final(s.enc_v)@ + (final(s.enc_scores)@ +
                            (final(s.cross_k)@ + (final(s.cross_v)@ + (final(s.self_k)@ +
                            (final(s.self_v)@ + (final(s.x)@ + (final(s.q)@ + (final(s.attn)@ +
                            (final(s.norm)@ + (final(s.ffn)@ + (final(s.scores)@ +
                            (final(s.logits)@ + final(final(arena).tail())@)))))))))))))))
                    },
                    Err(e) => {
                        &&& total(lens) > room
                        &&& carving_error::<T>(
                            e,
                            lens,
                            room,
                            final(arena).used_spec() - old(arena).used_spec(),
                        )
                    },
                }
            }),
    {
        let ghost lens = state_lens(*c, src_len, tgt_len);
        let ghost room = arena.tail()@.len();
        let enc_x = carve(
            arena,
            &product(src_len, c.d_model),
            Ghost(lens),
            Ghost(0),
            Ghost(room),
        )?;
        let enc_sub = carve(
            arena,
            &product(src_len, c.d_model),
            Ghost(lens),
            Ghost(1),
            Ghost(room),
        )?;
        let enc_k = carve(
            arena,
            &product(src_len, c.d_model),
            Ghost(lens),
            Ghost(2),
            Ghost(room),
        )?;
        let enc_v = carve(
            arena,
            &product(src_len, c.d_model),
            Ghost(lens),
            Ghost(3),
            Ghost(room),
        )?;
        let enc_scores = carve(
            arena,
            &CheckedUsize::new(src_len),
            Ghost(lens),
            Ghost(4),
            Ghost(room),
        )?;
        let cross_k = carve(
            arena,
            &product3(c.dec_layers, src_len, c.d_model),
            Ghost(lens),
            Ghost(5),
            Ghost(room),
        )?;
        let cross_v = carve(
            arena,
            &product3(c.dec_layers, src_len, c.d_model),
            Ghost(lens),
            Ghost(6),
            Ghost(room),
        )?;
        let self_k = carve(
            arena,
            &product3(c.dec_layers, tgt_len, c.d_model),
            Ghost(lens),
            Ghost(7),
            Ghost(room),
        )?;
        let self_v = carve(
            arena,
            &product3(c.dec_layers, tgt_len, c.d_model),
            Ghost(lens),
            Ghost(8),
            Ghost(room),
        )?;
        let x = carve(
            arena,
            &CheckedUsize::new(c.d_model),
            Ghost(lens),
            Ghost(9),
            Ghost(room),
        )?;
        let q = carve(
            arena,
            &CheckedUsize::new(c.d_model),
            Ghost(lens),
            Ghost(10),
            Ghost(room),
        )?;
        let attn = carve(
            arena,
            &CheckedUsize::new(c.d_model),
            Ghost(lens),
            Ghost(11),
            Ghost(room),
        )?;
        let norm = carve(
            arena,
            &CheckedUsize::new(c.d_model),
            Ghost(lens),
            Ghost(12),
            Ghost(room),
        )?;
        let ffn = carve(
            arena,
            &CheckedUsize::new(max_of(c.enc_ffn, c.dec_ffn)),
            Ghost(lens),
            Ghost(13),
            Ghost(room),
        )?;
        let scores = carve(
            arena,
            &product(c.dec_heads, max_of(src_len, tgt_len)),
            Ghost(lens),
            Ghost(14),
            Ghost(room),
        )?;
        let logits = carve(
            arena,
            &CheckedUsize::new(c.vocab_size),
            Ghost(lens),
            Ghost(15),
            Ghost(room),
        )?;
        Ok(
            RunState {
                enc_x,
                enc_sub,
                enc_k,
                enc_v,
                enc_scores,
                cross_k,
                cross_v,
                self_k,
                self_v,
                x,
                q,
                attn,
                norm,
                ffn,
                scores,
                logits,
            },
        )
    }
}

/// Carving the run state takes exactly the memory budget.
pub proof fn state_takes_the_budget(c: Config, src_len: usize, tgt_len: usize)
    ensures
        total(state_lens(c, src_len, tgt_len)) == arena_len(c, src_len, tgt_len),
{
    reveal_with_fuel(offset, 17);
}

} // verus!
