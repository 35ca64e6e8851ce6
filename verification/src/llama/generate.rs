//! Text generation with a llama2.c model: the group-size check, the seed, the kernel, and
//! the steps of the generation loop.
//!
//! Each position runs one forward pass and picks the next token: the prompt's own tokens
//! while there are any, a sampled token afterwards. Generation ends after the requested
//! number of steps, at the model's sequence length, or at the sequence delimiter.

use vstd::prelude::*;

use crate::host::error::HostError;
use crate::host::run::usage;
#[allow(unused_imports)]
use crate::llama::bpe::pieces;
use crate::llama::config::Config;
#[allow(unused_imports)]
use crate::llama::config::heads_make_up_the_dimension;
#[allow(unused_imports)]
use crate::llama::loader::groups_divide_tensors;
#[allow(unused_imports)]
use crate::llama::model::{after_layers, logits_of, state_ready, Flow};
use crate::llama::model::{forward, ModelWeights};
#[allow(unused_imports)]
use crate::llama::quantize::divides_tensors;
use crate::llama::state::RunState;
use crate::llama::tokenizer::{Vocab, BOS_ID};
#[allow(unused_imports)]
use crate::llama::tokenizer::decoded;
use crate::math::Kernel;
use crate::quant::QuantScratch;
use crate::sample::{ProbIndex, Sampler};
#[allow(unused_imports)]
use crate::sample::uniform;
use crate::scalar::Scalar;
#[allow(unused_imports)]
use crate::scalar::is_arithmetic;
use crate::text::{format_size, push_decimal};
#[allow(unused_imports)]
use crate::text::{decimal, human_size};

verus! {

/// The complaint about a dimension that groups do not divide.
pub open spec fn undivided_text(group_size: nat, name: Seq<char>, dim: nat) -> Seq<char> {
    "--group-size "@ + decimal(group_size) + " must divide "@ + name + " ("@ + decimal(dim) + ")"@
}

/// Complain about a dimension that groups do not divide.
pub(crate) fn undivided(group_size: usize, name: &str, dim: usize) -> (r: HostError)
    ensures
        r matches HostError::Usage(msg) && msg@ == undivided_text(
            group_size as nat,
            name@,
            dim as nat,
        ),
{
    let mut msg = String::new();
    msg.append("--group-size ");
    push_decimal(&mut msg, group_size as u64);
    msg.append(" must divide ");
    msg.append(name);
    msg.append(" (");
    push_decimal(&mut msg, dim as u64);
    msg.append(")");
    proof {
        assert(msg@ =~= undivided_text(group_size as nat, name@, dim as nat));
    }
    HostError::Usage(msg)
}

/// The complaint about a group size, if there is one: groups never straddle a row, so they
/// must divide the length of every row.
pub open spec fn group_size_complaint(c: Config, group_size: nat) -> Option<Seq<char>> {
    if group_size == 0 {
        Some("--group-size must be at least 1"@)
    } else if c.dim as nat % group_size != 0 {
        Some(undivided_text(group_size, "dim"@, c.dim as nat))
    } else if c.hidden_dim as nat % group_size != 0 {
        Some(undivided_text(group_size, "hidden_dim"@, c.hidden_dim as nat))
    } else if c.kv_dim_spec() % group_size != 0 {
        Some(undivided_text(group_size, "kv_dim"@, c.kv_dim_spec()))
    } else {
        None
    }
}

/// Reject a group size that does not divide the weight dimensions. One that passes divides
/// every quantized tensor.
pub fn check_group_size(c: &Config, group_size: usize) -> (r: Result<(), HostError>)
    requires
        c.valid(),
    ensures
        match r {
            Ok(()) => {
                &&& group_size_complaint(*c, group_size as nat) is None
                &&& divides_tensors(*c, group_size as nat)
            },
            Err(HostError::Usage(msg)) => group_size_complaint(*c, group_size as nat) == Some(msg@),
            Err(_) => false,
        },
{
    if group_size == 0 {
        return Err(usage("--group-size must be at least 1"));
    }
    if c.dim % group_size != 0 {
        return Err(undivided(group_size, "dim", c.dim));
    }
    if c.hidden_dim % group_size != 0 {
        return Err(undivided(group_size, "hidden_dim", c.hidden_dim));
    }
    proof {
        heads_make_up_the_dimension(*c);
    }
    let kv_dim: usize = c.kv_dim();
    if kv_dim % group_size != 0 {
        return Err(undivided(group_size, "kv_dim", kv_dim));
    }
    proof {
        groups_divide_tensors(*c, group_size as nat);
    }
    Ok(())
}

/// `rand::random::<u64>`: a number from the operating system's entropy. Nothing is known of
/// it.
#[verifier::external_body]
fn random_seed() -> (r: u64) {
    rand::random()
}

/// The sampling seed: the requested one, or one drawn at random.
pub fn resolve_seed(seed: Option<u64>) -> (r: u64)
    ensures
        seed matches Some(s) ==> r == s,
{
    match seed {
        Some(s) => s,
        None => random_seed(),
    }
}

/// Pick the kernel: the scalar one if asked for, the dot-product one if asked for and
/// available, the SIMD one otherwise. Also tells whether the dot-product kernel was asked
/// for in vain.
pub fn select_kernel(scalar: bool, dotprod: bool, available: bool) -> (r: (Kernel, bool))
    ensures
        r.0 == (if scalar {
            Kernel::Scalar
        } else if dotprod && available {
            Kernel::Dotprod
        } else {
            Kernel::Simd
        }),
        r.1 == (!scalar && dotprod && !available),
{
    if scalar {
        return (Kernel::Scalar, false);
    }
    if dotprod {
        if available {
            return (Kernel::Dotprod, false);
        }
        return (Kernel::Simd, true);
    }
    (Kernel::Simd, false)
}

/// The note on a quantization: what stays resident and what was freed.
pub open spec fn quantization_text(
    values: nat,
    scales: nat,
    freed: nat,
    group_size: nat,
) -> Seq<char> {
    "[quantized to int8 (group_size "@ + decimal(group_size) + "): "@ + human_size(
        values + scales * 4,
    ) + " weights resident ("@ + human_size(values) + " int8 + "@ + human_size(scales * 4)
        + " scales); freed the "@ + human_size(freed) + " fp32 checkpoint]"@
}

/// Note a quantization into `values` bytes and `scales` scales of a checkpoint of `freed`
/// bytes.
pub fn report_quantization(values: usize, scales: usize, freed: usize, group_size: usize) -> (r:
    String)
    requires
        values + scales * 4 <= usize::MAX,
    ensures
        r@ == quantization_text(values as nat, scales as nat, freed as nat, group_size as nat),
{
    let mut out = String::new();
    out.append("[quantized to int8 (group_size ");
    push_decimal(&mut out, group_size as u64);
    out.append("): ");
    out.append(format_size(values + scales * 4).as_str());
    out.append(" weights resident (");
    out.append(format_size(values).as_str());
    out.append(" int8 + ");
    out.append(format_size(scales * 4).as_str());
    out.append(" scales); freed the ");
    out.append(format_size(freed).as_str());
    out.append(" fp32 checkpoint]");
    proof {
        assert(out@ =~= quantization_text(
            values as nat,
            scales as nat,
            freed as nat,
            group_size as nat,
        ));
    }
    out
}

/// Where a generation stands.
#[derive(Debug)]
pub struct Generation {
    /// The prompt's tokens.
    pub prompt: Vec<usize>,
    /// Most positions to run.
    pub steps: usize,
    /// The token to feed next.
    pub token: usize,
    /// The position to run next.
    pub pos: usize,
    /// Tokens sampled so far.
    pub decoded: usize,
    /// Whether the delimiter was met.
    pub stopped: bool,
}

/// What to do after a token was picked.
#[derive(Debug, Clone, Copy, PartialEq, Eq, Structural)]
pub enum Advance {
    /// The sequence is over.
    Stop,
    /// Write out the piece of `next`, which follows `token`.
    Emit {
        /// The token before.
        token: usize,
        /// The token picked.
        next: usize,
    },
}

/// The smaller of two numbers.
pub open spec fn smaller(a: int, b: int) -> int {
    if a < b {
        a
    } else {
        b
    }
}

/// How many of the first `pos` picks were sampled: those behind the prompt.
pub open spec fn sampled(prompt: nat, pos: nat) -> int {
    if pos < prompt {
        0
    } else {
        pos - prompt + 1
    }
}

/// Where a generation stands, with what the model and the sampler carry along.
#[verifier::ext_equal]
pub struct Moment {
    /// The prompt's tokens.
    pub prompt: Seq<usize>,
    /// Most positions to run.
    pub steps: nat,
    /// The token to feed next.
    pub token: usize,
    /// The position to run next.
    pub pos: nat,
    /// Whether the delimiter was met.
    pub stopped: bool,
    /// The key cache.
    pub keys: Seq<u32>,
    /// The value cache.
    pub values: Seq<u32>,
    /// The random words to come.
    pub words: Map<nat, u32>,
}

impl Moment {
    /// Whether a generation begins here: with the prompt's first token at the first position.
    pub open spec fn begins(self) -> bool {
        self.prompt.len() > 0 && self.token == self.prompt[0] && self.pos == 0 && !self.stopped
    }

    /// Whether another step is due.
    pub open spec fn running(self) -> bool {
        !self.stopped && self.pos < self.steps
    }

    /// Whether the next token is sampled, the prompt being used up.
    pub open spec fn samples(self) -> bool {
        self.pos + 1 >= self.prompt.len()
    }
}

/// The bytes of an optional piece.
pub open spec fn bytes_in(r: Option<Vec<u8>>) -> Option<Seq<u8>> {
    match r {
        Some(piece) => Some(piece@),
        None => None,
    }
}

/// A model with its vocabulary, as a generation uses it.
pub struct Passes<'w, A> {
    /// The arithmetic.
    pub a: A,
    /// The configuration.
    pub c: Config,
    /// The weights.
    pub w: ModelWeights<'w>,
    /// The kernel.
    pub kernel: Kernel,
    /// The pieces of the vocabulary.
    pub pieces: Seq<Seq<u8>>,
}

impl<'w, A: Fn(Scalar) -> u32> Passes<'w, A> {
    /// What the layers make of the token that is fed.
    pub open spec fn flow(self, m: Moment) -> Flow {
        after_layers(
            self.a,
            self.c,
            self.w,
            self.kernel,
            m.pos as usize,
            Flow {
                x: self.w.embedding(self.a, m.token as int, self.c.dim as nat),
                keys: m.keys,
                values: m.values,
            },
            self.c.n_layers as int,
        )
    }

    /// The logits of the token that is fed.
    pub open spec fn logits(self, m: Moment) -> Seq<u32> {
        logits_of(self.a, self.c, self.w, self.kernel, self.flow(m).x)
    }

    /// Whether `next` is a pick: the prompt's next token while there is one, and otherwise
    /// what the sampler chooses from the logits with the next random word.
    pub open spec fn next_is(self, s: Sampler, m: Moment, next: usize) -> bool {
        if m.samples() {
            s.chosen(self.a, self.logits(m), uniform(self.a, m.words[0]), next)
        } else {
            next == m.prompt[m.pos as int + 1]
        }
    }

    /// Where the generation stands behind a pick. The delimiter stops it.
    pub open spec fn after(self, s: Sampler, m: Moment, next: usize) -> Moment {
        Moment {
            token: if next == BOS_ID {
                m.token
            } else {
                next
            },
            pos: m.pos + 1,
            stopped: next == BOS_ID,
            keys: self.flow(m).keys,
            values: self.flow(m).values,
            words: if m.samples() {
                s.words_left(self.a, self.logits(m), m.words)
            } else {
                m.words
            },
            ..m
        }
    }

    /// What is written out for a pick: its bytes behind the token before it, and nothing for
    /// the delimiter.
    pub open spec fn piece(self, m: Moment, next: usize) -> Option<Seq<u8>> {
        if next == BOS_ID {
            None
        } else {
            Some(decoded(self.pieces[next as int], m.token as int))
        }
    }

    /// Whether a step leads from `m` to `n` and writes `out`.
    pub open spec fn stepped(self, s: Sampler, m: Moment, n: Moment, out: Option<Seq<u8>>) -> bool {
        exists|next: usize| #[trigger]
            self.next_is(s, m, next) && n == self.after(s, m, next) && out == self.piece(m, next)
    }

    /// Whether steps lead through `moments`, from the beginning of a generation on, and write
    /// `outs`.
    pub open spec fn runs(
        self,
        s: Sampler,
        moments: Seq<Moment>,
        outs: Seq<Option<Seq<u8>>>,
    ) -> bool {
        &&& moments.len() == outs.len() + 1
        &&& moments[0].begins()
        &&& forall|i: int| 0 <= i < outs.len() ==> (#[trigger] moments[i]).running()
        &&& forall|i: int|
            0 <= i < outs.len() ==> self.stepped(
                s,
                moments[i],
                moments[i + 1],
                #[trigger] outs[i],
            )
    }
}

impl Generation {
    /// The position is within the steps, the prompt is replayed in order, and every pick
    /// behind it was sampled.
    pub open spec fn wf(self) -> bool {
        &&& self.prompt@.len() > 0
        &&& self.pos <= self.steps
        &&& self.pos < self.prompt@.len() && !self.stopped ==> self.token
            == self.prompt@[self.pos as int]
        &&& self.decoded == sampled(self.prompt@.len(), self.pos as nat)
    }

    /// Begin to generate: at the prompt's first token, for as many steps as asked for but
    /// not beyond the model's sequence length.
    pub fn new(prompt: Vec<usize>, steps: Option<usize>, seq_len: usize) -> (r: Self)
        requires
            prompt@.len() > 0,
        ensures
            r.wf(),
            r.prompt == prompt,
            r.token == prompt@[0],
            r.pos == 0,
            !r.stopped,
            r.steps <= seq_len,
            r.steps == (match steps {
                Some(n) => smaller(n as int, seq_len as int),
                None => seq_len as int,
            }),
    {
        let token: usize = prompt[0];
        let steps: usize = match steps {
            Some(n) => if n < seq_len {
                n
            } else {
                seq_len
            },
            None => seq_len,
        };
        Generation { prompt, steps, token, pos: 0, decoded: 0, stopped: false }
    }

    /// Whether another forward pass is due.
    pub fn running(&self) -> (r: bool)
        ensures
            r == (!self.stopped && self.pos < self.steps),
    {
        !self.stopped && self.pos < self.steps
    }

    /// The prompt's next token, or nothing where one has to be sampled.
    pub fn replay(&self) -> (r: Option<usize>)
        requires
            self.wf(),
            self.pos < self.steps,
        ensures
            r == (if self.pos + 1 < self.prompt@.len() {
                Some(self.prompt@[self.pos + 1])
            } else {
                None
            }),
    {
        if self.pos + 1 < self.prompt.len() {
            Some(self.prompt[self.pos + 1])
        } else {
            None
        }
    }

    /// Take in the token that was picked: the prompt's next one, or a sampled one.
    pub fn advance(&mut self, next: usize) -> (r: Advance)
        requires
            old(self).wf(),
            !old(self).stopped,
            old(self).pos < old(self).steps,
            old(self).pos + 1 < old(self).prompt@.len() ==> next == old(self).prompt@[old(self).pos
                + 1],
        ensures
            final(self).wf(),
            final(self).prompt == old(self).prompt,
            final(self).steps == old(self).steps,
            final(self).pos == old(self).pos + 1,
            final(self).stopped == (next == BOS_ID),
            final(self).token == (if next == BOS_ID {
                old(self).token
            } else {
                next
            }),
            r == (if next == BOS_ID {
                Advance::Stop
            } else {
                Advance::Emit { token: old(self).token, next }
            }),
    {
        if self.pos + 1 >= self.prompt.len() {
            self.decoded = self.decoded + 1;
        }
        self.pos = self.pos + 1;
        if next == BOS_ID {
            self.stopped = true;
            return Advance::Stop;
        }
        let token: usize = self.token;
        self.token = next;
        Advance::Emit { token, next }
    }

    /// The picks that are possible: the prompt's next token while there is one, and otherwise
    /// what the sampler chooses.
    pub open spec fn next_is<A: Fn(Scalar) -> u32>(
        self,
        a: A,
        sampler: Sampler,
        logits: Seq<u32>,
        next: usize,
    ) -> bool {
        if self.pos + 1 < self.prompt@.len() {
            next == self.prompt@[self.pos + 1]
        } else {
            sampler.chosen(a, logits, uniform(a, sampler.words()[0]), next)
        }
    }

    /// Whether every token of the prompt is one of `n`.
    pub open spec fn prompt_within(self, n: nat) -> bool {
        forall|i: int| 0 <= i < self.prompt@.len() ==> #[trigger] self.prompt@[i] < n
    }

    /// Behind a forward pass: pick the next token, and give the bytes to write out; nothing
    /// once the sequence is over.
    ///
    /// `nucleus` must be as long as the vocabulary for nucleus sampling.
    pub fn turn<A: Fn(Scalar) -> u32>(
        &mut self,
        vocab: &Vocab,
        sampler: &mut Sampler,
        logits: &[u32],
        nucleus: &mut [ProbIndex],
        a: &A,
    ) -> (r: Option<Vec<u8>>)
        requires
            is_arithmetic(*a),
            old(self).wf(),
            !old(self).stopped,
            old(self).pos < old(self).steps,
            logits@.len() > 0,
            logits@.len() == vocab.tokens@.len(),
            old(self).prompt_within(vocab.tokens@.len()),
            !old(sampler).is_greedy() && !old(sampler).is_full() ==> old(nucleus)@.len()
                >= logits@.len(),
        ensures
            final(self).wf(),
            final(self).prompt == old(self).prompt,
            final(self).steps == old(self).steps,
            final(self).pos == old(self).pos + 1,
            match r {
                Some(piece) => {
                    let next = final(self).token;
                    &&& old(self).next_is(*a, *old(sampler), logits@, next)
                    &&& next < vocab.tokens@.len()
                    &&& next != BOS_ID
                    &&& !final(self).stopped
                    &&& piece@ == decoded(
                        vocab.tokens@[next as int].bytes@,
                        old(self).token as int,
                    )
                },
                None => {
                    &&& old(self).next_is(*a, *old(sampler), logits@, BOS_ID)
                    &&& final(self).stopped
                    &&& final(self).token == old(self).token
                },
            },
            final(sampler).temperature == old(sampler).temperature,
            final(sampler).topp == old(sampler).topp,
            final(sampler).words() == (if old(self).pos + 1 < old(self).prompt@.len() {
                old(sampler).words()
            } else {
                old(sampler).words_left(*a, logits@, old(sampler).words())
            }),
            final(nucleus)@.len() == old(nucleus)@.len(),
    {
        let next: usize = match self.replay() {
            Some(next) => next,
            None => sampler.sample(logits, nucleus, a),
        };
        match self.advance(next) {
            Advance::Stop => None,
            Advance::Emit { token, next } => Some(vocab.decode(token, next)),
        }
    }

    /// Where a generation stands, with what the model and the sampler carry along.
    pub open spec fn moment(self, s: RunState<'_, u32>, sampler: Sampler) -> Moment {
        Moment {
            prompt: self.prompt@,
            steps: self.steps as nat,
            token: self.token,
            pos: self.pos as nat,
            stopped: self.stopped,
            keys: s.key_cache@,
            values: s.value_cache@,
            words: sampler.words(),
        }
    }

    /// Run one step: feed the token at its position to the model, pick the next one, and give
    /// the bytes to write out; nothing once the sequence is over.
    ///
    /// `nucleus` must be as long as the vocabulary for nucleus sampling.
    pub fn step<A: Fn(Scalar) -> u32>(
        &mut self,
        c: &Config,
        w: &ModelWeights<'_>,
        s: &mut RunState<'_, u32>,
        vocab: &Vocab,
        sampler: &mut Sampler,
        nucleus: &mut [ProbIndex],
        kernel: Kernel,
        qs: &mut Option<QuantScratch<'_, u32>>,
        a: &A,
    ) -> (r: Option<Vec<u8>>)
        requires
            is_arithmetic(*a),
            c.valid(),
            w.fits(*c),
            w.scratch_ready(*c, *old(qs)),
            state_ready(*old(s), *c),
            c.dim % 2 == 0,
            c.kv_dim_spec() % 2 == 0,
            vocab.tokens@.len() == c.vocab_size,
            old(self).wf(),
            old(self).steps <= c.seq_len,
            old(self).token < c.vocab_size,
            old(self).prompt_within(c.vocab_size as nat),
            !old(self).stopped,
            old(self).pos < old(self).steps,
            !old(sampler).is_greedy() && !old(sampler).is_full() ==> old(nucleus)@.len()
                >= c.vocab_size,
        ensures
            (Passes { a: *a, c: *c, w: *w, kernel, pieces: pieces(vocab.tokens@) }).stepped(
                *old(sampler),
                old(self).moment(*old(s), *old(sampler)),
                final(self).moment(*final(s), *final(sampler)),
                bytes_in(r),
            ),
            final(self).wf(),
            final(self).token < c.vocab_size,
            final(self).prompt == old(self).prompt,
            final(self).steps == old(self).steps,
            final(sampler).temperature == old(sampler).temperature,
            final(sampler).topp == old(sampler).topp,
            final(nucleus)@.len() == old(nucleus)@.len(),
            state_ready(*final(s), *c),
            w.scratch_ready(*c, *final(qs)),
    {
        let ghost d = Passes { a: *a, c: *c, w: *w, kernel, pieces: pieces(vocab.tokens@) };
        let ghost before = self.moment(*s, *sampler);
        forward(c, w, s, self.token, self.pos, kernel, qs, a);
        proof {
            assert(s.logits@ == d.logits(before));
        }
        let r = self.turn(vocab, sampler, s.logits, nucleus, a);
        proof {
            let next = match r {
                Some(_) => self.token,
                None => BOS_ID,
            };
            assert(d.next_is(*old(sampler), before, next));
            assert(d.piece(before, next) == bytes_in(r));
            assert(self.moment(*s, *sampler) == d.after(*old(sampler), before, next));
        }
        r
    }

    /// How many of the prompt's tokens were fed.
    pub fn prompt_tokens(&self) -> (r: usize)
        requires
            self.wf(),
        ensures
            r == smaller(self.prompt@.len() as int, self.pos as int),
    {
        if self.prompt.len() < self.pos {
            self.prompt.len()
        } else {
            self.pos
        }
    }
}

} // verus!
