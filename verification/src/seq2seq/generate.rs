//! Generation with an encoder-decoder model: the check of the source length, and the
//! decoding loop.
//!
//! The source is encoded once. Decoding begins with the padding token and feeds each picked
//! token back, until the end token is picked or the target is full.

use vstd::prelude::*;

use crate::host::error::HostError;
use crate::math::Kernel;
#[allow(unused_imports)]
use crate::order::{argmax_is_unique, is_argmax};
use crate::quant::QuantScratch;
use crate::sample::{ProbIndex, Sampler};
#[allow(unused_imports)]
use crate::sample::{equal_settings_choose_alike, uniform};
use crate::scalar::Scalar;
#[allow(unused_imports)]
use crate::scalar::is_arithmetic;
use crate::seq2seq::config::Config;
use crate::seq2seq::decoder::{decode_step, precompute_cross_kv, Flow};
#[allow(unused_imports)]
use crate::seq2seq::decoder::{best, decoder_ready, greedy, holds_keys, holds_values, stepped};
#[allow(unused_imports)]
use crate::seq2seq::matrix::room;
use crate::seq2seq::model::encode;
#[allow(unused_imports)]
use crate::seq2seq::model::{encoded, encoder_ready, scratch_ready};
use crate::seq2seq::params::ModelWeights;
#[allow(unused_imports)]
use crate::seq2seq::params::{classifier, kept_fits};
use crate::seq2seq::quantize::KeptWeights;
use crate::seq2seq::state::RunState;
use crate::text::push_decimal;
#[allow(unused_imports)]
use crate::text::decimal;

verus! {

/// The complaint about a source that is too long.
pub open spec fn too_long_text(tokens: nat, most: nat) -> Seq<char> {
    "input is "@ + decimal(tokens) + " tokens but the model's maximum source length is "@ + decimal(
        most,
    )
}

/// Reject a source that is longer than the model takes.
pub fn check_source(tokens: usize, c: &Config) -> (r: Result<(), HostError>)
    ensures
        match r {
            Ok(()) => tokens <= c.max_src,
            Err(HostError::Usage(msg)) => tokens > c.max_src && msg@ == too_long_text(
                tokens as nat,
                c.max_src as nat,
            ),
            Err(_) => false,
        },
{
    if tokens > c.max_src {
        let mut msg = String::new();
        msg.append("input is ");
        push_decimal(&mut msg, tokens as u64);
        msg.append(" tokens but the model's maximum source length is ");
        push_decimal(&mut msg, c.max_src as u64);
        proof {
            assert(msg@ =~= too_long_text(tokens as nat, c.max_src as nat));
        }
        return Err(HostError::Usage(msg));
    }
    Ok(())
}

/// A decoder with what it knows of a source.
pub struct Steps<'w, 'k, A> {
    /// The arithmetic.
    pub a: A,
    /// The configuration.
    pub c: Config,
    /// The matrices.
    pub w: ModelWeights<'w>,
    /// The biases and norms.
    pub k: KeptWeights<'k, u32>,
    /// The kernel.
    pub kernel: Kernel,
    /// Tokens of the source.
    pub src_len: nat,
    /// The keys of the source.
    pub cross_k: Seq<u32>,
    /// The values of the source.
    pub cross_v: Seq<u32>,
}

/// What a decoding carries from step to step.
#[verifier::ext_equal]
pub struct Walk {
    /// The key cache.
    pub keys: Seq<u32>,
    /// The value cache.
    pub values: Seq<u32>,
    /// The random words to come.
    pub words: Map<nat, u32>,
}

impl<'w, 'k, A: Fn(Scalar) -> u32> Steps<'w, 'k, A> {
    /// One step of the decoder.
    pub open spec fn step(self, token: int, pos: int, keys: Seq<u32>, values: Seq<u32>) -> Flow {
        stepped(
            self.a,
            self.c,
            self.w,
            self.k,
            self.kernel,
            token,
            pos,
            self.src_len,
            self.cross_k,
            self.cross_v,
            keys,
            values,
        )
    }

    /// The logits behind a step.
    pub open spec fn logits(self, f: Flow) -> Seq<u32> {
        classifier(self.w, self.k, self.c).made(self.a, self.kernel, f.x)
    }

    /// What greedy decoding gives from a step on.
    pub open spec fn greedy_rest(
        self,
        token: int,
        pos: int,
        keys: Seq<u32>,
        values: Seq<u32>,
        most: int,
    ) -> Seq<usize> {
        greedy(
            self.a,
            self.c,
            self.w,
            self.k,
            self.kernel,
            self.src_len,
            self.cross_k,
            self.cross_v,
            token,
            pos,
            keys,
            values,
            most,
        )
    }

    /// The token that step `i` is fed: the one picked before it, and the padding token first.
    pub open spec fn fed(self, ids: Seq<usize>, i: int) -> int {
        if i <= 0 {
            self.c.pad_id as int
        } else {
            ids[i - 1] as int
        }
    }

    /// Step `i` of a decoding that carries `before` into it.
    pub open spec fn step_from(self, before: Walk, ids: Seq<usize>, i: int) -> Flow {
        self.step(self.fed(ids, i), i, before.keys, before.values)
    }

    /// What a decoding that picked `ids` carries into step `n`.
    pub open spec fn walked(self, s: Sampler, start: Walk, ids: Seq<usize>, n: int) -> Walk
        decreases n,
    {
        if n <= 0 {
            start
        } else {
            let before = self.walked(s, start, ids, n - 1);
            let f = self.step_from(before, ids, n - 1);
            Walk {
                keys: f.keys,
                values: f.values,
                words: s.words_left(self.a, self.logits(f), before.words),
            }
        }
    }

    /// Whether `next` is a pick of step `i`, behind a decoding that picked `ids`.
    pub open spec fn picked(
        self,
        s: Sampler,
        start: Walk,
        ids: Seq<usize>,
        i: int,
        next: usize,
    ) -> bool {
        let before = self.walked(s, start, ids, i);
        s.chosen(
            self.a,
            self.logits(self.step_from(before, ids, i)),
            uniform(self.a, before.words[0]),
            next,
        )
    }

    /// Whether `ids` are the tokens of a decoding: each is a pick of its step and not the end
    /// token, and if they are fewer than fit, the end token is a pick behind them.
    pub open spec fn generated(self, s: Sampler, start: Walk, ids: Seq<usize>, most: int) -> bool {
        &&& ids.len() <= most
        &&& forall|i: int|
            0 <= i < ids.len() ==> #[trigger] ids[i] != self.c.eos_id && self.picked(
                s,
                start,
                ids,
                i,
                ids[i],
            )
        &&& ids.len() < most ==> self.picked(s, start, ids, ids.len() as int, self.c.eos_id)
    }
}

/// What a decoding carries into a step rests on the tokens picked before it.
proof fn walked_rests_on_the_past<A: Fn(Scalar) -> u32>(
    d: Steps<'_, '_, A>,
    s: Sampler,
    start: Walk,
    ids: Seq<usize>,
    more: Seq<usize>,
    n: int,
)
    requires
        n <= ids.len(),
        n <= more.len(),
        forall|i: int| 0 <= i < n - 1 ==> ids[i] == more[i],
    ensures
        d.walked(s, start, ids, n) == d.walked(s, start, more, n),
    decreases n,
{
    if n > 0 {
        walked_rests_on_the_past(d, s, start, ids, more, n - 1);
    }
}

/// Run one decoder step and sample a token; the state stays ready for `most` tokens.
fn sampled_next<A: Fn(Scalar) -> u32>(
    c: &Config,
    w: &ModelWeights<'_>,
    k: &KeptWeights<'_, u32>,
    s: &mut RunState<'_, u32>,
    token: usize,
    pos: usize,
    most: usize,
    src_len: usize,
    sampler: &mut Sampler,
    nucleus: &mut [ProbIndex],
    kernel: Kernel,
    qs: &mut Option<QuantScratch<'_, u32>>,
    a: &A,
) -> (r: usize)
    requires
        is_arithmetic(*a),
        c.valid(),
        !c.norm_before,
        w.fits(*c),
        kept_fits(*k, *c),
        scratch_ready(*w, *c, room(*old(qs))),
        pos < most,
        decoder_ready(*old(s), *c, (most - 1) as nat, src_len as nat),
        src_len > 0,
        token < c.vocab_size,
        !old(sampler).is_greedy() && !old(sampler).is_full() ==> old(nucleus)@.len()
            >= c.vocab_size,
    ensures
        decoder_ready(*final(s), *c, (most - 1) as nat, src_len as nat),
        ({
            let f = stepped(
                *a,
                *c,
                *w,
                *k,
                kernel,
                token as int,
                pos as int,
                src_len as nat,
                old(s).cross_k@,
                old(s).cross_v@,
                old(s).self_k@,
                old(s).self_v@,
            );
            let logits = classifier(*w, *k, *c).made(*a, kernel, f.x);
            &&& old(sampler).chosen(*a, logits, uniform(*a, old(sampler).words()[0]), r)
            &&& final(sampler).words() == old(sampler).words_left(
                *a,
                logits,
                old(sampler).words(),
            )
            &&& final(s).self_k@ == f.keys
            &&& final(s).self_v@ == f.values
        }),
        r < c.vocab_size,
        final(sampler).temperature == old(sampler).temperature,
        final(sampler).topp == old(sampler).topp,
        final(nucleus)@.len() == old(nucleus)@.len(),
        final(s).cross_k@ == old(s).cross_k@,
        final(s).cross_v@ == old(s).cross_v@,
        room(*final(qs)) == room(*old(qs)),
{
    proof {
        let d = c.d_model as nat;
        assert((pos + 1) * d <= most * d) by (nonlinear_arith)
            requires
                pos + 1 <= most,
                d >= 0,
        ;
    }
    decode_step(c, w, k, s, token, pos, src_len, kernel, qs, a);
    sampler.sample(s.logits, nucleus, a)
}

/// Generate the target of a source: run the encoder, project its output for the
/// cross-attention, and sample a token each time, from the padding token on, until the end
/// token comes or the target is full.
///
/// `nucleus` must be as long as the vocabulary for nucleus sampling.
pub fn generate<A: Fn(Scalar) -> u32>(
    c: &Config,
    w: &ModelWeights<'_>,
    k: &KeptWeights<'_, u32>,
    s: &mut RunState<'_, u32>,
    tokens: &[usize],
    sampler: &mut Sampler,
    nucleus: &mut [ProbIndex],
    kernel: Kernel,
    qs: &mut Option<QuantScratch<'_, u32>>,
    a: &A,
) -> (r: Vec<usize>)
    requires
        is_arithmetic(*a),
        c.valid(),
        !c.norm_before,
        w.fits(*c),
        kept_fits(*k, *c),
        scratch_ready(*w, *c, room(*old(qs))),
        tokens@.len() > 0,
        forall|t: int| 0 <= t < tokens@.len() ==> #[trigger] tokens@[t] < c.vocab_size,
        encoder_ready(*old(s), *c, tokens@.len()),
        decoder_ready(*old(s), *c, (c.max_tgt - 1) as nat, tokens@.len()),
        !old(sampler).is_greedy() && !old(sampler).is_full() ==> old(nucleus)@.len()
            >= c.vocab_size,
    ensures
        ({
            let source = encoded(*a, *c, *w, *k, kernel, tokens@);
            let layers = c.dec_layers as int;
            let steps = Steps {
                a: *a,
                c: *c,
                w: *w,
                k: *k,
                kernel,
                src_len: tokens@.len(),
                cross_k: final(s).cross_k@,
                cross_v: final(s).cross_v@,
            };
            let start = Walk {
                keys: old(s).self_k@,
                values: old(s).self_v@,
                words: old(sampler).words(),
            };
            &&& holds_keys(*a, *c, *w, *k, kernel, source, final(s).cross_k@, layers)
            &&& holds_values(*a, *c, *w, *k, kernel, source, final(s).cross_v@, layers)
            &&& steps.generated(*old(sampler), start, r@, c.max_tgt as int)
        }),
        final(sampler).temperature == old(sampler).temperature,
        final(sampler).topp == old(sampler).topp,
        room(*final(qs)) == room(*old(qs)),
{
    let src_len: usize = tokens.len();
    let most: usize = c.max_tgt;
    encode(c, w, k, s, tokens, kernel, qs, a);
    precompute_cross_kv(c, w, k, s, src_len, kernel, qs, a);
    let ghost steps = Steps {
        a: *a,
        c: *c,
        w: *w,
        k: *k,
        kernel,
        src_len: src_len as nat,
        cross_k: s.cross_k@,
        cross_v: s.cross_v@,
    };
    let ghost first = *sampler;
    let ghost start = Walk { keys: s.self_k@, values: s.self_v@, words: sampler.words() };
    let mut ids: Vec<usize> = Vec::new();
    let mut token: usize = c.decoder_start_id();
    let mut ended: bool = false;
    while !ended && ids.len() < most
        invariant
            ids@.len() <= most,
            most == c.max_tgt,
            src_len == tokens@.len(),
            src_len > 0,
            is_arithmetic(*a),
            c.valid(),
            !c.norm_before,
            w.fits(*c),
            kept_fits(*k, *c),
            scratch_ready(*w, *c, room(*qs)),
            room(*qs) == room(*old(qs)),
            decoder_ready(*s, *c, (most - 1) as nat, src_len as nat),
            token < c.vocab_size,
            token == steps.fed(ids@, ids@.len() as int),
            sampler.temperature == first.temperature,
            sampler.topp == first.topp,
            !first.is_greedy() && !first.is_full() ==> nucleus@.len() >= c.vocab_size,
            steps == (Steps {
                a: *a,
                c: *c,
                w: *w,
                k: *k,
                kernel,
                src_len: src_len as nat,
                cross_k: s.cross_k@,
                cross_v: s.cross_v@,
            }),
            !ended ==> steps.walked(first, start, ids@, ids@.len() as int) == (Walk {
                keys: s.self_k@,
                values: s.self_v@,
                words: sampler.words(),
            }),
            forall|i: int|
                0 <= i < ids@.len() ==> #[trigger] ids@[i] != c.eos_id && steps.picked(
                    first,
                    start,
                    ids@,
                    i,
                    ids@[i],
                ),
            ended ==> steps.picked(first, start, ids@, ids@.len() as int, c.eos_id),
        decreases most - ids@.len() + if ended {
            0int
        } else {
            1int
        },
    {
        let n: usize = ids.len();
        let ghost past = ids@;
        let ghost before = steps.walked(first, start, past, n as int);
        let ghost used = *sampler;
        let next: usize = sampled_next(
            c,
            w,
            k,
            s,
            token,
            n,
            most,
            src_len,
            sampler,
            nucleus,
            kernel,
            qs,
            a,
        );
        proof {
            let f = steps.step_from(before, past, n as int);
            equal_settings_choose_alike(
                used,
                first,
                *a,
                steps.logits(f),
                uniform(*a, before.words[0]),
                next,
            );
            assert(steps.picked(first, start, past, n as int, next));
        }
        if next == c.eos_id {
            ended = true;
        } else {
            ids.push(next);
            token = next;
            proof {
                let more = ids@;
                assert forall|i: int| 0 <= i < more.len() implies #[trigger] more[i] != c.eos_id
                    && steps.picked(first, start, more, i, more[i]) by {
                    walked_rests_on_the_past(steps, first, start, past, more, i);
                    assert(i < n ==> more[i] == past[i]);
                    assert(steps.fed(past, i) == steps.fed(more, i));
                }
                walked_rests_on_the_past(steps, first, start, past, more, n as int);
                assert(steps.fed(past, n as int) == steps.fed(more, n as int));
            }
        }
    }
    ids
}

/// Whether `ids` are the tokens of a decoding by a greedy sampler.
#[verifier::opaque]
spec fn greedily_generated<A: Fn(Scalar) -> u32>(
    d: Steps<'_, '_, A>,
    s: Sampler,
    start: Walk,
    ids: Seq<usize>,
    most: int,
) -> bool {
    s.is_greedy() && d.generated(s, start, ids, most)
}

/// What greedy decoding gives from step `i` on, behind a decoding that picked `ids`.
#[verifier::opaque]
spec fn greedy_behind<A: Fn(Scalar) -> u32>(
    d: Steps<'_, '_, A>,
    s: Sampler,
    start: Walk,
    ids: Seq<usize>,
    most: int,
    i: int,
) -> Seq<usize> {
    let before = d.walked(s, start, ids, i);
    d.greedy_rest(d.fed(ids, i), i, before.keys, before.values, most)
}

/// Greedy decoding picks the tokens of a greedy sampler, and the end token behind them.
proof fn greedy_takes<A: Fn(Scalar) -> u32>(
    d: Steps<'_, '_, A>,
    s: Sampler,
    start: Walk,
    ids: Seq<usize>,
    most: int,
    i: int,
)
    requires
        greedily_generated(d, s, start, ids, most),
        0 <= i <= ids.len(),
    ensures
        greedy_behind(d, s, start, ids, most, i) == (if i < ids.len() {
            seq![ids[i]] + greedy_behind(d, s, start, ids, most, i + 1)
        } else {
            Seq::empty()
        }),
{
    reveal(greedily_generated);
    reveal(greedy_behind);
    if i < most {
        let before = d.walked(s, start, ids, i);
        let f = d.step_from(before, ids, i);
        let next = if i < ids.len() {
            ids[i]
        } else {
            d.c.eos_id
        };
        assert(d.picked(s, start, ids, i, next));
        best_is_the_maximum(d.logits(f), next);
    }
}

/// The best token is the place of the maximum.
proof fn best_is_the_maximum(logits: Seq<u32>, next: usize)
    requires
        is_argmax(logits, next as int),
    ensures
        best(logits) == next,
{
    argmax_is_unique(logits, next as int, choose|j: int| is_argmax(logits, j));
}

/// From step `i` on, the tokens of a greedy sampler are those of greedy decoding.
proof fn greedy_from<A: Fn(Scalar) -> u32>(
    d: Steps<'_, '_, A>,
    s: Sampler,
    start: Walk,
    ids: Seq<usize>,
    most: int,
    i: int,
)
    requires
        greedily_generated(d, s, start, ids, most),
        0 <= i <= ids.len(),
    ensures
        ids.skip(i) == greedy_behind(d, s, start, ids, most, i),
    decreases ids.len() - i,
{
    greedy_takes(d, s, start, ids, most, i);
    if i < ids.len() {
        greedy_from(d, s, start, ids, most, i + 1);
        assert(ids.skip(i) =~= seq![ids[i]] + ids.skip(i + 1));
    } else {
        assert(ids.skip(i) =~= Seq::<usize>::empty());
    }
}

/// At temperature zero, generation gives the tokens of greedy decoding.
pub proof fn greedy_sampling_is_greedy_decoding<A: Fn(Scalar) -> u32>(
    d: Steps<'_, '_, A>,
    s: Sampler,
    start: Walk,
    ids: Seq<usize>,
    most: int,
)
    requires
        s.is_greedy(),
        d.generated(s, start, ids, most),
    ensures
        ids == d.greedy_rest(d.c.pad_id as int, 0, start.keys, start.values, most),
{
    reveal(greedily_generated);
    reveal(greedy_behind);
    greedy_from(d, s, start, ids, most, 0);
    assert(ids.skip(0) =~= ids);
}

} // verus!
