//! What a whole generation promises: it writes the prompt first, ends in time and at the
//! delimiter, and is fixed by its prompt, its weights, its settings and its seed.

use vstd::prelude::*;
use vstd::utf8::encode_utf8;

use crate::llama::bpe::encoded;
use crate::llama::bpe_laws::{
    decoded_stream, decoding_gives_the_text_back, expressible, special_tokens_apart,
};
use crate::llama::generate::{sampled, Moment, Passes};
use crate::llama::model::{after_layers, logits_of, Flow};
use crate::llama::model_laws::quantized_kernels_agree;
use crate::llama::tokenizer::{decoded, BOS_ID};
use crate::sample::{
    all_differ, equal_draws_choose_equal_tokens, equal_settings_choose_alike, uniform, words_after,
    Sampler,
};
use crate::scalar::Scalar;

verus! {

/// A step from where a run stands leads the run on, whatever random words the sampler has
/// given so far.
pub proof fn a_step_leads_a_run_on<A: Fn(Scalar) -> u32>(
    d: Passes<'_, A>,
    s: Sampler,
    t: Sampler,
    moments: Seq<Moment>,
    outs: Seq<Option<Seq<u8>>>,
    n: Moment,
    out: Option<Seq<u8>>,
)
    requires
        d.runs(s, moments, outs),
        moments.last().running(),
        t.temperature == s.temperature,
        t.topp == s.topp,
        d.stepped(t, moments.last(), n, out),
    ensures
        d.runs(s, moments.push(n), outs.push(out)),
{
    let m = moments.last();
    let more = moments.push(n);
    let longer = outs.push(out);
    let next = choose|next: usize| #[trigger]
        d.next_is(t, m, next) && n == d.after(t, m, next) && out == d.piece(m, next);
    equal_settings_choose_alike(t, s, d.a, d.logits(m), uniform(d.a, m.words[0]), next);
    assert(d.next_is(s, m, next));
    assert forall|i: int| 0 <= i < longer.len() implies d.stepped(
        s,
        more[i],
        more[i + 1],
        #[trigger] longer[i],
    ) by {
        if i < outs.len() {
            assert(longer[i] == outs[i]);
        }
    }
}

/// What stays over a run: the prompt and the number of steps stay, the position counts the
/// steps, and the prompt's tokens are fed in order while none of them stops the run.
proof fn moment_of_a_run<A: Fn(Scalar) -> u32>(
    d: Passes<'_, A>,
    s: Sampler,
    moments: Seq<Moment>,
    outs: Seq<Option<Seq<u8>>>,
    i: int,
)
    requires
        d.runs(s, moments, outs),
        0 <= i < moments.len(),
    ensures
        moments[i].prompt == moments[0].prompt,
        moments[i].steps == moments[0].steps,
        moments[i].pos == i,
        i < moments[0].prompt.len() && !moments[i].stopped ==> moments[i].token
            == moments[0].prompt[i],
        i < moments[0].prompt.len() ==> moments[i].words == moments[0].words,
    decreases i,
{
    if i > 0 {
        moment_of_a_run(d, s, moments, outs, i - 1);
        assert(d.stepped(s, moments[i - 1], moments[i], outs[i - 1]));
    }
}

/// A run takes at most as many steps as asked for. Nothing is written behind the delimiter:
/// a step that writes nothing is the last. A run that is over has taken all its steps or has
/// met the delimiter.
pub proof fn a_run_ends<A: Fn(Scalar) -> u32>(
    d: Passes<'_, A>,
    s: Sampler,
    moments: Seq<Moment>,
    outs: Seq<Option<Seq<u8>>>,
)
    requires
        d.runs(s, moments, outs),
    ensures
        outs.len() <= moments[0].steps,
        forall|i: int| 0 <= i < outs.len() && #[trigger] outs[i] is None ==> i == outs.len() - 1,
        !moments.last().running() ==> outs.len() == moments[0].steps || outs.len() > 0
            && outs.last() is None,
{
    let n = outs.len() as int;
    moment_of_a_run(d, s, moments, outs, n);
    if n > 0 {
        moment_of_a_run(d, s, moments, outs, n - 1);
        assert(d.stepped(s, moments[n - 1], moments[n], outs[n - 1]));
    }
    assert forall|i: int| 0 <= i < outs.len() && #[trigger] outs[i] is None implies i == outs.len()
        - 1 by {
        assert(d.stepped(s, moments[i], moments[i + 1], outs[i]));
        if i < n - 1 {
            assert(moments[i + 1].running());
        }
    }
}

/// While there is more of the prompt, a step feeds the prompt's token at its position, draws
/// nothing, and writes the piece of the prompt's next token.
pub proof fn the_prompt_comes_first<A: Fn(Scalar) -> u32>(
    d: Passes<'_, A>,
    s: Sampler,
    moments: Seq<Moment>,
    outs: Seq<Option<Seq<u8>>>,
    i: int,
)
    requires
        d.runs(s, moments, outs),
        0 <= i < outs.len(),
        i + 1 < moments[0].prompt.len(),
    ensures
        ({
            let prompt = moments[0].prompt;
            &&& moments[i].token == prompt[i]
            &&& moments[i + 1].words == moments[0].words
            &&& outs[i] == (if prompt[i + 1] == BOS_ID {
                None
            } else {
                Some(decoded(d.pieces[prompt[i + 1] as int], prompt[i] as int))
            })
        }),
{
    moment_of_a_run(d, s, moments, outs, i);
    moment_of_a_run(d, s, moments, outs, i + 1);
    assert(d.stepped(s, moments[i], moments[i + 1], outs[i]));
}

/// The first `n` pieces that were written, back to back.
pub open spec fn written_out(outs: Seq<Option<Seq<u8>>>, n: int) -> Seq<u8>
    decreases n,
{
    if n <= 0 {
        Seq::empty()
    } else {
        written_out(outs, n - 1) + match outs[n - 1] {
            Some(piece) => piece,
            None => Seq::empty(),
        }
    }
}

/// What a run writes first is its prompt, decoded.
pub proof fn a_run_writes_its_prompt<A: Fn(Scalar) -> u32>(
    d: Passes<'_, A>,
    s: Sampler,
    moments: Seq<Moment>,
    outs: Seq<Option<Seq<u8>>>,
    n: int,
)
    requires
        d.runs(s, moments, outs),
        0 <= n <= outs.len(),
        n < moments[0].prompt.len(),
        forall|i: int| 0 <= i < n ==> #[trigger] moments[0].prompt[i + 1] != BOS_ID,
    ensures
        written_out(outs, n) == decoded_stream(d.pieces, moments[0].prompt.take(n + 1)),
    decreases n,
{
    let prompt = moments[0].prompt;
    if n > 0 {
        a_run_writes_its_prompt(d, s, moments, outs, n - 1);
        the_prompt_comes_first(d, s, moments, outs, n - 1);
        assert(prompt[n - 1 + 1] != BOS_ID);
        assert(prompt.take(n + 1).drop_last() =~= prompt.take(n));
    }
}

/// A run whose prompt is an encoded text writes the text first, byte for byte, if it goes on
/// beyond the prompt; the special tokens must keep to themselves and the vocabulary must be
/// able to express the text.
pub proof fn a_run_continues_its_text<A: Fn(Scalar) -> u32>(
    d: Passes<'_, A>,
    s: Sampler,
    moments: Seq<Moment>,
    outs: Seq<Option<Seq<u8>>>,
    scores: Seq<u32>,
    text: Seq<char>,
)
    requires
        d.runs(s, moments, outs),
        BOS_ID < d.pieces.len() <= usize::MAX,
        special_tokens_apart(d.pieces),
        expressible(d.pieces, text),
        moments[0].prompt == encoded(d.pieces, scores, text, true),
        moments[0].prompt.len() <= outs.len() + 1,
    ensures
        written_out(outs, moments[0].prompt.len() - 1) == encode_utf8(text),
{
    let prompt = moments[0].prompt;
    decoding_gives_the_text_back(d.pieces, scores, text);
    a_run_writes_its_prompt(d, s, moments, outs, prompt.len() - 1);
    assert(prompt.take(prompt.len() as int) =~= prompt);
}

/// Whether the token at a moment is fixed: it is the prompt's, or the sampler is greedy or
/// draws from all tokens, or no two candidates of the nucleus are equally probable.
pub open spec fn fixed<A: Fn(Scalar) -> u32>(d: Passes<'_, A>, s: Sampler, m: Moment) -> bool {
    !m.samples() || s.is_greedy() || s.is_full() || all_differ(s.candidates(d.a, d.logits(m)))
}

/// A step whose token is fixed leads to one moment and writes one piece.
proof fn one_step<A: Fn(Scalar) -> u32>(
    d: Passes<'_, A>,
    s: Sampler,
    t: Sampler,
    m: Moment,
    x: Moment,
    p: Option<Seq<u8>>,
    y: Moment,
    q: Option<Seq<u8>>,
)
    requires
        s.temperature == t.temperature,
        s.topp == t.topp,
        d.stepped(s, m, x, p),
        d.stepped(t, m, y, q),
        fixed(d, s, m),
    ensures
        x == y,
        p == q,
{
    let i = choose|next: usize| #[trigger]
        d.next_is(s, m, next) && x == d.after(s, m, next) && p == d.piece(m, next);
    let j = choose|next: usize| #[trigger]
        d.next_is(t, m, next) && y == d.after(t, m, next) && q == d.piece(m, next);
    let draw = uniform(d.a, m.words[0]);
    equal_settings_choose_alike(s, t, d.a, d.logits(m), draw, i);
    if m.samples() {
        equal_draws_choose_equal_tokens(s, t, d.a, d.logits(m), draw, i, j);
    }
}

/// Runs from equal beginnings with equal settings go through the same moments, as far as both
/// go, if the tokens are fixed.
proof fn runs_go_together<A: Fn(Scalar) -> u32>(
    d: Passes<'_, A>,
    s: Sampler,
    t: Sampler,
    moments: Seq<Moment>,
    outs: Seq<Option<Seq<u8>>>,
    others: Seq<Moment>,
    writes: Seq<Option<Seq<u8>>>,
    i: int,
)
    requires
        s.temperature == t.temperature,
        s.topp == t.topp,
        d.runs(s, moments, outs),
        d.runs(t, others, writes),
        moments[0] == others[0],
        forall|k: int| 0 <= k < outs.len() ==> fixed(d, s, #[trigger] moments[k]),
        0 <= i <= outs.len(),
        i <= writes.len(),
    ensures
        moments[i] == others[i],
        forall|k: int| 0 <= k < i ==> #[trigger] outs[k] == writes[k],
    decreases i,
{
    if i > 0 {
        runs_go_together(d, s, t, moments, outs, others, writes, i - 1);
        let m = moments[i - 1];
        assert(d.stepped(s, m, moments[i], outs[i - 1]));
        assert(d.stepped(t, others[i - 1], others[i], writes[i - 1]));
        one_step(d, s, t, m, moments[i], outs[i - 1], others[i], writes[i - 1]);
    }
}

/// A generation is reproducible: two runs to the end, from equal beginnings (the same prompt,
/// the same caches and the same seed) and with equal settings, write the same. Of nucleus
/// sampling this is said where no two candidates are equally probable, since the order of
/// equally probable ones is open.
pub proof fn equal_runs_write_the_same<A: Fn(Scalar) -> u32>(
    d: Passes<'_, A>,
    s: Sampler,
    t: Sampler,
    moments: Seq<Moment>,
    outs: Seq<Option<Seq<u8>>>,
    others: Seq<Moment>,
    writes: Seq<Option<Seq<u8>>>,
)
    requires
        s.temperature == t.temperature,
        s.topp == t.topp,
        d.runs(s, moments, outs),
        d.runs(t, others, writes),
        moments[0] == others[0],
        !moments.last().running(),
        !others.last().running(),
        forall|k: int| 0 <= k < outs.len() ==> fixed(d, s, #[trigger] moments[k]),
    ensures
        outs == writes,
        moments == others,
{
    let n = if outs.len() < writes.len() {
        outs.len() as int
    } else {
        writes.len() as int
    };
    runs_go_together(d, s, t, moments, outs, others, writes, n);
    if n < outs.len() {
        assert(moments[n].running());
        assert(others.last() == others[n]);
    }
    if n < writes.len() {
        assert(others[n].running());
        assert(moments.last() == moments[n]);
    }
    assert(outs =~= writes);
    assert forall|k: int| 0 <= k < moments.len() implies moments[k] == others[k] by {
        runs_go_together(d, s, t, moments, outs, others, writes, k);
    }
    assert(moments =~= others);
}

/// With quantized weights a step is the same with every kernel.
proof fn quantized_steps_agree<A: Fn(Scalar) -> u32>(
    d: Passes<'_, A>,
    e: Passes<'_, A>,
    s: Sampler,
    m: Moment,
    n: Moment,
    out: Option<Seq<u8>>,
)
    requires
        d.w is Q8,
        e.a == d.a,
        e.c == d.c,
        e.w == d.w,
        e.pieces == d.pieces,
        d.stepped(s, m, n, out),
    ensures
        e.stepped(s, m, n, out),
{
    let next = choose|next: usize| #[trigger]
        d.next_is(s, m, next) && n == d.after(s, m, next) && out == d.piece(m, next);
    let fed = Flow {
        x: d.w.embedding(d.a, m.token as int, d.c.dim as nat),
        keys: m.keys,
        values: m.values,
    };
    let layers = d.c.n_layers as int;
    quantized_kernels_agree(d.a, d.c, d.w, d.kernel, e.kernel, m.pos as usize, fed, layers);
    assert(e.next_is(s, m, next));
}

/// With quantized weights a run is the same with every kernel.
pub proof fn quantized_runs_agree<A: Fn(Scalar) -> u32>(
    d: Passes<'_, A>,
    e: Passes<'_, A>,
    s: Sampler,
    moments: Seq<Moment>,
    outs: Seq<Option<Seq<u8>>>,
)
    requires
        d.w is Q8,
        e.a == d.a,
        e.c == d.c,
        e.w == d.w,
        e.pieces == d.pieces,
        d.runs(s, moments, outs),
    ensures
        e.runs(s, moments, outs),
{
    assert forall|i: int| 0 <= i < outs.len() implies e.stepped(
        s,
        moments[i],
        moments[i + 1],
        #[trigger] outs[i],
    ) by {
        quantized_steps_agree(d, e, s, moments[i], moments[i + 1], outs[i]);
    }
}

/// What a step of a run does. It feeds the token that stands at its position, behind all that was
/// fed before. The next token is the prompt's while there is one, and otherwise what the sampler
/// chooses from the logits behind the fed token, with one draw. Token 1 writes nothing and ends the
/// run; any other writes its text behind the fed token and is fed next.
pub proof fn a_step_feeds_and_chooses<A: Fn(Scalar) -> u32>(
    d: Passes<'_, A>,
    s: Sampler,
    moments: Seq<Moment>,
    outs: Seq<Option<Seq<u8>>>,
    i: int,
)
    requires
        d.runs(s, moments, outs),
        0 <= i < outs.len(),
        i < usize::MAX,
    ensures
        ({
            let m = moments[i];
            let n = moments[i + 1];
            let prompt = moments[0].prompt;
            let flow = after_layers(
                d.a,
                d.c,
                d.w,
                d.kernel,
                i as usize,
                Flow {
                    x: d.w.embedding(d.a, m.token as int, d.c.dim as nat),
                    keys: m.keys,
                    values: m.values,
                },
                d.c.n_layers as int,
            );
            let logits = logits_of(d.a, d.c, d.w, d.kernel, flow.x);
            &&& n.keys == flow.keys
            &&& n.values == flow.values
            &&& n.words == if i + 1 >= prompt.len() && s.draws(d.a, logits) {
                words_after(m.words, 1)
            } else {
                m.words
            }
            &&& exists|next: usize|
                {
                    &&& i + 1 < prompt.len() ==> next == prompt[i + 1]
                    &&& i + 1 >= prompt.len() ==> #[trigger] s.chosen(
                        d.a,
                        logits,
                        uniform(d.a, m.words[0]),
                        next,
                    )
                    &&& next == 1 ==> n.stopped && outs[i] is None
                    &&& next != 1 ==> !n.stopped && n.token == next && outs[i] == Some(
                        decoded(d.pieces[next as int], m.token as int),
                    )
                }
        }),
{
    moment_of_a_run(d, s, moments, outs, i);
    let m = moments[i];
    assert(d.stepped(s, m, moments[i + 1], outs[i]));
    let next = choose|next: usize| #[trigger]
        d.next_is(s, m, next) && moments[i + 1] == d.after(s, m, next) && outs[i] == d.piece(
            m,
            next,
        );
    assert(d.next_is(s, m, next));
    let b = s.chosen(d.a, d.logits(m), uniform(d.a, m.words[0]), next);
}

/// The tokens that count as generated are those of the steps behind the prompt: one more for every
/// step that samples.
pub proof fn steps_behind_the_prompt_count(prompt: nat, pos: nat)
    requires
        prompt > 0,
    ensures
        sampled(prompt, 0) == 0,
        sampled(prompt, pos + 1) == sampled(prompt, pos) + if pos + 1 >= prompt {
            1int
        } else {
            0
        },
{
}

} // verus!
