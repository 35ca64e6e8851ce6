//! Token sampling: from a row of logits to the next token.
//!
//! Temperature zero is greedy: the highest logit, the first on ties. Otherwise a token is
//! drawn from the softmax of the logits over the temperature: from all of it, or, with a
//! threshold strictly between zero and one, from the smallest set of most probable tokens
//! whose probabilities reach the threshold. A seed fixes the draws.

use rand::rngs::Xoshiro128PlusPlus;
use vstd::prelude::*;
#[allow(unused_imports)]
use vstd::relations::{
    antisymmetric, reflexive, sorted_by, strongly_connected, total_ordering, transitive,
};

use crate::kernels::{greatest_of, sum_all, total_all};
#[allow(unused_imports)]
use crate::kernels::{greatest, sum_of, total_of};
use crate::order::{argmax, gt, le};
#[allow(unused_imports)]
use crate::order::{argmax_is_unique, at_most, greater, is_argmax, total_rank};
use crate::scalar::{abs, eval, Scalar, ONE, ZERO};
#[allow(unused_imports)]
use crate::scalar::{absolute, is_arithmetic, minus, over, times, value};

verus! {

/// A token and its probability.
#[derive(Clone, Copy, Debug, Default, PartialEq, Eq, Structural)]
pub struct ProbIndex {
    /// Probability, as a bit pattern.
    pub prob: u32,
    /// Token id.
    pub token: usize,
}

/// `rand::rngs::Xoshiro128PlusPlus`, a generator of random words.
#[verifier::external_type_specification]
#[verifier::external_body]
pub struct ExXoshiro128PlusPlus(rand::rngs::Xoshiro128PlusPlus);

/// The words that a generator has yet to give, in order.
pub uninterp spec fn words_ahead(rng: Xoshiro128PlusPlus) -> Map<nat, u32>;

/// The words that a generator gives after `Xoshiro128PlusPlus::seed_from_u64`, in order.
pub uninterp spec fn seeded_words(seed: u64) -> Map<nat, u32>;

/// What is left of a run of words after the first `n`.
pub open spec fn words_after(words: Map<nat, u32>, n: nat) -> Map<nat, u32> {
    Map::new(|k: nat| true, |k: nat| words[k + n])
}

/// `SeedableRng::seed_from_u64` of `rand::rngs::Xoshiro128PlusPlus`: a generator whose words
/// depend on the seed alone.
#[verifier::external_body]
fn seeded(seed: u64) -> (r: Xoshiro128PlusPlus)
    ensures
        words_ahead(r) == seeded_words(seed),
{
    rand::SeedableRng::seed_from_u64(seed)
}

/// `Rng::next_u32` of `rand::rngs::Xoshiro128PlusPlus`: the next word of the generator, which
/// goes on with the words that follow it.
#[verifier::external_body]
fn next_word(rng: &mut Xoshiro128PlusPlus) -> (r: u32)
    ensures
        r == words_ahead(*old(rng))[0],
        words_ahead(*final(rng)) == words_after(words_ahead(*old(rng)), 1),
{
    rand::Rng::next_u32(rng)
}

/// Two to the power of minus 24.
pub const DRAW_STEP: u32 = 0x3380_0000;

/// The number in `[0, 1)` that a word stands for: its high 24 bits, as steps of `2^-24`.
pub open spec fn uniform<A: Fn(Scalar) -> u32>(a: A, word: u32) -> u32 {
    times(a, DRAW_STEP, value(a, Scalar::Count((word / 256) as usize)))
}

/// Turns logits into tokens.
pub struct Sampler {
    /// Temperature, as a bit pattern.
    pub temperature: u32,
    /// Nucleus threshold, as a bit pattern.
    pub topp: u32,
    /// The source of the draws.
    pub rng: Xoshiro128PlusPlus,
}

/// How a token is to be picked.
pub enum Choice {
    /// It is this one, without a draw.
    Settled(usize),
    /// By a draw among all tokens.
    Full {
        /// The unnormalized probabilities.
        weights: Vec<u32>,
        /// Their sum.
        total: u32,
    },
    /// By a draw among the first entries of the scratch, which stand in order of falling
    /// probability.
    Nucleus {
        /// How many.
        len: usize,
    },
}

/// The unnormalized probabilities: exponentials of the distances from the highest logit,
/// over the temperature.
pub open spec fn sample_weights<A: Fn(Scalar) -> u32>(
    a: A,
    temperature: u32,
    logits: Seq<u32>,
) -> Seq<u32> {
    Seq::new(
        logits.len(),
        |i: int|
            value(
                a,
                Scalar::Exp(
                    over(a, minus(a, logits[i], greatest(logits, logits.len() as int)), temperature),
                ),
            ),
    )
}

/// The first place, from `i` on, at which the running sum exceeds `target`; the last place
/// if none does.
pub open spec fn first_above<A: Fn(Scalar) -> u32>(a: A, w: Seq<u32>, target: u32, i: int) -> int
    decreases w.len() - i,
{
    if i >= w.len() {
        w.len() - 1
    } else if greater(sum_of(a, w, i + 1), target) {
        i
    } else {
        first_above(a, w, target, i + 1)
    }
}

/// The first place, from `i` on, at which the running sum reaches `target`; the last place if
/// none does.
pub open spec fn first_reaching<A: Fn(Scalar) -> u32>(
    a: A,
    w: Seq<u32>,
    target: u32,
    i: int,
) -> int
    decreases w.len() - i,
{
    if i >= w.len() {
        w.len() - 1
    } else if at_most(target, sum_of(a, w, i + 1)) {
        i
    } else {
        first_reaching(a, w, target, i + 1)
    }
}

/// The probabilities of tokens.
pub open spec fn probs_of(s: Seq<ProbIndex>) -> Seq<u32> {
    s.map_values(|e: ProbIndex| e.prob)
}

/// The tokens among the first `n` whose probability reaches the cutoff, in order.
pub open spec fn kept<A: Fn(Scalar) -> u32>(
    a: A,
    weights: Seq<u32>,
    total: u32,
    cutoff: u32,
    n: int,
) -> Seq<ProbIndex>
    decreases n,
{
    if n <= 0 {
        Seq::empty()
    } else {
        let before = kept(a, weights, total, cutoff, n - 1);
        let p = over(a, weights[n - 1], total);
        if at_most(cutoff, p) {
            before.push(ProbIndex { prob: p, token: (n - 1) as usize })
        } else {
            before
        }
    }
}

/// The probability below which no token can belong to the nucleus.
pub open spec fn nucleus_cutoff<A: Fn(Scalar) -> u32>(a: A, topp: u32, n: nat) -> u32 {
    over(a, minus(a, ONE, topp), value(a, Scalar::Count((n - 1) as usize)))
}

/// Whether tokens stand in order of falling probability.
pub open spec fn falling(s: Seq<ProbIndex>) -> bool {
    forall|i: int, j: int|
        0 <= i < j < s.len() ==> total_rank((#[trigger] s[i]).prob) >= total_rank(
            (#[trigger] s[j]).prob,
        )
}

/// The token that a draw picks from a nucleus. The nucleus is the tokens up to the one at
/// which the running probability reaches the threshold. The pick is the first of these whose
/// running probability exceeds the draw's share of their sum.
pub open spec fn nucleus_pick<A: Fn(Scalar) -> u32>(
    a: A,
    sorted: Seq<ProbIndex>,
    topp: u32,
    draw: u32,
) -> usize {
    let last = first_reaching(a, probs_of(sorted), topp, 0);
    let nucleus = sorted.take(last + 1);
    let target = times(a, draw, sum_of(a, probs_of(sorted), last + 1));
    nucleus[first_above(a, probs_of(nucleus), target, 0)].token
}

/// Where a probability stands when the most probable come first.
pub open spec fn falling_place(prob: u32) -> int {
    -total_rank(prob)
}

/// Where an entry stands when the most probable come first.
fn falling_key(e: &ProbIndex) -> (r: i64)
    ensures
        r == falling_place(e.prob),
{
    if e.prob < 0x8000_0000 {
        -(e.prob as i64)
    } else {
        (e.prob - 0x8000_0000) as i64 + 1
    }
}

/// `<[T]>::sort_unstable_by_key`, by [`falling_key`]: the same entries, with rising keys.
/// Which of two entries with equal keys comes first is left open.
#[verifier::external_body]
fn sort_falling(entries: &mut [ProbIndex])
    ensures
        final(entries)@.to_multiset() == old(entries)@.to_multiset(),
        forall|i: int, j: int|
            0 <= i < j < final(entries)@.len() ==> falling_place(
                (#[trigger] final(entries)@[i]).prob,
            ) <= falling_place((#[trigger] final(entries)@[j]).prob),
{
    entries.sort_unstable_by_key(|e| falling_key(e));
}

/// Find the first place at which the running probability exceeds `target`.
fn find_above<A: Fn(Scalar) -> u32>(w: &[u32], target: u32, a: &A) -> (r: usize)
    requires
        is_arithmetic(*a),
        w@.len() > 0,
    ensures
        r == first_above(*a, w@, target, 0),
        r < w@.len(),
{
    let mut sum: u32 = ZERO;
    let mut i: usize = 0;
    while i < w.len()
        invariant
            i <= w@.len(),
            w@.len() > 0,
            is_arithmetic(*a),
            sum == sum_of(*a, w@, i as int),
            first_above(*a, w@, target, 0) == first_above(*a, w@, target, i as int),
        decreases w@.len() - i,
    {
        sum = eval(a, Scalar::Add(sum, w[i]));
        if gt(sum, target) {
            return i;
        }
        i = i + 1;
    }
    w.len() - 1
}

/// Find the first place at which the running probability reaches `target`.
fn find_reaching<A: Fn(Scalar) -> u32>(w: &[u32], target: u32, a: &A) -> (r: usize)
    requires
        is_arithmetic(*a),
        w@.len() > 0,
    ensures
        r == first_reaching(*a, w@, target, 0),
        r < w@.len(),
{
    let mut sum: u32 = ZERO;
    let mut i: usize = 0;
    while i < w.len()
        invariant
            i <= w@.len(),
            w@.len() > 0,
            is_arithmetic(*a),
            sum == sum_of(*a, w@, i as int),
            first_reaching(*a, w@, target, 0) == first_reaching(*a, w@, target, i as int),
        decreases w@.len() - i,
    {
        sum = eval(a, Scalar::Add(sum, w[i]));
        if le(target, sum) {
            return i;
        }
        i = i + 1;
    }
    w.len() - 1
}

/// The probabilities of the first `n` entries.
fn take_probs(entries: &[ProbIndex], n: usize) -> (r: Vec<u32>)
    requires
        n <= entries@.len(),
    ensures
        r@ == probs_of(entries@.take(n as int)),
{
    let mut r: Vec<u32> = Vec::new();
    let mut i: usize = 0;
    while i < n
        invariant
            i <= n <= entries@.len(),
            r@ == probs_of(entries@.take(i as int)),
        decreases n - i,
    {
        r.push(entries[i].prob);
        proof {
            assert(r@ =~= probs_of(entries@.take(i + 1)));
        }
        i = i + 1;
    }
    r
}

impl Sampler {
    /// A sampler.
    pub fn new(temperature: u32, topp: u32, seed: u64) -> (r: Sampler)
        ensures
            r.temperature == temperature,
            r.topp == topp,
            r.words() == seeded_words(seed),
    {
        Sampler { temperature, topp, rng: seeded(seed) }
    }

    /// The random words still to come.
    pub open spec fn words(self) -> Map<nat, u32> {
        words_ahead(self.rng)
    }

    /// Whether the highest logit is taken.
    pub open spec fn is_greedy(self) -> bool {
        absolute(self.temperature) == 0
    }

    /// Whether the draw is from all tokens.
    pub open spec fn is_full(self) -> bool {
        at_most(self.topp, ZERO) || at_most(ONE, self.topp)
    }

    /// The tokens that reach the nucleus cutoff, in order.
    pub open spec fn candidates<A: Fn(Scalar) -> u32>(self, a: A, logits: Seq<u32>) -> Seq<
        ProbIndex,
    > {
        let w = sample_weights(a, self.temperature, logits);
        let n = logits.len() as int;
        kept(a, w, total_of(a, w, n), nucleus_cutoff(a, self.topp, logits.len()), n)
    }

    /// Whether a draw is needed: the pick is not greedy, and some token reaches the cutoff.
    pub open spec fn draws<A: Fn(Scalar) -> u32>(self, a: A, logits: Seq<u32>) -> bool {
        !self.is_greedy() && (self.is_full() || self.candidates(a, logits).len() > 0)
    }

    /// The random words that are left behind a pick.
    pub open spec fn words_left<A: Fn(Scalar) -> u32>(
        self,
        a: A,
        logits: Seq<u32>,
        words: Map<nat, u32>,
    ) -> Map<nat, u32> {
        if self.draws(a, logits) {
            words_after(words, 1)
        } else {
            words
        }
    }

    /// Whether `r` is what the draw picks.
    pub open spec fn picks<A: Fn(Scalar) -> u32>(
        self,
        a: A,
        logits: Seq<u32>,
        draw: u32,
        r: usize,
    ) -> bool {
        let w = sample_weights(a, self.temperature, logits);
        if self.is_full() {
            r == first_above(a, w, times(a, draw, total_of(a, w, logits.len() as int)), 0)
        } else {
            exists|sorted: Seq<ProbIndex>| #[trigger]
                falling(sorted) && sorted.to_multiset() == self.candidates(a, logits).to_multiset()
                    && r == nucleus_pick(a, sorted, self.topp, draw)
        }
    }

    /// Whether `r` is the token for the logits and a draw: the highest logit where no draw is
    /// needed, and otherwise what the draw picks.
    pub open spec fn chosen<A: Fn(Scalar) -> u32>(
        self,
        a: A,
        logits: Seq<u32>,
        draw: u32,
        r: usize,
    ) -> bool {
        if self.draws(a, logits) {
            self.picks(a, logits, draw, r)
        } else {
            is_argmax(logits, r as int)
        }
    }

    /// Whether a choice is that for the logits.
    pub open spec fn choice_fits<A: Fn(Scalar) -> u32>(
        self,
        a: A,
        logits: Seq<u32>,
        scratch: Seq<ProbIndex>,
        choice: Choice,
    ) -> bool {
        match choice {
            Choice::Settled(token) => !self.draws(a, logits) && is_argmax(logits, token as int),
            Choice::Full { weights, total } => {
                &&& !self.is_greedy()
                &&& self.is_full()
                &&& weights@ == sample_weights(a, self.temperature, logits)
                &&& total == total_of(a, weights@, logits.len() as int)
            },
            Choice::Nucleus { len } => {
                let sorted = scratch.take(len as int);
                &&& !self.is_greedy()
                &&& !self.is_full()
                &&& 0 < len <= scratch.len()
                &&& falling(sorted)
                &&& sorted.to_multiset() == self.candidates(a, logits).to_multiset()
                &&& forall|k: int|
                    0 <= k < len ==> (#[trigger] scratch[k]).token < logits.len()
            },
        }
    }

    /// Pick the next token. A greedy pick draws nothing, and neither does a nucleus that no
    /// token reaches, which is a greedy pick too.
    ///
    /// `scratch` must be as long as the logits for nucleus sampling.
    pub fn sample<A: Fn(Scalar) -> u32>(
        &mut self,
        logits: &[u32],
        scratch: &mut [ProbIndex],
        a: &A,
    ) -> (r: usize)
        requires
            is_arithmetic(*a),
            logits@.len() > 0,
            !old(self).is_greedy() && !old(self).is_full() ==> old(scratch)@.len() >= logits@.len(),
        ensures
            r < logits@.len(),
            old(self).chosen(*a, logits@, uniform(*a, old(self).words()[0]), r),
            final(self).temperature == old(self).temperature,
            final(self).topp == old(self).topp,
            final(self).words() == old(self).words_left(*a, logits@, old(self).words()),
            final(scratch)@.len() == old(scratch)@.len(),
    {
        let choice = self.prepare(logits, scratch, a);
        if let Choice::Settled(token) = choice {
            return token;
        }
        proof {
            if let Choice::Nucleus { len } = choice {
                scratch@.take(len as int).to_multiset_ensures();
                self.candidates(*a, logits@).to_multiset_ensures();
            }
        }
        let word: u32 = next_word(&mut self.rng);
        let count: u32 = eval(a, Scalar::Count((word / 256) as usize));
        let draw: u32 = eval(a, Scalar::Mul(DRAW_STEP, count));
        self.settle(logits, scratch, &choice, draw, a)
    }

    /// Pick the token for a given draw.
    pub fn pick<A: Fn(Scalar) -> u32>(
        &self,
        logits: &[u32],
        scratch: &mut [ProbIndex],
        draw: u32,
        a: &A,
    ) -> (r: usize)
        requires
            is_arithmetic(*a),
            logits@.len() > 0,
            !self.is_greedy() && !self.is_full() ==> old(scratch)@.len() >= logits@.len(),
        ensures
            r < logits@.len(),
            self.chosen(*a, logits@, draw, r),
            final(scratch)@.len() == old(scratch)@.len(),
    {
        let choice = self.prepare(logits, scratch, a);
        self.settle(logits, scratch, &choice, draw, a)
    }

    /// Work out how the token is to be picked; a nucleus is left in the scratch.
    fn prepare<A: Fn(Scalar) -> u32>(
        &self,
        logits: &[u32],
        scratch: &mut [ProbIndex],
        a: &A,
    ) -> (r: Choice)
        requires
            is_arithmetic(*a),
            logits@.len() > 0,
            !self.is_greedy() && !self.is_full() ==> old(scratch)@.len() >= logits@.len(),
        ensures
            self.choice_fits(*a, logits@, final(scratch)@, r),
            final(scratch)@.len() == old(scratch)@.len(),
    {
        if abs(self.temperature) == 0 {
            return Choice::Settled(argmax(logits).0);
        }
        let weights = self.weights(logits, a);
        let total: u32 = total_all(weights.as_slice(), a);
        if le(self.topp, ZERO) || le(ONE, self.topp) {
            return Choice::Full { weights, total };
        }
        let len: usize = self.gather(logits, weights.as_slice(), total, scratch, a);
        if len == 0 {
            return Choice::Settled(argmax(logits).0);
        }
        Choice::Nucleus { len }
    }

    /// The unnormalized probabilities.
    fn weights<A: Fn(Scalar) -> u32>(&self, logits: &[u32], a: &A) -> (r: Vec<u32>)
        requires
            is_arithmetic(*a),
            logits@.len() > 0,
        ensures
            r@ == sample_weights(*a, self.temperature, logits@),
    {
        let max: u32 = greatest_of(logits);
        let mut r: Vec<u32> = Vec::new();
        let mut i: usize = 0;
        while i < logits.len()
            invariant
                i <= logits@.len(),
                is_arithmetic(*a),
                max == greatest(logits@, logits@.len() as int),
                r@.len() == i,
                forall|k: int|
                    0 <= k < i ==> #[trigger] r@[k] == sample_weights(
                        *a,
                        self.temperature,
                        logits@,
                    )[k],
            decreases logits@.len() - i,
        {
            let shifted: u32 = eval(a, Scalar::Sub(logits[i], max));
            let scaled: u32 = eval(a, Scalar::Div(shifted, self.temperature));
            r.push(eval(a, Scalar::Exp(scaled)));
            i = i + 1;
        }
        proof {
            assert(r@ =~= sample_weights(*a, self.temperature, logits@));
        }
        r
    }

    /// Gather the tokens that reach the nucleus cutoff, and sort them; returns how many.
    fn gather<A: Fn(Scalar) -> u32>(
        &self,
        logits: &[u32],
        weights: &[u32],
        total: u32,
        scratch: &mut [ProbIndex],
        a: &A,
    ) -> (r: usize)
        requires
            is_arithmetic(*a),
            logits@.len() > 0,
            weights@ == sample_weights(*a, self.temperature, logits@),
            total == total_of(*a, weights@, weights@.len() as int),
            old(scratch)@.len() >= logits@.len(),
        ensures
            r == self.candidates(*a, logits@).len(),
            final(scratch)@.len() == old(scratch)@.len(),
            r <= final(scratch)@.len(),
            falling(final(scratch)@.take(r as int)),
            final(scratch)@.take(r as int).to_multiset() == self.candidates(
                *a,
                logits@,
            ).to_multiset(),
            forall|k: int| 0 <= k < r ==> (#[trigger] final(scratch)@[k]).token < logits@.len(),
    {
        let len: usize = logits.len();
        let ghost cut = nucleus_cutoff(*a, self.topp, logits@.len());
        let rest: u32 = eval(a, Scalar::Sub(ONE, self.topp));
        let others: u32 = eval(a, Scalar::Count(len - 1));
        let cutoff: u32 = eval(a, Scalar::Div(rest, others));
        let mut n: usize = 0;
        let mut i: usize = 0;
        proof {
            assert(scratch@.take(0) =~= kept(*a, weights@, total, cut, 0));
        }
        while i < len
            invariant
                n <= i <= len,
                len == logits@.len(),
                len == weights@.len(),
                len <= scratch@.len(),
                scratch@.len() == old(scratch)@.len(),
                is_arithmetic(*a),
                cutoff == cut,
                scratch@.take(n as int) == kept(*a, weights@, total, cut, i as int),
                forall|k: int| 0 <= k < n ==> (#[trigger] scratch@[k]).token < len,
            decreases len - i,
        {
            let p: u32 = eval(a, Scalar::Div(weights[i], total));
            if le(cutoff, p) {
                let ghost before = scratch@;
                scratch[n] = ProbIndex { prob: p, token: i };
                n = n + 1;
                proof {
                    assert(scratch@.take(n as int) =~= before.take(n - 1).push(
                        ProbIndex { prob: p, token: i },
                    ));
                }
            }
            i = i + 1;
        }
        let ghost all = scratch@.take(n as int);
        proof {
            assert(all == self.candidates(*a, logits@));
            assert(forall|k: int| 0 <= k < n ==> (#[trigger] all[k]).token < len);
        }
        let (entries, _rest) = scratch.split_at_mut(n);
        proof {
            assert(entries@ =~= all);
        }
        sort_falling(entries);
        let ghost sorted = entries@;
        proof {
            sorted.to_multiset_ensures();
            all.to_multiset_ensures();
            assert(sorted.len() == all.len());
            assert(falling(sorted));
            assert forall|k: int| 0 <= k < sorted.len() implies (#[trigger] sorted[k]).token
                < len by {
                assert(sorted.to_multiset().count(sorted[k]) > 0);
                assert(all.contains(sorted[k]));
                let at = all.index_of(sorted[k]);
                assert(all[at] == sorted[k]);
            }
        }
        proof {
            assert(scratch@.take(n as int) =~= sorted);
            assert forall|k: int| 0 <= k < n implies (#[trigger] scratch@[k]).token < len by {
                assert(scratch@[k] == sorted[k]);
            }
        }
        n
    }

    /// Pick the token of a choice with a draw.
    fn settle<A: Fn(Scalar) -> u32>(
        &self,
        logits: &[u32],
        scratch: &[ProbIndex],
        choice: &Choice,
        draw: u32,
        a: &A,
    ) -> (r: usize)
        requires
            is_arithmetic(*a),
            logits@.len() > 0,
            self.choice_fits(*a, logits@, scratch@, *choice),
        ensures
            r < logits@.len(),
            self.chosen(*a, logits@, draw, r),
    {
        match choice {
            Choice::Settled(token) => *token,
            Choice::Full { weights, total } => {
                let target: u32 = eval(a, Scalar::Mul(draw, *total));
                find_above(weights.as_slice(), target, a)
            },
            Choice::Nucleus { len } => {
                let n: usize = *len;
                let ghost sorted = scratch@.take(n as int);
                proof {
                    sorted.to_multiset_ensures();
                    self.candidates(*a, logits@).to_multiset_ensures();
                }
                let probs = take_probs(scratch, n);
                let last: usize = find_reaching(probs.as_slice(), self.topp, a);
                let nucleus = take_probs(scratch, last + 1);
                let cumulative: u32 = sum_all(nucleus.as_slice(), a);
                proof {
                    let head = sorted.take(last + 1);
                    assert(head =~= scratch@.take(last + 1));
                    sum_of_prefix(*a, probs_of(head), probs_of(sorted), last + 1);
                }
                let target: u32 = eval(a, Scalar::Mul(draw, cumulative));
                let at: usize = find_above(nucleus.as_slice(), target, a);
                proof {
                    assert(falling(sorted) && scratch@[at as int].token == nucleus_pick(
                        *a,
                        sorted,
                        self.topp,
                        draw,
                    ));
                }
                scratch[at].token
            },
        }
    }
}

/// A running sum depends on what was summed only.
proof fn sum_of_prefix<A: Fn(Scalar) -> u32>(a: A, x: Seq<u32>, y: Seq<u32>, n: int)
    requires
        n <= x.len(),
        n <= y.len(),
        forall|k: int| 0 <= k < n ==> x[k] == y[k],
    ensures
        sum_of(a, x, n) == sum_of(a, y, n),
    decreases n,
{
    if n > 0 {
        sum_of_prefix(a, x, y, n - 1);
    }
}

/// The nucleus is the smallest run of tokens whose probabilities reach the threshold: it is
/// cut at a token, before which no running sum reaches the threshold, and at which it does,
/// unless all tokens together fall short.
pub proof fn the_nucleus_is_smallest<A: Fn(Scalar) -> u32>(a: A, w: Seq<u32>, topp: u32)
    requires
        w.len() > 0,
    ensures
        ({
            let last = first_reaching(a, w, topp, 0);
            &&& 0 <= last < w.len()
            &&& forall|k: int|
                0 <= k < last ==> !at_most(topp, #[trigger] sum_of(a, w, k + 1))
            &&& at_most(topp, sum_of(a, w, last + 1)) || last == w.len() - 1
        }),
{
    cut_from(a, w, topp, 0);
}

/// The cut, from place `i` on.
proof fn cut_from<A: Fn(Scalar) -> u32>(a: A, w: Seq<u32>, topp: u32, i: int)
    requires
        0 <= i <= w.len(),
        w.len() > 0,
    ensures
        ({
            let last = first_reaching(a, w, topp, i);
            &&& i < w.len() ==> i <= last
            &&& 0 <= last < w.len()
            &&& forall|k: int|
                i <= k < last ==> !at_most(topp, #[trigger] sum_of(a, w, k + 1))
            &&& (i <= last && at_most(topp, sum_of(a, w, last + 1))) || last == w.len() - 1
        }),
    decreases w.len() - i,
{
    if i < w.len() && !at_most(topp, sum_of(a, w, i + 1)) {
        cut_from(a, w, topp, i + 1);
    }
}

/// Whether the tokens differ in probability.
pub open spec fn all_differ(s: Seq<ProbIndex>) -> bool {
    forall|i: int, j: int|
        0 <= i < j < s.len() ==> (#[trigger] s[i]).prob != (#[trigger] s[j]).prob
}

/// A falling order, in which equally probable tokens stand by number.
spec fn comes_first() -> spec_fn(ProbIndex, ProbIndex) -> bool {
    |x: ProbIndex, y: ProbIndex|
        total_rank(x.prob) > total_rank(y.prob) || x.prob == y.prob && x.token <= y.token
}

/// That order is total.
proof fn comes_first_is_total()
    ensures
        total_ordering(comes_first()),
{
    let r = comes_first();
    assert(reflexive(r));
    assert(antisymmetric(r));
    assert(transitive(r));
    assert(strongly_connected(r));
}

/// Tokens that differ in probability have one falling order.
proof fn falling_order_is_unique(all: Seq<ProbIndex>, x: Seq<ProbIndex>, y: Seq<ProbIndex>)
    requires
        all_differ(all),
        falling(x),
        falling(y),
        x.to_multiset() == all.to_multiset(),
        y.to_multiset() == all.to_multiset(),
    ensures
        x == y,
{
    comes_first_is_total();
    falling_is_sorted(all, x);
    falling_is_sorted(all, y);
    vstd::seq_lib::lemma_sorted_unique(x, y, comes_first());
}

/// A falling order of tokens that differ in probability is sorted.
proof fn falling_is_sorted(all: Seq<ProbIndex>, x: Seq<ProbIndex>)
    requires
        all_differ(all),
        falling(x),
        x.to_multiset() == all.to_multiset(),
    ensures
        sorted_by(x, comes_first()),
{
    let less = comes_first();
    assert forall|i: int, j: int| 0 <= i < j < x.len() implies #[trigger] less(x[i], x[j]) by {
        if x[i].prob == x[j].prob && x[i].token > x[j].token {
            all.to_multiset_ensures();
            x.to_multiset_ensures();
            assert(x.contains(x[i]) && x.contains(x[j]));
            assert(x.to_multiset().count(x[i]) > 0 && x.to_multiset().count(x[j]) > 0);
            assert(all.contains(x[i]) && all.contains(x[j]));
            let p = all.index_of(x[i]);
            let q = all.index_of(x[j]);
            assert(all[p].prob == all[q].prob);
            assert(p != q);
        }
        assert(total_rank(x[i].prob) >= total_rank(x[j].prob));
    }
}

/// What is chosen rests on the settings of a sampler.
pub proof fn equal_settings_choose_alike<A: Fn(Scalar) -> u32>(
    s: Sampler,
    t: Sampler,
    a: A,
    logits: Seq<u32>,
    draw: u32,
    r: usize,
)
    requires
        s.temperature == t.temperature,
        s.topp == t.topp,
    ensures
        s.chosen(a, logits, draw, r) == t.chosen(a, logits, draw, r),
        forall|words: Map<nat, u32>| #[trigger]
            s.words_left(a, logits, words) == t.words_left(a, logits, words),
{
    assert(s.candidates(a, logits) == t.candidates(a, logits));
    assert(s.draws(a, logits) == t.draws(a, logits));
    assert(s.picks(a, logits, draw, r) == t.picks(a, logits, draw, r));
}

/// Equal settings, logits and draws give equal tokens. Of a draw from a nucleus this is said
/// where no two candidates are equally probable: the order of equally probable ones is open.
pub proof fn equal_draws_choose_equal_tokens<A: Fn(Scalar) -> u32>(
    s: Sampler,
    t: Sampler,
    a: A,
    logits: Seq<u32>,
    draw: u32,
    r: usize,
    q: usize,
)
    requires
        s.temperature == t.temperature,
        s.topp == t.topp,
        s.chosen(a, logits, draw, r),
        t.chosen(a, logits, draw, q),
        s.is_full() || s.is_greedy() || all_differ(s.candidates(a, logits)),
    ensures
        r == q,
{
    if !s.draws(a, logits) {
        argmax_is_unique(logits, r as int, q as int);
    } else if !s.is_full() {
        let all = s.candidates(a, logits);
        let x = choose|x: Seq<ProbIndex>| #[trigger]
            falling(x) && x.to_multiset() == all.to_multiset() && r == nucleus_pick(
                a,
                x,
                s.topp,
                draw,
            );
        let y = choose|y: Seq<ProbIndex>| #[trigger]
            falling(y) && y.to_multiset() == all.to_multiset() && q == nucleus_pick(
                a,
                y,
                s.topp,
                draw,
            );
        falling_order_is_unique(all, x, y);
    }
}

/// Draws follow one another: what is left after `m` words and then `n` more is what is left
/// after all of them, so a seed fixes every draw of a run.
pub proof fn draws_follow_one_another(words: Map<nat, u32>, m: nat, n: nat)
    ensures
        words_after(words_after(words, m), n) == words_after(words, m + n),
        words_after(words, m)[0] == words[m],
{
    assert(words_after(words_after(words, m), n) =~= words_after(words, m + n));
}

} // verus!
