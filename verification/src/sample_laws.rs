//! What temperature, nucleus and draw mean: how the weights of the tokens follow from the logits
//! and the temperature, which tokens a nucleus may hold, and where a draw lands.

use vstd::prelude::*;

use crate::kernels::{greatest, sum_of, total_of};
use crate::order::{at_most, greater, is_argmax, total_rank};
use crate::sample::{
    falling, first_above, first_reaching, kept, nucleus_cutoff, nucleus_pick, probs_of,
    sample_weights, uniform, ProbIndex, Sampler, DRAW_STEP,
};
use crate::scalar::{absolute, value, Scalar, NEGATIVE_ZERO, ONE, ZERO};
use crate::whole::{exact, is_whole, num, small};

verus! {

/// The maximum that logits are shifted by is one of them, and none is above it.
pub proof fn the_maximum_is_greatest(x: Seq<u32>, n: int)
    requires
        0 < n <= x.len(),
    ensures
        exists|m: int| 0 <= m < n && greatest(x, n) == #[trigger] x[m],
        forall|i: int| 0 <= i < n ==> total_rank(#[trigger] x[i]) <= total_rank(greatest(x, n)),
    decreases n,
{
    if n > 1 {
        the_maximum_is_greatest(x, n - 1);
        let m = choose|m: int| 0 <= m < n - 1 && greatest(x, n - 1) == #[trigger] x[m];
        assert(greatest(x, n) == x[m] || greatest(x, n) == x[n - 1]);
    } else {
        assert(greatest(x, n) == x[0]);
    }
}

/// Whether patterns of whole numbers are ordered as the numbers are.
pub open spec fn ordered_as_numbers(r: spec_fn(u32) -> Option<int>) -> bool {
    forall|x: u32, y: u32|
        #![trigger is_whole(r, x), is_whole(r, y)]
        is_whole(r, x) && is_whole(r, y) && num(r, x) < num(r, y) ==> total_rank(x) < total_rank(
            y,
        )
}

/// Whether the exponential function depends on the number only, not on its pattern.
pub open spec fn exponential_of_numbers<A: Fn(Scalar) -> u32>(
    a: A,
    r: spec_fn(u32) -> Option<int>,
) -> bool {
    forall|x: u32, y: u32|
        is_whole(r, x) && is_whole(r, y) && num(r, x) == num(r, y) ==> #[trigger] value(
            a,
            Scalar::Exp(x),
        ) == #[trigger] value(a, Scalar::Exp(y))
}

/// Sampling at temperature `t` from logits that are `t` times others has the weights that
/// temperature one gives for those others: a temperature divides the logits.
pub proof fn temperature_divides_the_logits<A: Fn(Scalar) -> u32>(
    a: A,
    r: spec_fn(u32) -> Option<int>,
    t: u32,
    logits: Seq<u32>,
    divided: Seq<u32>,
)
    requires
        exact(a, r),
        ordered_as_numbers(r),
        exponential_of_numbers(a, r),
        is_whole(r, t),
        num(r, t) > 0,
        logits.len() == divided.len(),
        logits.len() > 0,
        forall|i: int|
            0 <= i < logits.len() ==> {
                &&& is_whole(r, #[trigger] logits[i])
                &&& is_whole(r, divided[i])
                &&& num(r, logits[i]) == num(r, t) * num(r, divided[i])
                &&& -0x80_0000 <= num(r, logits[i]) <= 0x80_0000
                &&& -0x80_0000 <= num(r, divided[i]) <= 0x80_0000
            },
    ensures
        sample_weights(a, t, logits) == sample_weights(a, ONE, divided),
{
    let n = logits.len() as int;
    the_maximum_is_greatest(logits, n);
    the_maximum_is_greatest(divided, n);
    let p = choose|p: int| 0 <= p < n && greatest(logits, n) == #[trigger] logits[p];
    let q = choose|q: int| 0 <= q < n && greatest(divided, n) == #[trigger] divided[q];
    let k = num(r, t);
    assert(is_whole(r, logits[p]) && is_whole(r, logits[q]));
    assert(num(r, divided[p]) == num(r, divided[q])) by {
        assert(is_whole(r, divided[p]) && is_whole(r, divided[q]));
        assert(num(r, divided[p]) <= num(r, divided[q]));
        assert(num(r, logits[q]) <= num(r, logits[p]));
        assert(num(r, divided[q]) <= num(r, divided[p])) by (nonlinear_arith)
            requires
                k > 0,
                k * num(r, divided[q]) <= k * num(r, divided[p]),
        ;
    }
    assert forall|i: int| 0 <= i < n implies sample_weights(a, t, logits)[i] == sample_weights(
        a,
        ONE,
        divided,
    )[i] by {
        assert(is_whole(r, logits[i]));
        let x = value(a, Scalar::Sub(logits[i], logits[p]));
        let y = value(a, Scalar::Sub(divided[i], divided[q]));
        let d = num(r, divided[i]) - num(r, divided[q]);
        assert(r(x) == Some(num(r, logits[i]) - num(r, logits[p])));
        assert(r(y) == Some(d));
        assert(num(r, x) == k * d) by (nonlinear_arith)
            requires
                num(r, x) == k * num(r, divided[i]) - k * num(r, divided[p]),
                num(r, divided[p]) == num(r, divided[q]),
                d == num(r, divided[i]) - num(r, divided[q]),
        ;
        assert(small(d));
        let u = value(a, Scalar::Div(x, t));
        let v = value(a, Scalar::Div(y, ONE));
        assert(r(u) == Some(d));
        assert(num(r, y) == num(r, ONE) * d);
        assert(r(v) == Some(d));
        assert(value(a, Scalar::Exp(u)) == value(a, Scalar::Exp(v)));
    }
    assert(sample_weights(a, t, logits) =~= sample_weights(a, ONE, divided));
}

/// Whether an arithmetic keeps order where the weights of a sampler need it: a difference from
/// something no smaller is not positive, what is not positive comes nearer to zero when it is
/// divided by more, and the exponential function rises.
pub open spec fn keeps_order<A: Fn(Scalar) -> u32>(a: A) -> bool {
    &&& forall|x: u32, y: u32|
        at_most(x, y) && magnitude_finite(x) && magnitude_finite(y) ==> at_most(
            #[trigger] value(a, Scalar::Sub(x, y)),
            ZERO,
        )
    &&& forall|x: u32, t: u32, s: u32|
        at_most(x, ZERO) && greater(t, ZERO) && at_most(t, s) && magnitude_finite(s) ==> at_most(
            #[trigger] value(a, Scalar::Div(x, t)),
            #[trigger] value(a, Scalar::Div(x, s)),
        ) && at_most(value(a, Scalar::Div(x, s)), ZERO)
    &&& forall|x: u32, y: u32|
        at_most(x, y) ==> at_most(
            #[trigger] value(a, Scalar::Exp(x)),
            #[trigger] value(a, Scalar::Exp(y)),
        )
    &&& value(a, Scalar::Exp(ZERO)) == ONE
}

/// Whether a pattern is that of a finite number.
pub open spec fn magnitude_finite(x: u32) -> bool {
    crate::order::magnitude(x) < 0x7f80_0000
}

/// A higher temperature raises the weight of every token towards the one of the maximum, which
/// is one; a lower temperature lets it fall.
pub proof fn weights_rise_with_temperature<A: Fn(Scalar) -> u32>(
    a: A,
    low: u32,
    high: u32,
    logits: Seq<u32>,
    i: int,
)
    requires
        keeps_order(a),
        greater(low, ZERO),
        at_most(low, high),
        magnitude_finite(high),
        0 <= i < logits.len(),
        forall|k: int| 0 <= k < logits.len() ==> magnitude_finite(#[trigger] logits[k]),
    ensures
        at_most(sample_weights(a, low, logits)[i], sample_weights(a, high, logits)[i]),
        at_most(sample_weights(a, high, logits)[i], ONE),
{
    let n = logits.len() as int;
    the_maximum_is_greatest(logits, n);
    let p = choose|p: int| 0 <= p < n && greatest(logits, n) == #[trigger] logits[p];
    assert(magnitude_finite(logits[i]) && magnitude_finite(logits[p]));
    assert(at_most(logits[i], logits[p]));
    let x = value(a, Scalar::Sub(logits[i], logits[p]));
    assert(at_most(x, ZERO));
    let (u, v) = (value(a, Scalar::Div(x, low)), value(a, Scalar::Div(x, high)));
    assert(at_most(u, v) && at_most(v, ZERO));
    assert(at_most(value(a, Scalar::Exp(u)), value(a, Scalar::Exp(v))));
    assert(at_most(value(a, Scalar::Exp(v)), value(a, Scalar::Exp(ZERO))));
}

/// At any temperature a token with a greater logit has no smaller weight.
pub proof fn weights_follow_the_logits<A: Fn(Scalar) -> u32>(
    a: A,
    t: u32,
    logits: Seq<u32>,
    i: int,
    j: int,
)
    requires
        forall|x: u32, y: u32, m: u32|
            at_most(x, y) && magnitude_finite(x) && magnitude_finite(y) && magnitude_finite(m)
                ==> at_most(
                #[trigger] value(a, Scalar::Sub(x, m)),
                #[trigger] value(a, Scalar::Sub(y, m)),
            ),
        forall|x: u32, y: u32, d: u32|
            at_most(x, y) && greater(d, ZERO) && magnitude_finite(d) ==> at_most(
                #[trigger] value(a, Scalar::Div(x, d)),
                #[trigger] value(a, Scalar::Div(y, d)),
            ),
        forall|x: u32, y: u32|
            at_most(x, y) ==> at_most(
                #[trigger] value(a, Scalar::Exp(x)),
                #[trigger] value(a, Scalar::Exp(y)),
            ),
        greater(t, ZERO),
        magnitude_finite(t),
        0 <= i < logits.len(),
        0 <= j < logits.len(),
        forall|k: int| 0 <= k < logits.len() ==> magnitude_finite(#[trigger] logits[k]),
        at_most(logits[i], logits[j]),
    ensures
        at_most(sample_weights(a, t, logits)[i], sample_weights(a, t, logits)[j]),
{
    let n = logits.len() as int;
    the_maximum_is_greatest(logits, n);
    let p = choose|p: int| 0 <= p < n && greatest(logits, n) == #[trigger] logits[p];
    let m = logits[p];
    assert(at_most(
        value(a, Scalar::Sub(logits[i], m)),
        value(a, Scalar::Sub(logits[j], m)),
    ));
}

/// Without temperature the greatest logit is chosen, whatever is drawn.
pub proof fn no_temperature_is_greedy<A: Fn(Scalar) -> u32>(
    s: Sampler,
    a: A,
    logits: Seq<u32>,
    draw: u32,
    r: usize,
)
    requires
        absolute(s.temperature) == 0,
        s.chosen(a, logits, draw, r),
    ensures
        is_argmax(logits, r as int),
{
}

/// A cut is the first place at which the running sum exceeds the target.
proof fn above_from<A: Fn(Scalar) -> u32>(a: A, w: Seq<u32>, target: u32, i: int)
    requires
        0 <= i <= w.len(),
        w.len() > 0,
    ensures
        ({
            let at = first_above(a, w, target, i);
            &&& 0 <= at < w.len()
            &&& i < w.len() ==> i <= at
            &&& forall|k: int|
                i <= k < at ==> !greater(#[trigger] sum_of(a, w, k + 1), target)
            &&& at < w.len() - 1 ==> greater(sum_of(a, w, at + 1), target)
        }),
    decreases w.len() - i,
{
    if i < w.len() && !greater(sum_of(a, w, i + 1), target) {
        above_from(a, w, target, i + 1);
    }
}

/// A draw over all tokens lands where the running sum of the weights first exceeds the draw
/// times their total, and at the last token where it never does.
pub proof fn a_draw_lands_by_weight<A: Fn(Scalar) -> u32>(
    s: Sampler,
    a: A,
    logits: Seq<u32>,
    draw: u32,
    r: usize,
)
    requires
        logits.len() > 0,
        absolute(s.temperature) != 0,
        at_most(s.topp, ZERO) || at_most(ONE, s.topp),
        s.chosen(a, logits, draw, r),
    ensures
        ({
            let w = sample_weights(a, s.temperature, logits);
            let target = value(a, Scalar::Mul(draw, total_of(a, w, logits.len() as int)));
            &&& 0 <= r < logits.len()
            &&& forall|k: int| 0 <= k < r ==> !greater(#[trigger] sum_of(a, w, k + 1), target)
            &&& r < logits.len() - 1 ==> greater(sum_of(a, w, r + 1), target)
        }),
{
    let w = sample_weights(a, s.temperature, logits);
    let target = value(a, Scalar::Mul(draw, total_of(a, w, logits.len() as int)));
    above_from(a, w, target, 0);
}

/// A draw from a nucleus lands at one of its tokens: where the running sum of their
/// probabilities first exceeds the draw times what they add up to.
pub proof fn a_draw_lands_in_the_nucleus<A: Fn(Scalar) -> u32>(
    a: A,
    sorted: Seq<ProbIndex>,
    topp: u32,
    draw: u32,
)
    requires
        sorted.len() > 0,
    ensures
        ({
            let last = first_reaching(a, probs_of(sorted), topp, 0);
            let nucleus = probs_of(sorted.take(last + 1));
            let target = value(
                a,
                Scalar::Mul(draw, sum_of(a, probs_of(sorted), last + 1)),
            );
            exists|at: int|
                0 <= at <= last && nucleus_pick(a, sorted, topp, draw) == (#[trigger] sorted[at]).token
                    && (forall|k: int|
                    0 <= k < at ==> !greater(#[trigger] sum_of(a, nucleus, k + 1), target)) && (at
                    < last ==> greater(sum_of(a, nucleus, at + 1), target))
        }),
{
    crate::sample::the_nucleus_is_smallest(a, probs_of(sorted), topp);
    let last = first_reaching(a, probs_of(sorted), topp, 0);
    let nucleus = probs_of(sorted.take(last + 1));
    let target = value(a, Scalar::Mul(draw, sum_of(a, probs_of(sorted), last + 1)));
    above_from(a, nucleus, target, 0);
    let at = first_above(a, nucleus, target, 0);
    assert(sorted.take(last + 1)[at] == sorted[at]);
}

/// What is kept for a nucleus, out of the first `n` tokens: exactly those at least as probable as
/// the cutoff, each once, by number, with its share of the total.
pub proof fn the_probable_are_kept<A: Fn(Scalar) -> u32>(
    a: A,
    weights: Seq<u32>,
    total: u32,
    cutoff: u32,
    n: int,
)
    requires
        0 <= n <= weights.len(),
        weights.len() <= usize::MAX,
    ensures
        ({
            let k = kept(a, weights, total, cutoff, n);
            &&& forall|i: int|
                0 <= i < n && at_most(
                    cutoff,
                    #[trigger] value(a, Scalar::Div(weights[i], total)),
                ) ==> k.contains(
                    ProbIndex {
                        prob: value(a, Scalar::Div(weights[i], total)),
                        token: i as usize,
                    },
                )
            &&& forall|j: int|
                0 <= j < k.len() ==> {
                    let e = #[trigger] k[j];
                    &&& e.token < n
                    &&& e.prob == value(a, Scalar::Div(weights[e.token as int], total))
                    &&& at_most(cutoff, e.prob)
                }
            &&& forall|i: int, j: int|
                0 <= i < j < k.len() ==> (#[trigger] k[i]).token < (#[trigger] k[j]).token
        }),
    decreases n,
{
    if n > 0 {
        the_probable_are_kept(a, weights, total, cutoff, n - 1);
        let before = kept(a, weights, total, cutoff, n - 1);
        let k = kept(a, weights, total, cutoff, n);
        let p = value(a, Scalar::Div(weights[n - 1], total));
        assert forall|i: int|
            0 <= i < n && at_most(
                cutoff,
                #[trigger] value(a, Scalar::Div(weights[i], total)),
            ) implies k.contains(
            ProbIndex { prob: value(a, Scalar::Div(weights[i], total)), token: i as usize },
        ) by {
            let e = ProbIndex { prob: value(a, Scalar::Div(weights[i], total)), token: i as usize };
            if i < n - 1 {
                let at = before.index_of(e);
                assert(before.contains(e));
                assert(k[at] == e);
            } else {
                assert(k.last() == e);
            }
        }
    }
}

/// The least probability that a token of a nucleus may have: what the threshold leaves, spread
/// evenly over the other tokens. On whole numbers, `(1 - topp) / (n - 1)` times `n - 1` is
/// `1 - topp`.
pub proof fn the_cutoff_spreads_the_rest<A: Fn(Scalar) -> u32>(
    a: A,
    r: spec_fn(u32) -> Option<int>,
    topp: u32,
    n: nat,
    q: int,
)
    requires
        exact(a, r),
        1 < n <= 0x10000,
        is_whole(r, topp),
        small(q),
        small(1 - num(r, topp)),
        1 - num(r, topp) == (n - 1) * q,
    ensures
        r(nucleus_cutoff(a, topp, n)) == Some(q),
{
    let d = value(a, Scalar::Count((n - 1) as usize));
    assert(r(d) == Some(n - 1));
    let x = value(a, Scalar::Sub(ONE, topp));
    assert(r(x) == Some(1 - num(r, topp)));
}

/// Whether the arithmetic scales counts of up to 24 bits by the step of a draw exactly: more is
/// greater, and 2 to the power of 24 steps are one.
pub open spec fn scales_by_the_step<A: Fn(Scalar) -> u32>(a: A) -> bool {
    &&& value(a, Scalar::Mul(DRAW_STEP, value(a, Scalar::Count(0)))) == ZERO
    &&& value(a, Scalar::Mul(DRAW_STEP, value(a, Scalar::Count(0x100_0000)))) == ONE
    &&& forall|m: usize, n: usize|
        m < n <= 0x100_0000 ==> greater(
            #[trigger] value(a, Scalar::Mul(DRAW_STEP, value(a, Scalar::Count(n)))),
            #[trigger] value(a, Scalar::Mul(DRAW_STEP, value(a, Scalar::Count(m)))),
        )
}

/// A draw lies between zero, which it may be, and one, which it is not; a greater word gives no
/// smaller draw, and a greater one where the upper 24 bits differ.
pub proof fn draws_lie_between_zero_and_one<A: Fn(Scalar) -> u32>(a: A, v: u32, w: u32)
    requires
        scales_by_the_step(a),
    ensures
        at_most(ZERO, uniform(a, w)),
        greater(ONE, uniform(a, w)),
        v / 256 < w / 256 ==> greater(uniform(a, w), uniform(a, v)),
        v / 256 == w / 256 ==> uniform(a, w) == uniform(a, v),
{
    let n = (w / 256) as usize;
    let top = 0x100_0000usize;
    assert(n < top);
    let x = value(a, Scalar::Mul(DRAW_STEP, value(a, Scalar::Count(n))));
    let one = value(a, Scalar::Mul(DRAW_STEP, value(a, Scalar::Count(top))));
    assert(greater(one, x));
    if n > 0 {
        let zero = value(a, Scalar::Mul(DRAW_STEP, value(a, Scalar::Count(0))));
        assert(greater(x, zero));
    }
    let m = (v / 256) as usize;
    if m < n {
        assert(greater(
            value(a, Scalar::Mul(DRAW_STEP, value(a, Scalar::Count(n)))),
            value(a, Scalar::Mul(DRAW_STEP, value(a, Scalar::Count(m)))),
        ));
    }
}

/// With a threshold between zero and one, what is drawn is a token at least as probable as the
/// cutoff; where there is none, the greatest logit is chosen.
pub proof fn a_nucleus_holds_probable_tokens<A: Fn(Scalar) -> u32>(
    s: Sampler,
    a: A,
    logits: Seq<u32>,
    draw: u32,
    r: usize,
)
    requires
        0 < logits.len() <= usize::MAX,
        absolute(s.temperature) != 0,
        greater(s.topp, ZERO),
        greater(ONE, s.topp),
        s.chosen(a, logits, draw, r),
    ensures
        ({
            let w = sample_weights(a, s.temperature, logits);
            let total = total_of(a, w, logits.len() as int);
            let cutoff = nucleus_cutoff(a, s.topp, logits.len());
            ||| is_argmax(logits, r as int) && forall|i: int|
                0 <= i < logits.len() ==> !at_most(
                    cutoff,
                    #[trigger] value(a, Scalar::Div(w[i], total)),
                )
            ||| r < logits.len() && at_most(cutoff, value(a, Scalar::Div(w[r as int], total)))
        }),
{
    let n = logits.len() as int;
    let w = sample_weights(a, s.temperature, logits);
    let total = total_of(a, w, n);
    let cutoff = nucleus_cutoff(a, s.topp, logits.len());
    let all = s.candidates(a, logits);
    the_probable_are_kept(a, w, total, cutoff, n);
    if all.len() > 0 {
        let sorted = choose|sorted: Seq<ProbIndex>| #[trigger]
            falling(sorted) && sorted.to_multiset() == all.to_multiset() && r == nucleus_pick(
                a,
                sorted,
                s.topp,
                draw,
            );
        all.to_multiset_ensures();
        sorted.to_multiset_ensures();
        a_draw_lands_in_the_nucleus(a, sorted, s.topp, draw);
        crate::sample::the_nucleus_is_smallest(a, probs_of(sorted), s.topp);
        let last = first_reaching(a, probs_of(sorted), s.topp, 0);
        let at = choose|at: int|
            0 <= at <= last && nucleus_pick(a, sorted, s.topp, draw) == (#[trigger] sorted[at]).token;
        assert(sorted.contains(sorted[at]));
        assert(sorted.to_multiset().count(sorted[at]) > 0);
        assert(all.contains(sorted[at]));
        let k = all.index_of(sorted[at]);
        assert(all[k] == sorted[at]);
    } else {
        assert forall|i: int| 0 <= i < n implies !at_most(
            cutoff,
            #[trigger] value(a, Scalar::Div(w[i], total)),
        ) by {
            if at_most(cutoff, value(a, Scalar::Div(w[i], total))) {
                assert(all.contains(
                    ProbIndex { prob: value(a, Scalar::Div(w[i], total)), token: i as usize },
                ));
            }
        }
    }
}

/// What is drawn with a threshold between zero and one is drawn from the candidates in falling order
/// of their probability, so that what is left out is no more probable than what is kept.
pub proof fn a_nucleus_holds_the_most_probable<A: Fn(Scalar) -> u32>(
    s: Sampler,
    a: A,
    logits: Seq<u32>,
    draw: u32,
    r: usize,
)
    requires
        absolute(s.temperature) != 0,
        greater(s.topp, ZERO),
        greater(ONE, s.topp),
        s.chosen(a, logits, draw, r),
        s.candidates(a, logits).len() > 0,
    ensures
        exists|sorted: Seq<ProbIndex>|
            {
                &&& #[trigger] sorted.to_multiset() == s.candidates(a, logits).to_multiset()
                &&& r == nucleus_pick(a, sorted, s.topp, draw)
                &&& forall|i: int, j: int|
                    0 <= i < j < sorted.len() ==> !greater(
                        (#[trigger] sorted[j]).prob,
                        (#[trigger] sorted[i]).prob,
                    )
            },
{
    let all = s.candidates(a, logits);
    let sorted = choose|sorted: Seq<ProbIndex>| #[trigger]
        falling(sorted) && sorted.to_multiset() == all.to_multiset() && r == nucleus_pick(
            a,
            sorted,
            s.topp,
            draw,
        );
    assert(falling(sorted) && sorted.to_multiset() == all.to_multiset());
}

/// At the ends of the scale: where a temperature is so low that the distance to the maximum runs out of
/// range over it, a token has no weight at all, while the maximum keeps a weight of one; and where it
/// is so high that nothing is left of the distance, the token weighs as much as the maximum.
pub proof fn extreme_temperatures<A: Fn(Scalar) -> u32>(
    a: A,
    t: u32,
    logits: Seq<u32>,
    i: int,
    m: int,
)
    requires
        0 <= i < logits.len(),
        0 <= m < logits.len(),
        forall|k: int|
            0 <= k < logits.len() ==> total_rank(#[trigger] logits[k]) <= total_rank(logits[m]),
        value(a, Scalar::Sub(logits[m], logits[m])) == ZERO,
        value(a, Scalar::Div(ZERO, t)) == ZERO,
        value(a, Scalar::Exp(ZERO)) == ONE,
        value(a, Scalar::Exp(NEGATIVE_ZERO)) == ONE,
        value(a, Scalar::Exp(0xff80_0000)) == ZERO,
    ensures
        sample_weights(a, t, logits)[m] == ONE,
        value(a, Scalar::Div(value(a, Scalar::Sub(logits[i], logits[m])), t)) == 0xff80_0000
            ==> sample_weights(a, t, logits)[i] == ZERO,
        absolute(value(a, Scalar::Div(value(a, Scalar::Sub(logits[i], logits[m])), t))) == 0
            ==> sample_weights(a, t, logits)[i] == ONE,
{
    let n = logits.len() as int;
    the_maximum_is_greatest(logits, n);
    let p = choose|p: int| 0 <= p < n && greatest(logits, n) == #[trigger] logits[p];
    assert(total_rank(logits[p]) <= total_rank(logits[m]));
    assert(total_rank(logits[m]) <= total_rank(logits[p]));
    assert(greatest(logits, n) == logits[m]);
}

} // verus!
