//! What decoding does from step to step: what is fed, what is chosen from, and when it ends.

use vstd::prelude::*;

use crate::sample::{uniform, words_after, Sampler};
use crate::scalar::Scalar;
use crate::seq2seq::blocks::input_row;
use crate::seq2seq::decoder::{after_decoder_layers, Flow};
use crate::seq2seq::generate::{Steps, Walk};
use crate::seq2seq::params::classifier;

verus! {

/// Step `i` feeds the padding token where it is the first and the token before it otherwise, at
/// position `i`, with the keys and values of the steps before; what comes next is chosen from the
/// logits behind the last layer. Tokens go on until the end token is chosen or there are enough, and
/// the end token is not among them.
pub proof fn decoding_feeds_what_it_chose<A: Fn(Scalar) -> u32>(
    d: Steps<'_, '_, A>,
    s: Sampler,
    start: Walk,
    ids: Seq<usize>,
    most: int,
    i: int,
)
    requires
        d.generated(s, start, ids, most),
        0 <= i < ids.len() || i == ids.len() && i < most,
    ensures
        ids.len() <= most,
        i < ids.len() ==> ids[i] != d.c.eos_id,
        ({
            let before = d.walked(s, start, ids, i);
            let fed = if i == 0 {
                d.c.pad_id as int
            } else {
                ids[i - 1] as int
            };
            let flow = after_decoder_layers(
                d.a,
                d.c,
                d.w,
                d.k,
                d.kernel,
                i,
                d.src_len,
                d.cross_k,
                d.cross_v,
                Flow {
                    x: input_row(d.a, d.c, d.w, fed, i),
                    keys: before.keys,
                    values: before.values,
                },
                d.c.dec_layers as int,
            );
            let logits = classifier(d.w, d.k, d.c).made(d.a, d.kernel, flow.x);
            let after = d.walked(s, start, ids, i + 1);
            &&& s.chosen(
                d.a,
                logits,
                uniform(d.a, before.words[0]),
                if i < ids.len() {
                    ids[i]
                } else {
                    d.c.eos_id
                },
            )
            &&& after.keys == flow.keys
            &&& after.values == flow.values
            &&& after.words == if s.draws(d.a, logits) {
                words_after(before.words, 1)
            } else {
                before.words
            }
        }),
        d.walked(s, start, ids, 0) == start,
{
    if i < ids.len() {
        assert(d.picked(s, start, ids, i, ids[i]));
    } else {
        assert(d.picked(s, start, ids, i, d.c.eos_id));
    }
}

} // verus!
