//! Building blocks of the encoder and the decoder: rows of a flat buffer, multi-head
//! attention, the feed-forward activation, and the input of a position.

use vstd::prelude::*;

use crate::kernels::{
    accumulate, attention_head, embed_scale, gelu, silu, sinusoidal_into,
};
#[allow(unused_imports)]
use crate::kernels::{
    added, attention_of, embed_scale_of, gelu_of, rows_of, silu_of, sinusoidal_of,
};
#[allow(unused_imports)]
use crate::layout::{window, window_bounds, written};
use crate::math::KvHead;
use crate::scalar::{eval, Scalar, ONE};
#[allow(unused_imports)]
use crate::scalar::{is_arithmetic, over, times, value};
use crate::seq2seq::config::{Activation, Config};
use crate::seq2seq::params::ModelWeights;

verus! {

/// The feed-forward activation of one value.
pub open spec fn activated<A: Fn(Scalar) -> u32>(a: A, act: Activation, z: u32) -> u32 {
    match act {
        Activation::Gelu => gelu_of(a, z),
        Activation::Swish => silu_of(a, z),
    }
}

/// The feed-forward activation of every element.
pub open spec fn all_activated<A: Fn(Scalar) -> u32>(
    a: A,
    act: Activation,
    x: Seq<u32>,
) -> Seq<u32> {
    Seq::new(x.len(), |i: int| activated(a, act, x[i]))
}

/// Apply the feed-forward activation to every element.
pub fn activate<A: Fn(Scalar) -> u32>(buf: &mut [u32], act: Activation, a: &A)
    requires
        is_arithmetic(*a),
    ensures
        final(buf)@ == all_activated(*a, act, old(buf)@),
{
    let ghost start = buf@;
    let n: usize = buf.len();
    let mut i: usize = 0;
    while i < n
        invariant
            i <= n,
            n == buf@.len(),
            n == start.len(),
            is_arithmetic(*a),
            forall|k: int| 0 <= k < i ==> #[trigger] buf@[k] == activated(*a, act, start[k]),
            forall|k: int| i <= k < n ==> #[trigger] buf@[k] == start[k],
        decreases n - i,
    {
        let z: u32 = match act {
            Activation::Gelu => gelu(buf[i], a),
            Activation::Swish => silu(buf[i], a),
        };
        buf[i] = z;
        i = i + 1;
    }
    proof {
        assert(buf@ =~= all_activated(*a, act, start));
    }
}

/// The first `n` rows of `d` elements.
pub open spec fn rows(flat: Seq<u32>, d: nat, n: nat) -> Seq<Seq<u32>> {
    Seq::new(n, |t: int| window(flat, t, d as int))
}

/// Writing one row changes that row only.
pub proof fn row_written(before: Seq<u32>, after: Seq<u32>, v: Seq<u32>, d: nat, n: nat, t: int)
    requires
        0 <= t < n,
        n * d <= before.len(),
        v.len() == d,
        after == written(before, t * d, v),
    ensures
        rows(after, d, n) == rows(before, d, n).update(t, v),
        after.len() == before.len(),
        after.skip((n * d) as int) == before.skip((n * d) as int),
{
    window_bounds(n, t, d);
    let made = rows(before, d, n).update(t, v);
    assert forall|k: int| 0 <= k < n implies #[trigger] rows(after, d, n)[k] == made[k] by {
        window_bounds(n, k, d);
        assert(k < t ==> k * d + d <= t * d) by (nonlinear_arith)
            requires
                d >= 0,
        ;
        assert(t < k ==> t * d + d <= k * d) by (nonlinear_arith)
            requires
                d >= 0,
        ;
        assert(window(after, k, d as int) =~= made[k]);
    }
    assert(rows(after, d, n) =~= made);
    assert(after.skip((n * d) as int) =~= before.skip((n * d) as int));
}

/// The part of every row that belongs to head `h`.
pub open spec fn head_rows(x: Seq<Seq<u32>>, h: int, size: int) -> Seq<Seq<u32>> {
    Seq::new(x.len(), |t: int| window(x[t], h, size))
}

/// What the first `n` heads of a query attend to, side by side: every position counts.
pub open spec fn heads_of<A: Fn(Scalar) -> u32>(
    a: A,
    q: Seq<u32>,
    k: Seq<Seq<u32>>,
    v: Seq<Seq<u32>>,
    size: nat,
    scale: u32,
    n: int,
) -> Seq<u32>
    decreases n,
{
    if n <= 0 {
        Seq::empty()
    } else {
        heads_of(a, q, k, v, size, scale, n - 1) + attention_of(
            a,
            window(q, n - 1, size as int),
            head_rows(k, n - 1, size as int),
            head_rows(v, n - 1, size as int),
            scale,
        )
    }
}

/// The heads' parts of rows are the strided rows of the flat buffer.
proof fn head_rows_are_strided(flat: Seq<u32>, d: nat, n: nat, h: int, size: nat, heads: nat)
    requires
        0 <= h < heads,
        heads * size == d,
        n * d <= flat.len(),
    ensures
        rows_of(flat, d as int, h * size, size as int, n) == head_rows(
            rows(flat, d, n),
            h,
            size as int,
        ),
{
    window_bounds(heads, h, size);
    let strided = rows_of(flat, d as int, h * size, size as int, n);
    let parts = head_rows(rows(flat, d, n), h, size as int);
    assert forall|t: int| 0 <= t < n implies #[trigger] strided[t] == parts[t] by {
        window_bounds(n, t, d);
        assert(strided[t] =~= parts[t]);
    }
    assert(strided =~= parts);
}

/// Attend with every head of one query to all positions.
pub fn attend<A: Fn(Scalar) -> u32>(
    out: &mut [u32],
    q: &[u32],
    keys: &[u32],
    values: &[u32],
    scores: &mut [u32],
    d: usize,
    heads: usize,
    n: usize,
    a: &A,
)
    requires
        is_arithmetic(*a),
        n > 0,
        heads > 0,
        d % heads == 0,
        old(out)@.len() == d,
        q@.len() == d,
        n * d <= keys@.len(),
        n * d <= values@.len(),
        n <= old(scores)@.len(),
    ensures
        ({
            let size = d as nat / heads as nat;
            final(out)@ == heads_of(
                *a,
                q@,
                rows(keys@, d as nat, n as nat),
                rows(values@, d as nat, n as nat),
                size,
                head_scale(*a, size as usize),
                heads as int,
            )
        }),
        final(out)@.len() == d,
        final(scores)@.len() == old(scores)@.len(),
{
    let size: usize = d / heads;
    let ghost k = rows(keys@, d as nat, n as nat);
    let ghost v = rows(values@, d as nat, n as nat);
    proof {
        assert(heads * size == d) by (nonlinear_arith)
            requires
                heads > 0,
                d % heads == 0,
                size == d / heads,
        ;
        assert(0 * size == 0) by (nonlinear_arith);
        assert(out@.take(0) =~= Seq::<u32>::empty());
    }
    let count: u32 = eval(a, Scalar::Count(size));
    let root: u32 = eval(a, Scalar::Sqrt(count));
    let scale: u32 = eval(a, Scalar::Div(ONE, root));
    let mut h: usize = 0;
    while h < heads
        invariant
            h <= heads,
            is_arithmetic(*a),
            n > 0,
            heads * size == d,
            size == d as nat / heads as nat,
            scale == head_scale(*a, size),
            out@.len() == d,
            q@.len() == d,
            n * d <= keys@.len(),
            n * d <= values@.len(),
            n <= scores@.len(),
            scores@.len() == old(scores)@.len(),
            k == rows(keys@, d as nat, n as nat),
            v == rows(values@, d as nat, n as nat),
            0 <= h * size <= d,
            out@.take(h * size) == heads_of(*a, q@, k, v, size as nat, scale, h as int),
        decreases heads - h,
    {
        proof {
            window_bounds(heads as nat, h as int, size as nat);
        }
        let at: usize = h * size;
        let q_head = vstd::slice::slice_subrange(q, at, at + size);
        let kv = KvHead { keys, values, stride: d, head_off: at };
        proof {
            assert forall|t: int| 0 <= t < n implies #[trigger] kv.holds(
                t,
                q_head@.len() as int,
            ) by {
                window_bounds(n as nat, t, d as nat);
            }
            head_rows_are_strided(
                keys@,
                d as nat,
                n as nat,
                h as int,
                size as nat,
                heads as nat,
            );
            head_rows_are_strided(
                values@,
                d as nat,
                n as nat,
                h as int,
                size as nat,
                heads as nat,
            );
        }
        let ghost before = out@;
        let (_, tail) = out.split_at_mut(at);
        let (head, _) = tail.split_at_mut(size);
        attention_head(head, q_head, &kv, n, scale, scores, a);
        proof {
            assert(q_head@ =~= window(q@, h as int, size as int));
            assert(out@.take((h + 1) * size) =~= before.take(h * size) + attention_of(
                *a,
                window(q@, h as int, size as int),
                head_rows(k, h as int, size as int),
                head_rows(v, h as int, size as int),
                scale,
            ));
        }
        h = h + 1;
    }
    proof {
        assert(out@.take(d as int) =~= out@);
    }
}

/// One over the root of the head size.
pub open spec fn head_scale<A: Fn(Scalar) -> u32>(a: A, size: usize) -> u32 {
    over(a, ONE, value(a, Scalar::Sqrt(value(a, Scalar::Count(size)))))
}

/// Multiply every element.
fn scale_all<A: Fn(Scalar) -> u32>(x: &mut [u32], scale: u32, a: &A)
    requires
        is_arithmetic(*a),
    ensures
        final(x)@ == Seq::new(old(x)@.len(), |i: int| times(*a, old(x)@[i], scale)),
{
    let ghost start = x@;
    let n: usize = x.len();
    let mut i: usize = 0;
    while i < n
        invariant
            i <= n,
            n == x@.len(),
            n == start.len(),
            is_arithmetic(*a),
            forall|k: int| 0 <= k < i ==> #[trigger] x@[k] == times(*a, start[k], scale),
            forall|k: int| i <= k < n ==> #[trigger] x@[k] == start[k],
        decreases n - i,
    {
        let v: u32 = eval(a, Scalar::Mul(x[i], scale));
        x[i] = v;
        i = i + 1;
    }
    proof {
        assert(x@ =~= Seq::new(start.len(), |i: int| times(*a, start[i], scale)));
    }
}

/// The input at position `pos`: the token's embedding, scaled if the model asks for it,
/// plus the position encoding.
pub open spec fn input_row<A: Fn(Scalar) -> u32>(
    a: A,
    c: Config,
    w: ModelWeights<'_>,
    token: int,
    pos: int,
) -> Seq<u32> {
    let e = w.embedding(a, token, c.d_model as nat);
    let scaled = if c.scale_embedding {
        Seq::new(e.len(), |i: int| times(a, e[i], embed_scale_of(a, c.d_model)))
    } else {
        e
    };
    added(a, scaled, sinusoidal_of(a, pos as usize, c.d_model))
}

/// Write the input at position `pos` into `x`.
pub fn embed_input<A: Fn(Scalar) -> u32>(
    c: &Config,
    w: &ModelWeights<'_>,
    token: usize,
    pos: usize,
    x: &mut [u32],
    norm: &mut [u32],
    a: &A,
)
    requires
        is_arithmetic(*a),
        w.fits(*c),
        token < c.vocab_size,
        old(x)@.len() == c.d_model,
        old(norm)@.len() == c.d_model,
    ensures
        final(x)@ == input_row(*a, *c, *w, token as int, pos as int),
        final(x)@.len() == c.d_model,
        final(norm)@.len() == c.d_model,
{
    let d: usize = c.d_model;
    w.embed(c, token, x, a);
    if c.scale_embedding {
        let scale: u32 = embed_scale(d, a);
        scale_all(x, scale, a);
    }
    sinusoidal_into(norm, pos, d, a);
    accumulate(x, norm, a);
    proof {
        assert(x@ =~= input_row(*a, *c, *w, token as int, pos as int));
    }
}

} // verus!
