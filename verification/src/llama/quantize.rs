//! Int8 quantization of the Llama weight set: which tensors are quantized, in what
//! order, and the views over them.
//!
//! Only the RMSNorm gains stay in full precision. The token embedding comes first (it
//! doubles as the classifier when weights are shared), then the seven projections, then
//! a separate classifier when weights are not shared.

use vstd::arithmetic::overflow::CheckedUsize;
use vstd::prelude::*;

use crate::error::EngineError;
#[allow(unused_imports)]
use crate::layout::{
    lens_of, offset, offset_depends_on_prefix, offset_grows, part, saturated, total, true_lens,
};
use crate::layout::{product, product3, saturate, total_checked};
use crate::llama::config::Config;
use crate::llama::weights::Weights;
#[allow(unused_imports)]
use crate::llama::weights::shaped;
#[allow(unused_imports)]
use crate::quant::{
    contents, group_lens, groups_exact, is_quantized_part, quantized_as, quantizes_groups,
};
use crate::quant::{quantize_all, quantized_part, QuantizedTensor};

verus! {

/// Lengths of the quantized tensors in storage order: the embedding, `wq`, `wk`, `wv`,
/// `wo`, `w1`, `w2`, `w3`, and the classifier (empty when it shares the embedding).
pub open spec fn quantized_lens(c: Config) -> Seq<nat> {
    let l = c.n_layers as nat;
    let dim = c.dim as nat;
    let hidden = c.hidden_dim as nat;
    let emb = c.vocab_size as nat * dim;
    seq![
        emb,
        l * dim * c.att_dim_spec(),
        l * dim * c.kv_dim_spec(),
        l * dim * c.kv_dim_spec(),
        l * c.att_dim_spec() * dim,
        l * hidden * dim,
        l * dim * hidden,
        l * hidden * dim,
        if c.shared_weights {
            0
        } else {
            emb
        },
    ]
}

/// The width of the query projection: the head size times the number of heads.
pub fn att_dim(c: &Config) -> (r: usize)
    requires
        c.n_heads > 0,
    ensures
        r == c.att_dim_spec(),
        r <= c.dim,
{
    proof {
        assert(c.n_heads as nat * (c.dim as nat / c.n_heads as nat) <= c.dim as nat)
            by (nonlinear_arith)
            requires
                c.n_heads > 0,
        ;
    }
    c.n_heads * c.head_size()
}

/// Lengths of the quantized tensors in storage order.
fn quantized_lens_checked(c: &Config) -> (r: [CheckedUsize; 9])
    requires
        c.n_heads > 0,
    ensures
        true_lens(r@) == quantized_lens(*c),
{
    let att_dim: usize = att_dim(c);
    let kv_dim = product(c.n_kv_heads, c.head_size());
    let r = [
        product(c.vocab_size, c.dim),
        product3(c.n_layers, c.dim, att_dim),
        product(c.n_layers, c.dim).mul_checked(&kv_dim),
        product(c.n_layers, c.dim).mul_checked(&kv_dim),
        product3(c.n_layers, att_dim, c.dim),
        product3(c.n_layers, c.hidden_dim, c.dim),
        product3(c.n_layers, c.dim, c.hidden_dim),
        product3(c.n_layers, c.hidden_dim, c.dim),
        if c.shared_weights {
            CheckedUsize::new(0)
        } else {
            product(c.vocab_size, c.dim)
        },
    ];
    proof {
        assert(true_lens(r@) =~= quantized_lens(*c));
    }
    r
}

/// The number of quantized values, kept exact beyond the machine's range.
pub fn quantized_weight_count_checked(c: &Config) -> (r: CheckedUsize)
    requires
        c.n_heads > 0,
    ensures
        r@ == total(quantized_lens(*c)),
{
    let lens = quantized_lens_checked(c);
    total_checked(&lens)
}

/// Total number of `i8` values a checkpoint of this config needs once quantized.
pub fn quantized_weight_count(c: &Config) -> (r: usize)
    requires
        c.n_heads > 0,
        total(quantized_lens(*c)) <= usize::MAX,
    ensures
        r == total(quantized_lens(*c)),
{
    quantized_weight_count_checked(c).unwrap()
}

/// Total number of scales the quantized values need.
pub fn quantized_scale_count(c: &Config, group_size: usize) -> (r: usize)
    requires
        c.n_heads > 0,
        group_size > 0,
        total(quantized_lens(*c)) <= usize::MAX,
    ensures
        r == total(quantized_lens(*c)) / group_size as nat,
{
    quantized_weight_count(c) / group_size
}

/// `k` tensors of the same length.
pub open spec fn repeated(n: nat, k: nat) -> Seq<nat> {
    Seq::new(k, |i: int| n)
}

/// One layer of each projection, in the order of a v2 file: `wq`, `wk`, `wv`, `wo`,
/// `w1`, `w2`, `w3`.
pub open spec fn layer_lens(c: Config) -> Seq<nat> {
    let dim = c.dim as nat;
    let hidden = c.hidden_dim as nat;
    seq![
        dim * c.att_dim_spec(),
        dim * c.kv_dim_spec(),
        dim * c.kv_dim_spec(),
        c.att_dim_spec() * dim,
        hidden * dim,
        dim * hidden,
        hidden * dim,
    ]
}

/// The first `p` projections of a v2 file, every layer a tensor of its own.
pub open spec fn projection_lens(c: Config, p: int) -> Seq<nat>
    decreases p,
{
    if p <= 0 {
        Seq::empty()
    } else {
        projection_lens(c, p - 1) + repeated(layer_lens(c)[p - 1], c.n_layers as nat)
    }
}

/// The sizes of the quantized tensors as a v2 checkpoint stores them: the embedding,
/// every layer of each projection, and a separate classifier.
pub open spec fn v2_lens(c: Config) -> Seq<nat> {
    let emb = c.vocab_size as nat * c.dim as nat;
    seq![emb] + projection_lens(c, 7) + if c.shared_weights {
        Seq::<nat>::empty()
    } else {
        seq![emb]
    }
}

/// The elements of a vector of sizes, as natural numbers.
pub open spec fn nats(s: Seq<usize>) -> Seq<nat> {
    s.map_values(|n: usize| n as nat)
}

/// The sizes of the quantized tensors as a v2 checkpoint stores them, in file order.
///
/// Each tensor is stored as its int8 data followed by its scales, and every layer of a
/// projection is a tensor of its own. The sizes sum to [`quantized_weight_count`].
pub fn v2_tensor_sizes(c: &Config) -> (r: Vec<usize>)
    requires
        c.n_heads > 0,
        total(quantized_lens(*c)) <= usize::MAX,
    ensures
        nats(r@) == v2_lens(*c),
{
    let att_dim: usize = att_dim(c);
    let kv_dim = product(c.n_kv_heads, c.head_size());
    let emb = product(c.vocab_size, c.dim);
    let per_layer = [
        product(c.dim, att_dim),
        CheckedUsize::new(c.dim).mul_checked(&kv_dim),
        CheckedUsize::new(c.dim).mul_checked(&kv_dim),
        product(att_dim, c.dim),
        product(c.hidden_dim, c.dim),
        product(c.dim, c.hidden_dim),
        product(c.hidden_dim, c.dim),
    ];
    proof {
        assert(true_lens(per_layer@) =~= layer_lens(*c));
        quantized_parts_fit(*c);
    }
    let mut sizes: Vec<usize> = Vec::new();
    sizes.push(emb.unwrap());
    let mut p: usize = 0;
    proof {
        assert(nats(sizes@) =~= seq![emb@] + projection_lens(*c, 0));
    }
    while p < 7
        invariant
            p <= 7,
            true_lens(per_layer@) == layer_lens(*c),
            per_layer@.len() == 7,
            c.n_layers > 0 ==> forall|i: int|
                0 <= i < 7 ==> #[trigger] layer_lens(*c)[i] <= usize::MAX,
            nats(sizes@) == seq![emb@] + projection_lens(*c, p as int),
        decreases 7 - p,
    {
        if c.n_layers > 0 {
            proof {
                assert(true_lens(per_layer@)[p as int] == per_layer@[p as int]@);
            }
            let n: usize = per_layer[p].unwrap();
            let ghost before = sizes@;
            let mut j: usize = 0;
            while j < c.n_layers
                invariant
                    j <= c.n_layers,
                    nats(sizes@) == nats(before) + repeated(n as nat, j as nat),
                decreases c.n_layers - j,
            {
                let ghost now = sizes@;
                sizes.push(n);
                proof {
                    assert(nats(sizes@) =~= nats(now).push(n as nat));
                    assert(nats(sizes@) =~= nats(before) + repeated(n as nat, (j + 1) as nat));
                }
                j = j + 1;
            }
        }
        proof {
            assert(nats(sizes@) =~= seq![emb@] + projection_lens(*c, p + 1));
        }
        p = p + 1;
    }
    if !c.shared_weights {
        let ghost now = sizes@;
        sizes.push(emb.unwrap());
        proof {
            assert(nats(sizes@) =~= nats(now).push(emb@));
        }
    }
    proof {
        assert(nats(sizes@) =~= v2_lens(*c));
    }
    sizes
}

/// Every tensor, and every layer of a projection, is no longer than all of them.
proof fn quantized_parts_fit(c: Config)
    requires
        c.n_heads > 0,
    ensures
        c.vocab_size as nat * c.dim as nat <= total(quantized_lens(c)),
        c.n_layers > 0 ==> forall|i: int|
            0 <= i < 7 ==> #[trigger] layer_lens(c)[i] <= total(quantized_lens(c)),
{
    let q = quantized_lens(c);
    offset_grows(q, 1, 9);
    reveal_with_fuel(offset, 2);
    if c.n_layers > 0 {
        assert forall|i: int| 0 <= i < 7 implies #[trigger] layer_lens(c)[i] <= total(q) by {
            layers_make_up_projections(c, i);
            let n = layer_lens(c)[i];
            let l = c.n_layers as nat;
            assert(n <= l * n) by (nonlinear_arith)
                requires
                    l > 0,
                    n >= 0,
            ;
            offset_grows(q, i + 2, 9);
        }
    }
}

/// A projection is its layers laid back to back.
pub proof fn layers_make_up_projections(c: Config, i: int)
    requires
        0 <= i < 7,
    ensures
        quantized_lens(c)[i + 1] == c.n_layers as nat * layer_lens(c)[i],
{
    let l = c.n_layers as nat;
    let a = c.att_dim_spec();
    let k = c.kv_dim_spec();
    let d = c.dim as nat;
    let h = c.hidden_dim as nat;
    assert(l * d * a == l * (d * a)) by (nonlinear_arith);
    assert(l * d * k == l * (d * k)) by (nonlinear_arith);
    assert(l * a * d == l * (a * d)) by (nonlinear_arith);
    assert(l * h * d == l * (h * d)) by (nonlinear_arith);
    assert(l * d * h == l * (d * h)) by (nonlinear_arith);
}

/// The total of two runs of parts is the sum of their totals.
pub proof fn total_of_concat(a: Seq<nat>, b: Seq<nat>)
    ensures
        total(a + b) == total(a) + total(b),
    decreases b.len(),
{
    if b.len() == 0 {
        assert(a + b =~= a);
    } else {
        let init = b.drop_last();
        total_of_concat(a, init);
        offset_depends_on_prefix(a + b, a + init, (a + b).len() - 1);
        offset_depends_on_prefix(b, init, b.len() - 1);
    }
}

/// The total of `k` parts of one length.
pub proof fn total_of_repeated(n: nat, k: nat)
    ensures
        total(repeated(n, k)) == k * n,
    decreases k,
{
    if k == 0 {
        assert(k * n == 0) by (nonlinear_arith)
            requires
                k == 0,
        ;
    } else {
        total_of_repeated(n, (k - 1) as nat);
        offset_depends_on_prefix(repeated(n, k), repeated(n, (k - 1) as nat), k - 1);
        assert((k - 1) * n + n == k * n) by (nonlinear_arith);
    }
}

/// The layers of the first `p` projections sum to those projections.
proof fn projections_total(c: Config, p: int)
    requires
        0 <= p <= 7,
    ensures
        c.vocab_size as nat * c.dim as nat + total(projection_lens(c, p)) == offset(
            quantized_lens(c),
            p + 1,
        ),
    decreases p,
{
    if p > 0 {
        projections_total(c, p - 1);
        total_of_concat(
            projection_lens(c, p - 1),
            repeated(layer_lens(c)[p - 1], c.n_layers as nat),
        );
        total_of_repeated(layer_lens(c)[p - 1], c.n_layers as nat);
        layers_make_up_projections(c, p - 1);
    } else {
        reveal_with_fuel(offset, 2);
    }
}

/// The tensors of a v2 checkpoint hold exactly the quantized weights.
pub proof fn v2_tensor_sizes_sum(c: Config)
    ensures
        total(v2_lens(c)) == total(quantized_lens(c)),
{
    let emb = c.vocab_size as nat * c.dim as nat;
    projections_total(c, 7);
    reveal_with_fuel(offset, 2);
    total_of_concat(seq![emb], projection_lens(c, 7));
    assert(total(seq![emb]) == emb);
    if !c.shared_weights {
        total_of_concat(seq![emb] + projection_lens(c, 7), seq![emb]);
    } else {
        assert(v2_lens(c) =~= seq![emb] + projection_lens(c, 7));
    }
}

/// The matmul tensors of a weight view in storage order; the classifier is empty where it
/// shares the embedding.
pub open spec fn matmul_views<T>(w: Weights<'_, T>, c: Config) -> Seq<Seq<T>> {
    seq![
        w.token_embedding@,
        w.wq@,
        w.wk@,
        w.wv@,
        w.wo@,
        w.w1@,
        w.w2@,
        w.w3@,
        if c.shared_weights {
            Seq::empty()
        } else {
            w.wcls@
        },
    ]
}

/// The matmul tensors of a shaped weight view have the lengths of the quantized layout.
pub proof fn matmul_shapes<T>(w: Weights<'_, T>, c: Config)
    requires
        shaped(w, c),
    ensures
        lens_of(matmul_views(w, c)) == quantized_lens(c),
{
    assert(lens_of(matmul_views(w, c)) =~= quantized_lens(c));
}

/// Whether groups of `group_size` divide every quantized tensor.
pub open spec fn divides_tensors(c: Config, group_size: nat) -> bool {
    forall|i: int| 0 <= i < 9 ==> #[trigger] quantized_lens(c)[i] % group_size == 0
}

/// Quantize the matmul matrices of `w` into `data` and `scales`, in storage order: the
/// embedding, the seven projections, and a separate classifier. Each group is quantized by
/// `f`. Both buffers are filled completely.
pub fn quantize_weights<T: Copy, F: Fn(&[T]) -> (Vec<i8>, T)>(
    w: &Weights<'_, T>,
    data: &mut [i8],
    scales: &mut [T],
    group_size: usize,
    c: &Config,
    f: &F,
)
    requires
        group_size > 0,
        shaped(*w, *c),
        divides_tensors(*c, group_size as nat),
        old(data)@.len() == total(quantized_lens(*c)),
        old(scales)@.len() == total(quantized_lens(*c)) / group_size as nat,
        quantizes_groups(*f, group_size as nat),
    ensures
        final(data)@.len() == old(data)@.len(),
        final(scales)@.len() == old(scales)@.len(),
        forall|i: int|
            0 <= i < 9 ==> quantized_as(
                *f,
                #[trigger] matmul_views(*w, *c)[i],
                group_size as nat,
                part(final(data)@, quantized_lens(*c), i),
                part(final(scales)@, group_lens(quantized_lens(*c), group_size as nat), i),
            ),
{
    let classifier = if c.shared_weights {
        vstd::slice::slice_subrange(w.wcls, 0, 0)
    } else {
        w.wcls
    };
    let tensors = [
        w.token_embedding,
        w.wq,
        w.wk,
        w.wv,
        w.wo,
        w.w1,
        w.w2,
        w.w3,
        classifier,
    ];
    proof {
        matmul_shapes(*w, *c);
        groups_exact(quantized_lens(*c), group_size as nat, 9);
        assert(classifier@ =~= matmul_views(*w, *c)[8]);
        assert(contents(tensors@) =~= matmul_views(*w, *c));
        assert forall|i: int| 0 <= i < 9 implies (#[trigger] contents(tensors@)[i]).len()
            % group_size as nat == 0 by {
            assert(quantized_lens(*c)[i] % group_size as nat == 0);
            assert(lens_of(matmul_views(*w, *c))[i] == quantized_lens(*c)[i]);
        }
    }
    quantize_all(&tensors, data, scales, group_size, f);
}

/// Borrowed views of every Llama weight tensor, with the matmul weights quantized.
#[derive(Debug, Clone, Copy)]
pub struct QuantizedWeights<'a, S> {
    /// Token embedding table, `[vocab, dim]`.
    pub token_embedding: QuantizedTensor<'a, S>,
    /// Per-layer attention RMSNorm gains, `[n_layers, dim]`.
    pub rms_att: &'a [S],
    /// Query projection, `[n_layers, dim, att_dim]`.
    pub wq: QuantizedTensor<'a, S>,
    /// Key projection, `[n_layers, dim, kv_dim]`.
    pub wk: QuantizedTensor<'a, S>,
    /// Value projection, `[n_layers, dim, kv_dim]`.
    pub wv: QuantizedTensor<'a, S>,
    /// Attention output projection, `[n_layers, att_dim, dim]`.
    pub wo: QuantizedTensor<'a, S>,
    /// Per-layer feed-forward RMSNorm gains, `[n_layers, dim]`.
    pub rms_ffn: &'a [S],
    /// SwiGLU gate projection, `[n_layers, hidden, dim]`.
    pub w1: QuantizedTensor<'a, S>,
    /// SwiGLU down projection, `[n_layers, dim, hidden]`.
    pub w2: QuantizedTensor<'a, S>,
    /// SwiGLU up projection, `[n_layers, hidden, dim]`.
    pub w3: QuantizedTensor<'a, S>,
    /// Final RMSNorm gains, `[dim]`.
    pub rms_final: &'a [S],
    /// Output classifier, `[vocab, dim]`.
    pub wcls: QuantizedTensor<'a, S>,
}

/// Whether quantized weights are views of two flat buffers.
pub open spec fn views_parts<S>(
    w: QuantizedWeights<'_, S>,
    c: Config,
    data: Seq<i8>,
    scales: Seq<S>,
    group_size: nat,
) -> bool {
    let lens = quantized_lens(c);
    &&& data.len() >= total(lens) && scales.len() >= total(lens) / group_size
    &&& is_quantized_part(w.token_embedding, data, scales, lens, group_size, 0)
    &&& is_quantized_part(w.wq, data, scales, lens, group_size, 1)
    &&& is_quantized_part(w.wk, data, scales, lens, group_size, 2)
    &&& is_quantized_part(w.wv, data, scales, lens, group_size, 3)
    &&& is_quantized_part(w.wo, data, scales, lens, group_size, 4)
    &&& is_quantized_part(w.w1, data, scales, lens, group_size, 5)
    &&& is_quantized_part(w.w2, data, scales, lens, group_size, 6)
    &&& is_quantized_part(w.w3, data, scales, lens, group_size, 7)
    &&& if c.shared_weights {
        w.wcls == w.token_embedding
    } else {
        is_quantized_part(w.wcls, data, scales, lens, group_size, 8)
    }
}

impl<'a, S: Copy> QuantizedWeights<'a, S> {
    /// Assemble quantized weight views from the two flat buffers and the gains.
    ///
    /// The classifier is the embedding itself when weights are shared. Fails with
    /// [`EngineError::SizeMismatch`] if a buffer is shorter than required, and reports
    /// the lengths of the data buffer in either case.
    pub fn new(
        data: &'a [i8],
        scales: &'a [S],
        rms_att: &'a [S],
        rms_ffn: &'a [S],
        rms_final: &'a [S],
        group_size: usize,
        c: &Config,
    ) -> (r: Result<QuantizedWeights<'a, S>, EngineError>)
        requires
            c.n_heads > 0,
            group_size > 0,
        ensures
            ({
                let lens = quantized_lens(*c);
                let gs = group_size as nat;
                match r {
                    Ok(w) => {
                        &&& views_parts(w, *c, data@, scales@, gs)
                        &&& w.rms_att == rms_att && w.rms_ffn == rms_ffn && w.rms_final
                            == rms_final
                    },
                    Err(e) => {
                        &&& data@.len() < total(lens) || scales@.len() < total(lens) / gs
                        &&& e == EngineError::SizeMismatch {
                            expected: saturated(total(lens) as int),
                            actual: data@.len() as usize,
                        }
                    },
                }
            }),
    {
        let lens = quantized_lens_checked(c);
        let need = total_checked(&lens);
        let short: bool = match need.to_option() {
            Some(n) => data.len() < n || scales.len() < n / group_size,
            None => true,
        };
        if short {
            return Err(
                EngineError::SizeMismatch { expected: saturate(&need), actual: data.len() },
            );
        }
        let mut at: usize = 0;
        let mut scale_at: usize = 0;
        let token_embedding = quantized_part(data, scales, &lens, 0, group_size, &mut at, &mut scale_at);
        let wq = quantized_part(data, scales, &lens, 1, group_size, &mut at, &mut scale_at);
        let wk = quantized_part(data, scales, &lens, 2, group_size, &mut at, &mut scale_at);
        let wv = quantized_part(data, scales, &lens, 3, group_size, &mut at, &mut scale_at);
        let wo = quantized_part(data, scales, &lens, 4, group_size, &mut at, &mut scale_at);
        let w1 = quantized_part(data, scales, &lens, 5, group_size, &mut at, &mut scale_at);
        let w2 = quantized_part(data, scales, &lens, 6, group_size, &mut at, &mut scale_at);
        let w3 = quantized_part(data, scales, &lens, 7, group_size, &mut at, &mut scale_at);
        let wcls = if c.shared_weights {
            token_embedding
        } else {
            quantized_part(data, scales, &lens, 8, group_size, &mut at, &mut scale_at)
        };
        Ok(
            QuantizedWeights {
                token_embedding,
                rms_att,
                wq,
                wk,
                wv,
                wo,
                rms_ffn,
                w1,
                w2,
                w3,
                rms_final,
                wcls,
            },
        )
    }
}

} // verus!
