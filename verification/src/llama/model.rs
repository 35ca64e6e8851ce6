//! The forward pass of a llama2.c model: one token in, a row of logits out.
//!
//! Per layer: norm, query, key and value projections, rotary position embedding, the key
//! and value into the cache, causal attention over the cached positions, output projection
//! and residual; then norm, the gated feed-forward block, and residual. After the last
//! layer a final norm and the classifier.

use vstd::prelude::*;

use crate::kernels::{accumulate, attention_head, matmul, matmul_simd, rmsnorm, rope, silu};
#[allow(unused_imports)]
use crate::kernels::{
    added, attention_of, lane_product_sum, product_of, rmsnorm_of, rotated, rows_of, silu_of,
};
use crate::layout::copy_into;
#[allow(unused_imports)]
use crate::layout::{window, window_bounds, written};
use crate::llama::config::Config;
#[allow(unused_imports)]
use crate::llama::config::heads_make_up_the_dimension;
#[allow(unused_imports)]
use crate::llama::memory::cache_len;
use crate::llama::quantize::QuantizedWeights;
use crate::llama::state::RunState;
use crate::llama::weights::Weights;
#[allow(unused_imports)]
use crate::llama::weights::shaped;
use crate::math::{Kernel, KvHead};
use crate::q8::matmul_w8a8;
#[allow(unused_imports)]
use crate::q8::w8a8_product;
use crate::quant::{dequantize, QuantScratch, QuantizedTensor};
use crate::scalar::{eval, Scalar, ONE};
#[allow(unused_imports)]
use crate::scalar::{is_arithmetic, over, times, value};

verus! {

/// A projection.
#[derive(Debug, Clone, Copy, PartialEq, Eq, Structural)]
pub enum Proj {
    /// Query.
    Wq,
    /// Key.
    Wk,
    /// Value.
    Wv,
    /// Attention output.
    Wo,
    /// Feed-forward gate.
    W1,
    /// Feed-forward down.
    W2,
    /// Feed-forward up.
    W3,
    /// Classifier: one matrix, layer zero.
    Wcls,
}

impl Proj {
    /// Input and output dimension.
    pub open spec fn dims(self, c: Config) -> (nat, nat) {
        let dim = c.dim as nat;
        let hidden = c.hidden_dim as nat;
        match self {
            Proj::Wq => (dim, c.att_dim_spec()),
            Proj::Wk => (dim, c.kv_dim_spec()),
            Proj::Wv => (dim, c.kv_dim_spec()),
            Proj::Wo => (c.att_dim_spec(), dim),
            Proj::W1 => (dim, hidden),
            Proj::W2 => (hidden, dim),
            Proj::W3 => (dim, hidden),
            Proj::Wcls => (dim, c.vocab_size as nat),
        }
    }

    /// Elements of one layer's matrix.
    pub open spec fn size(self, c: Config) -> nat {
        self.dims(c).1 * self.dims(c).0
    }

    /// How many matrices there are.
    pub open spec fn layers(self, c: Config) -> nat {
        match self {
            Proj::Wcls => 1,
            _ => c.n_layers as nat,
        }
    }

    /// Input and output dimension of this projection.
    pub fn shape(self, c: &Config) -> (r: (usize, usize))
        requires
            c.valid(),
        ensures
            r.0 == self.dims(*c).0,
            r.1 == self.dims(*c).1,
    {
        proof {
            heads_make_up_the_dimension(*c);
        }
        let att_dim: usize = c.n_heads * c.head_size();
        let kv_dim: usize = c.kv_dim();
        match self {
            Proj::Wq => (c.dim, att_dim),
            Proj::Wk => (c.dim, kv_dim),
            Proj::Wv => (c.dim, kv_dim),
            Proj::Wo => (att_dim, c.dim),
            Proj::W1 => (c.dim, c.hidden_dim),
            Proj::W2 => (c.hidden_dim, c.dim),
            Proj::W3 => (c.dim, c.hidden_dim),
            Proj::Wcls => (c.dim, c.vocab_size),
        }
    }
}

/// A model's weights, in full precision or quantized.
#[derive(Debug, Clone, Copy)]
pub enum ModelWeights<'a> {
    /// Full precision.
    F32(Weights<'a, u32>),
    /// Quantized.
    Q8(QuantizedWeights<'a, u32>),
}

/// The full-precision tensor of a projection.
pub open spec fn full_tensor(w: Weights<'_, u32>, p: Proj) -> Seq<u32> {
    match p {
        Proj::Wq => w.wq@,
        Proj::Wk => w.wk@,
        Proj::Wv => w.wv@,
        Proj::Wo => w.wo@,
        Proj::W1 => w.w1@,
        Proj::W2 => w.w2@,
        Proj::W3 => w.w3@,
        Proj::Wcls => w.wcls@,
    }
}

/// The full-precision tensor of a projection.
pub fn f32_proj<'a>(w: &Weights<'a, u32>, p: Proj) -> (r: &'a [u32])
    ensures
        r@ == full_tensor(*w, p),
{
    match p {
        Proj::Wq => w.wq,
        Proj::Wk => w.wk,
        Proj::Wv => w.wv,
        Proj::Wo => w.wo,
        Proj::W1 => w.w1,
        Proj::W2 => w.w2,
        Proj::W3 => w.w3,
        Proj::Wcls => w.wcls,
    }
}

/// The quantized tensor of a projection.
#[verifier::allow_in_spec]
pub fn q8_proj<'a>(w: QuantizedWeights<'a, u32>, p: Proj) -> QuantizedTensor<'a, u32>
    returns
        (match p {
            Proj::Wq => w.wq,
            Proj::Wk => w.wk,
            Proj::Wv => w.wv,
            Proj::Wo => w.wo,
            Proj::W1 => w.w1,
            Proj::W2 => w.w2,
            Proj::W3 => w.w3,
            Proj::Wcls => w.wcls,
        }),
{
    match p {
        Proj::Wq => w.wq,
        Proj::Wk => w.wk,
        Proj::Wv => w.wv,
        Proj::Wo => w.wo,
        Proj::W1 => w.w1,
        Proj::W2 => w.w2,
        Proj::W3 => w.w3,
        Proj::Wcls => w.wcls,
    }
}

/// Whether a quantized tensor has `n` values in groups of `group_size`.
pub open spec fn tensor_shaped(t: QuantizedTensor<'_, u32>, n: nat, group_size: usize) -> bool {
    &&& t.group_size == group_size
    &&& t.data@.len() == n
    &&& t.scales@.len() == n / group_size as nat
}

/// Whether groups of `group_size` fit every row.
pub open spec fn groups_fit_rows(c: Config, group_size: usize) -> bool {
    0 < group_size < 0x2_0000 && c.dim % group_size == 0 && c.hidden_dim % group_size == 0
}

impl<'a> ModelWeights<'a> {
    /// Whether the weights are those of a config.
    pub open spec fn fits(self, c: Config) -> bool {
        let dim = c.dim as nat;
        match self {
            ModelWeights::F32(w) => shaped(w, c),
            ModelWeights::Q8(w) => {
                let gs = w.wq.group_size;
                &&& groups_fit_rows(c, gs)
                &&& tensor_shaped(w.token_embedding, c.vocab_size as nat * dim, gs)
                &&& forall|p: Proj|
                    tensor_shaped(#[trigger] q8_proj(w, p), p.layers(c) * p.size(c), gs)
                &&& w.rms_att@.len() == c.n_layers as nat * dim
                &&& w.rms_ffn@.len() == c.n_layers as nat * dim
                &&& w.rms_final@.len() == dim
            },
        }
    }

    /// Whether a scratch is there for quantized activations.
    pub open spec fn scratch_ready(self, c: Config, qs: Option<QuantScratch<'_, u32>>) -> bool {
        self is Q8 ==> {
            &&& qs is Some
            &&& qs.unwrap().xq@.len() >= c.dim && qs.unwrap().xq@.len() >= c.hidden_dim
            &&& qs.unwrap().scales@.len() >= c.dim && qs.unwrap().scales@.len() >= c.hidden_dim
            &&& qs.unwrap().gsums@.len() >= c.dim && qs.unwrap().gsums@.len() >= c.hidden_dim
        }
    }

    /// Attention norm gains of all layers.
    pub open spec fn rms_att_spec(self) -> Seq<u32> {
        match self {
            ModelWeights::F32(w) => w.rms_att@,
            ModelWeights::Q8(w) => w.rms_att@,
        }
    }

    /// Feed-forward norm gains of all layers.
    pub open spec fn rms_ffn_spec(self) -> Seq<u32> {
        match self {
            ModelWeights::F32(w) => w.rms_ffn@,
            ModelWeights::Q8(w) => w.rms_ffn@,
        }
    }

    /// Final norm gains.
    pub open spec fn rms_final_spec(self) -> Seq<u32> {
        match self {
            ModelWeights::F32(w) => w.rms_final@,
            ModelWeights::Q8(w) => w.rms_final@,
        }
    }

    /// Attention norm gains of all layers.
    pub fn rms_att(&self) -> (r: &'a [u32])
        ensures
            r@ == self.rms_att_spec(),
    {
        match self {
            ModelWeights::F32(w) => w.rms_att,
            ModelWeights::Q8(w) => w.rms_att,
        }
    }

    /// Feed-forward norm gains of all layers.
    pub fn rms_ffn(&self) -> (r: &'a [u32])
        ensures
            r@ == self.rms_ffn_spec(),
    {
        match self {
            ModelWeights::F32(w) => w.rms_ffn,
            ModelWeights::Q8(w) => w.rms_ffn,
        }
    }

    /// Final norm gains.
    pub fn rms_final(&self) -> (r: &'a [u32])
        ensures
            r@ == self.rms_final_spec(),
    {
        match self {
            ModelWeights::F32(w) => w.rms_final,
            ModelWeights::Q8(w) => w.rms_final,
        }
    }

    /// The embedding of a token: its row, or its row with every value times its scale.
    pub open spec fn embedding<A: Fn(Scalar) -> u32>(self, a: A, token: int, dim: nat) -> Seq<u32> {
        match self {
            ModelWeights::F32(w) => window(w.token_embedding@, token, dim as int),
            ModelWeights::Q8(w) => {
                let t = w.token_embedding;
                let gs = t.group_size as nat;
                let row = window(t.data@, token, dim as int);
                let scales = window(t.scales@, token, (dim / gs) as int);
                Seq::new(
                    dim,
                    |k: int| times(a, value(a, Scalar::Int(row[k] as i32)), scales[k / gs as int]),
                )
            },
        }
    }

    /// What a projection of layer `l` makes of `x`.
    pub open spec fn projected<A: Fn(Scalar) -> u32>(
        self,
        a: A,
        c: Config,
        kernel: Kernel,
        p: Proj,
        l: int,
        x: Seq<u32>,
    ) -> Seq<u32> {
        let (d_in, d_out) = p.dims(c);
        let n = p.size(c);
        match self {
            ModelWeights::F32(w) => {
                let m = window(full_tensor(w, p), l, n as int);
                match kernel {
                    Kernel::Scalar => product_of(a, m, x, d_in as int, d_out),
                    _ => Seq::new(
                        d_out,
                        |i: int| lane_product_sum(a, m, i * d_in, x, 0, d_in as int),
                    ),
                }
            },
            ModelWeights::Q8(w) => {
                let t = q8_proj(w, p);
                let gs = t.group_size as nat;
                w8a8_product(
                    a,
                    window(t.data@, l, n as int),
                    window(t.scales@, l, (n / gs) as int),
                    gs as int,
                    x,
                    d_in as int,
                    d_out,
                )
            },
        }
    }
}

/// A full-precision tensor is its layers' matrices.
proof fn full_tensor_len(w: Weights<'_, u32>, c: Config, p: Proj)
    requires
        shaped(w, c),
    ensures
        full_tensor(w, p).len() == p.layers(c) * p.size(c),
{
    let l = c.n_layers as nat;
    let d = c.dim as nat;
    let h = c.hidden_dim as nat;
    let a = c.att_dim_spec();
    let k = c.kv_dim_spec();
    let v = c.vocab_size as nat;
    assert(l * d * a == l * (a * d)) by (nonlinear_arith);
    assert(l * d * k == l * (k * d)) by (nonlinear_arith);
    assert(l * a * d == l * (d * a)) by (nonlinear_arith);
    assert(l * h * d == l * (h * d)) by (nonlinear_arith);
    assert(l * d * h == l * (d * h)) by (nonlinear_arith);
    assert(1 * (v * d) == v * d) by (nonlinear_arith);
}

/// The groups of a row fit the groups of a matrix, and those the groups of a tensor.
proof fn groups_of_layers(layers: nat, d_in: nat, d_out: nat, group_size: nat)
    requires
        group_size > 0,
        d_in % group_size == 0,
    ensures
        (d_out * d_in) / group_size == d_out * (d_in / group_size),
        (layers * (d_out * d_in)) / group_size == layers * ((d_out * d_in) / group_size),
{
    let g = d_in / group_size;
    assert(d_in == g * group_size) by (nonlinear_arith)
        requires
            group_size > 0,
            d_in % group_size == 0,
            g == d_in / group_size,
    ;
    assert((d_out * d_in) / group_size == d_out * g) by (nonlinear_arith)
        requires
            group_size > 0,
            d_in == g * group_size,
    ;
    assert((layers * (d_out * d_in)) / group_size == layers * (d_out * g)) by (nonlinear_arith)
        requires
            group_size > 0,
            d_in == g * group_size,
    ;
}

/// Whether a row length is that of some projection, and groups fit it.
proof fn groups_fit_projections(c: Config, p: Proj, group_size: usize)
    requires
        c.valid(),
        groups_fit_rows(c, group_size),
    ensures
        p.dims(c).0 % group_size as nat == 0,
        p.dims(c).0 <= c.dim || p.dims(c).0 <= c.hidden_dim,
{
    heads_make_up_the_dimension(c);
}

impl<'a> ModelWeights<'a> {
    /// Write a token's embedding into `out`.
    pub fn embed<A: Fn(Scalar) -> u32>(&self, c: &Config, token: usize, out: &mut [u32], a: &A)
        requires
            is_arithmetic(*a),
            c.valid(),
            self.fits(*c),
            token < c.vocab_size,
            old(out)@.len() == c.dim,
        ensures
            final(out)@ == self.embedding(*a, token as int, c.dim as nat),
            final(out)@.len() == c.dim,
    {
        let dim: usize = c.dim;
        proof {
            window_bounds(c.vocab_size as nat, token as int, dim as nat);
        }
        match self {
            ModelWeights::F32(w) => {
                let table = w.token_embedding;
                proof {
                    assert(table.len() == table@.len());
                }
                let row = vstd::slice::slice_subrange(table, token * dim, token * dim + dim);
                copy_into(out, 0, row);
                proof {
                    assert(out@ =~= row@);
                }
            },
            ModelWeights::Q8(w) => {
                let gs: usize = w.token_embedding.group_size;
                let ghost n = dim as nat / gs as nat;
                proof {
                    groups_of_layers(c.vocab_size as nat, dim as nat, 1, gs as nat);
                    assert(1 * dim == dim);
                    window_bounds(c.vocab_size as nat, token as int, n);
                }
                let row = w.token_embedding.layer(token, 1, dim);
                proof {
                    assert(row.data@ =~= window(w.token_embedding.data@, token as int, dim as int));
                    assert(row.scales@ =~= window(
                        w.token_embedding.scales@,
                        token as int,
                        n as int,
                    ));
                    assert(dim <= n * gs) by (nonlinear_arith)
                        requires
                            gs > 0,
                            dim as nat % gs as nat == 0,
                            n == dim as nat / gs as nat,
                    ;
                }
                let f = |v: i8, s: u32| -> (r: u32)
                    ensures
                        r == times(*a, value(*a, Scalar::Int(v as i32)), s),
                    {
                        let i: u32 = eval(a, Scalar::Int(v as i32));
                        eval(a, Scalar::Mul(i, s))
                    };
                dequantize(out, &row, &f);
                proof {
                    let embedded = self.embedding(*a, token as int, dim as nat);
                    assert forall|k: int| 0 <= k < dim implies #[trigger] out@[k] == embedded[k] by {
                        assert(call_ensures(
                            f,
                            (row.data@[k], row.scales@[k / row.group_size as int]),
                            out@[k],
                        ));
                    }
                    assert(out@ =~= embedded);
                }
            },
        }
    }

    /// Apply a projection of layer `l`: `out = W x`. Full precision knows no dot-product
    /// kernel and uses the lanes for it; quantized weights give the same with every kernel,
    /// and need the scratch.
    pub fn matmul<A: Fn(Scalar) -> u32>(
        &self,
        p: Proj,
        l: usize,
        out: &mut [u32],
        x: &[u32],
        c: &Config,
        kernel: Kernel,
        qs: &mut Option<QuantScratch<'_, u32>>,
        a: &A,
    )
        requires
            is_arithmetic(*a),
            c.valid(),
            self.fits(*c),
            l < p.layers(*c),
            old(out)@.len() == p.dims(*c).1,
            x@.len() == p.dims(*c).0,
            self.scratch_ready(*c, *old(qs)),
        ensures
            final(out)@ == self.projected(*a, *c, kernel, p, l as int, x@),
            self.scratch_ready(*c, *final(qs)),
    {
        let (d_in, d_out) = p.shape(c);
        proof {
            window_bounds(p.layers(*c), l as int, p.size(*c));
        }
        match self {
            ModelWeights::F32(w) => {
                let tensor = f32_proj(w, p);
                proof {
                    full_tensor_len(*w, *c, p);
                    assert(tensor.len() == tensor@.len());
                }
                let n: usize = d_out * d_in;
                let m = vstd::slice::slice_subrange(tensor, l * n, l * n + n);
                match kernel {
                    Kernel::Scalar => matmul(out, x, m, d_in, d_out, a),
                    _ => matmul_simd(out, x, m, d_in, d_out, a),
                }
            },
            ModelWeights::Q8(w) => {
                let t = q8_proj(*w, p);
                let ghost gs = t.group_size as nat;
                proof {
                    assert(tensor_shaped(q8_proj(*w, p), p.layers(*c) * p.size(*c), w.wq.group_size));
                    groups_fit_projections(*c, p, t.group_size);
                    groups_of_layers(p.layers(*c), d_in as nat, d_out as nat, gs);
                    window_bounds(p.layers(*c), l as int, p.size(*c) / gs);
                    let data = t.data;
                    assert(data.len() == data@.len());
                    assert(d_in as nat / gs <= d_in) by (nonlinear_arith)
                        requires
                            gs > 0,
                    ;
                }
                let m = t.layer(l, d_out, d_in);
                if let Some(scratch) = qs {
                    matmul_w8a8(kernel, out, x, &m, d_in, d_out, scratch, a);
                }
                proof {
                    assert(m.data@ =~= window(t.data@, l as int, p.size(*c) as int));
                    assert(m.scales@ =~= window(t.scales@, l as int, (p.size(*c) / gs) as int));
                }
            },
        }
    }
}

/// The cached rows of one layer.
pub open spec fn layer_cache(c: Config, cache: Seq<u32>, l: int) -> Seq<u32> {
    window(cache, l, (c.seq_len as nat * c.kv_dim_spec()) as int)
}

/// What query head `h` attends to at `pos`: the rows up to `pos` of the key/value head that
/// it shares.
pub open spec fn head_output<A: Fn(Scalar) -> u32>(
    a: A,
    c: Config,
    q: Seq<u32>,
    keys: Seq<u32>,
    values: Seq<u32>,
    pos: int,
    h: int,
) -> Seq<u32> {
    let size = c.head_size_spec() as int;
    let kv_dim = c.kv_dim_spec() as int;
    let shared = h / (c.n_heads as int / c.n_kv_heads as int);
    attention_of(
        a,
        window(q, h, size),
        rows_of(keys, kv_dim, shared * size, size, (pos + 1) as nat),
        rows_of(values, kv_dim, shared * size, size, (pos + 1) as nat),
        score_scale(a, c),
    )
}

/// One over the root of the head size.
pub open spec fn score_scale<A: Fn(Scalar) -> u32>(a: A, c: Config) -> u32 {
    over(a, ONE, value(a, Scalar::Sqrt(value(a, Scalar::Count(c.head_size_spec() as usize)))))
}

/// What the first `n` heads attend to, side by side.
pub open spec fn head_outputs<A: Fn(Scalar) -> u32>(
    a: A,
    c: Config,
    q: Seq<u32>,
    keys: Seq<u32>,
    values: Seq<u32>,
    pos: int,
    n: int,
) -> Seq<u32>
    decreases n,
{
    if n <= 0 {
        Seq::empty()
    } else {
        head_outputs(a, c, q, keys, values, pos, n - 1) + head_output(
            a,
            c,
            q,
            keys,
            values,
            pos,
            n - 1,
        )
    }
}

/// The head of a query lies within it, and the key/value head that it shares within a row.
proof fn head_bounds(c: Config, h: int, pos: int, t: int)
    requires
        c.valid(),
        0 <= h < c.n_heads,
        0 <= t <= pos < c.seq_len,
    ensures
        ({
            let size = c.head_size_spec() as int;
            let kv_dim = c.kv_dim_spec() as int;
            let mul = c.n_heads as int / c.n_kv_heads as int;
            let shared = h / mul;
            &&& mul > 0
            &&& 0 <= h * size && h * size + size <= c.dim
            &&& 0 <= shared < c.n_kv_heads
            &&& 0 <= shared * size && shared * size + size <= kv_dim
            &&& 0 <= t * kv_dim
            &&& t * kv_dim + shared * size + size <= c.seq_len * kv_dim
            &&& 0 <= h * c.seq_len && h * c.seq_len + c.seq_len <= c.n_heads * c.seq_len
        }),
{
    heads_make_up_the_dimension(c);
    let size = c.head_size_spec() as int;
    let kv_dim = c.kv_dim_spec() as int;
    let n = c.n_heads as int;
    let k = c.n_kv_heads as int;
    let mul = n / k;
    assert(mul > 0 && k * mul == n) by (nonlinear_arith)
        requires
            n > 0,
            k > 0,
            n % k == 0,
            mul == n / k,
    ;
    let shared = h / mul;
    assert(0 <= shared < k) by (nonlinear_arith)
        requires
            mul > 0,
            0 <= h < k * mul,
            shared == h / mul,
    ;
    window_bounds(c.n_heads as nat, h, size as nat);
    window_bounds(c.n_kv_heads as nat, shared, size as nat);
    window_bounds(c.seq_len as nat, t, kv_dim as nat);
    window_bounds(c.n_heads as nat, h, c.seq_len as nat);
}

/// Attend with every query head: `out` gets the heads' outputs side by side. `keys` and
/// `values` are the cached rows of one layer.
fn attend<A: Fn(Scalar) -> u32>(
    out: &mut [u32],
    q: &[u32],
    keys: &[u32],
    values: &[u32],
    att: &mut [u32],
    c: &Config,
    pos: usize,
    a: &A,
)
    requires
        is_arithmetic(*a),
        c.valid(),
        pos < c.seq_len,
        old(out)@.len() == c.dim,
        q@.len() == c.dim,
        keys@.len() == c.seq_len * c.kv_dim_spec(),
        values@.len() == c.seq_len * c.kv_dim_spec(),
        old(att)@.len() == c.n_heads * c.seq_len,
    ensures
        final(out)@ == head_outputs(
            *a,
            *c,
            q@,
            keys@,
            values@,
            pos as int,
            c.n_heads as int,
        ),
        final(out)@.len() == c.dim,
        final(att)@.len() == old(att)@.len(),
{
    proof {
        heads_make_up_the_dimension(*c);
        assert(keys.len() == keys@.len() && att.len() == att@.len());
    }
    let size: usize = c.head_size();
    let kv_dim: usize = c.kv_dim();
    let kv_mul: usize = c.kv_mul();
    let n: u32 = eval(a, Scalar::Count(size));
    let root: u32 = eval(a, Scalar::Sqrt(n));
    let scale: u32 = eval(a, Scalar::Div(ONE, root));
    let mut h: usize = 0;
    proof {
        assert(0 * size == 0) by (nonlinear_arith);
        assert(out@.take(0) =~= Seq::<u32>::empty());
    }
    while h < c.n_heads
        invariant
            h <= c.n_heads,
            is_arithmetic(*a),
            c.valid(),
            pos < c.seq_len,
            size == c.head_size_spec(),
            kv_dim == c.kv_dim_spec(),
            kv_mul == c.n_heads as int / c.n_kv_heads as int,
            scale == score_scale(*a, *c),
            out@.len() == c.dim,
            q@.len() == c.dim,
            keys@.len() == c.seq_len * c.kv_dim_spec(),
            values@.len() == c.seq_len * c.kv_dim_spec(),
            att@.len() == c.n_heads * c.seq_len,
            att@.len() == old(att)@.len(),
            att@.len() <= usize::MAX,
            0 <= h * size <= c.dim,
            out@.take(h * size) == head_outputs(
                *a,
                *c,
                q@,
                keys@,
                values@,
                pos as int,
                h as int,
            ),
        decreases c.n_heads - h,
    {
        proof {
            head_bounds(*c, h as int, pos as int, 0);
            assert((h + 1) * size == h * size + size) by (nonlinear_arith);
        }
        let at: usize = h * size;
        let row: usize = h * c.seq_len;
        let shared: usize = h / kv_mul;
        let q_head = vstd::slice::slice_subrange(q, at, at + size);
        let kv = KvHead { keys, values, stride: kv_dim, head_off: shared * size };
        proof {
            assert forall|t: int| 0 <= t < pos + 1 implies #[trigger] kv.holds(
                t,
                q_head@.len() as int,
            ) by {
                head_bounds(*c, h as int, pos as int, t);
            }
        }
        let ghost before = out@;
        let (_, tail) = out.split_at_mut(at);
        let (head, _) = tail.split_at_mut(size);
        let (_, scores) = att.split_at_mut(row);
        attention_head(head, q_head, &kv, pos + 1, scale, scores, a);
        proof {
            let made = head_output(*a, *c, q@, keys@, values@, pos as int, h as int);
            assert(q_head@ =~= window(q@, h as int, size as int));
            assert(out@.take((h + 1) * size) =~= before.take(h * size) + made);
        }
        h = h + 1;
    }
    proof {
        assert(c.n_heads * size == c.dim);
        assert(out@.take(c.dim as int) =~= out@);
    }
}

/// What a forward pass carries from layer to layer.
pub struct Flow {
    /// The residual stream.
    pub x: Seq<u32>,
    /// The key cache.
    pub keys: Seq<u32>,
    /// The value cache.
    pub values: Seq<u32>,
}

/// Where the cached row of a position begins.
pub open spec fn cache_row(c: Config, l: int, pos: int) -> int {
    l * (c.seq_len as nat * c.kv_dim_spec()) as int + pos * c.kv_dim_spec() as int
}

/// The gated products of the feed-forward block.
pub open spec fn gated<A: Fn(Scalar) -> u32>(a: A, gate: Seq<u32>, up: Seq<u32>) -> Seq<u32> {
    Seq::new(gate.len(), |i: int| times(a, silu_of(a, gate[i]), up[i]))
}

/// The stream and the caches after the attention block of layer `l`.
pub open spec fn after_attention<A: Fn(Scalar) -> u32>(
    a: A,
    c: Config,
    w: ModelWeights<'_>,
    kernel: Kernel,
    pos: usize,
    l: int,
    f: Flow,
) -> Flow {
    let size = c.head_size_spec() as usize;
    let normed = rmsnorm_of(a, f.x, window(w.rms_att_spec(), l, c.dim as int));
    let q = rotated(a, w.projected(a, c, kernel, Proj::Wq, l, normed), pos, size);
    let k = rotated(a, w.projected(a, c, kernel, Proj::Wk, l, normed), pos, size);
    let v = w.projected(a, c, kernel, Proj::Wv, l, normed);
    let keys = written(f.keys, cache_row(c, l, pos as int), k);
    let values = written(f.values, cache_row(c, l, pos as int), v);
    let heads = head_outputs(
        a,
        c,
        q,
        layer_cache(c, keys, l),
        layer_cache(c, values, l),
        pos as int,
        c.n_heads as int,
    );
    let x = added(a, f.x, w.projected(a, c, kernel, Proj::Wo, l, heads));
    Flow { x, keys, values }
}

/// The stream after the feed-forward block of layer `l`.
pub open spec fn after_feed_forward<A: Fn(Scalar) -> u32>(
    a: A,
    c: Config,
    w: ModelWeights<'_>,
    kernel: Kernel,
    l: int,
    x: Seq<u32>,
) -> Seq<u32> {
    let normed = rmsnorm_of(a, x, window(w.rms_ffn_spec(), l, c.dim as int));
    let hidden = gated(
        a,
        w.projected(a, c, kernel, Proj::W1, l, normed),
        w.projected(a, c, kernel, Proj::W3, l, normed),
    );
    added(a, x, w.projected(a, c, kernel, Proj::W2, l, hidden))
}

/// The stream and the caches after the first `n` layers.
pub open spec fn after_layers<A: Fn(Scalar) -> u32>(
    a: A,
    c: Config,
    w: ModelWeights<'_>,
    kernel: Kernel,
    pos: usize,
    f: Flow,
    n: int,
) -> Flow
    decreases n,
{
    if n <= 0 {
        f
    } else {
        let before = after_layers(a, c, w, kernel, pos, f, n - 1);
        let mid = after_attention(a, c, w, kernel, pos, n - 1, before);
        Flow { x: after_feed_forward(a, c, w, kernel, n - 1, mid.x), ..mid }
    }
}

/// The logits of a stream: the final norm, then the classifier.
pub open spec fn logits_of<A: Fn(Scalar) -> u32>(
    a: A,
    c: Config,
    w: ModelWeights<'_>,
    kernel: Kernel,
    x: Seq<u32>,
) -> Seq<u32> {
    w.projected(a, c, kernel, Proj::Wcls, 0, rmsnorm_of(a, x, w.rms_final_spec()))
}

/// The gated products in place: `gate[i] = silu(gate[i]) * up[i]`.
fn apply_gate<A: Fn(Scalar) -> u32>(gate: &mut [u32], up: &[u32], a: &A)
    requires
        is_arithmetic(*a),
        old(gate)@.len() == up@.len(),
    ensures
        final(gate)@ == gated(*a, old(gate)@, up@),
{
    let ghost start = gate@;
    let n: usize = up.len();
    let mut i: usize = 0;
    while i < n
        invariant
            i <= n,
            n == up@.len(),
            n == gate@.len(),
            n == start.len(),
            is_arithmetic(*a),
            forall|k: int|
                0 <= k < i ==> #[trigger] gate@[k] == times(*a, silu_of(*a, start[k]), up@[k]),
            forall|k: int| i <= k < n ==> #[trigger] gate@[k] == start[k],
        decreases n - i,
    {
        let s: u32 = silu(gate[i], a);
        let g: u32 = eval(a, Scalar::Mul(s, up[i]));
        gate[i] = g;
        i = i + 1;
    }
    proof {
        assert(gate@ =~= gated(*a, start, up@));
    }
}

/// The cached row of a position lies within its layer, and the layer within the cache.
proof fn cache_bounds(c: Config, l: int, pos: int)
    requires
        0 <= l < c.n_layers,
        0 <= pos < c.seq_len,
    ensures
        ({
            let rows = (c.seq_len as nat * c.kv_dim_spec()) as int;
            let kv_dim = c.kv_dim_spec() as int;
            &&& cache_len(c) == c.n_layers * rows
            &&& 0 <= l * rows && l * rows + rows <= c.n_layers * rows
            &&& 0 <= pos * kv_dim && pos * kv_dim + kv_dim <= rows
        }),
{
    let rows = c.seq_len as nat * c.kv_dim_spec();
    window_bounds(c.n_layers as nat, l, rows);
    window_bounds(c.seq_len as nat, pos, c.kv_dim_spec());
    let (n, s, k) = (c.n_layers as nat, c.seq_len as nat, c.kv_dim_spec());
    assert(n * s * k == n * (s * k)) by (nonlinear_arith);
}

/// The attention block of layer `l`, in place: `x` gets the residual, and the caches the
/// key and value of this position.
fn attention_block<A: Fn(Scalar) -> u32>(
    c: &Config,
    w: &ModelWeights<'_>,
    l: usize,
    pos: usize,
    kernel: Kernel,
    x: &mut [u32],
    xb: &mut [u32],
    xb2: &mut [u32],
    q: &mut [u32],
    att: &mut [u32],
    key_cache: &mut [u32],
    value_cache: &mut [u32],
    qs: &mut Option<QuantScratch<'_, u32>>,
    a: &A,
)
    requires
        is_arithmetic(*a),
        c.valid(),
        w.fits(*c),
        w.scratch_ready(*c, *old(qs)),
        c.dim % 2 == 0,
        c.kv_dim_spec() % 2 == 0,
        l < c.n_layers,
        pos < c.seq_len,
        old(x)@.len() == c.dim,
        old(xb)@.len() == c.dim,
        old(xb2)@.len() == c.dim,
        old(q)@.len() == c.dim,
        old(att)@.len() == c.n_heads * c.seq_len,
        old(key_cache)@.len() == cache_len(*c),
        old(value_cache)@.len() == cache_len(*c),
    ensures
        w.scratch_ready(*c, *final(qs)),
        ({
            let before = Flow { x: old(x)@, keys: old(key_cache)@, values: old(value_cache)@ };
            let after = after_attention(*a, *c, *w, kernel, pos, l as int, before);
            &&& final(x)@ == after.x
            &&& final(key_cache)@ == after.keys
            &&& final(value_cache)@ == after.values
        }),
        final(x)@.len() == c.dim,
        final(xb)@.len() == c.dim,
        final(xb2)@.len() == c.dim,
        final(q)@.len() == c.dim,
        final(att)@.len() == old(att)@.len(),
        final(key_cache)@.len() == cache_len(*c),
        final(value_cache)@.len() == cache_len(*c),
{
    let ghost before = Flow { x: x@, keys: key_cache@, values: value_cache@ };
    let ghost size = c.head_size_spec() as usize;
    let dim: usize = c.dim;
    proof {
        heads_make_up_the_dimension(*c);
        cache_bounds(*c, l as int, pos as int);
        window_bounds(c.n_layers as nat, l as int, dim as nat);
        assert(key_cache.len() == key_cache@.len());
    }
    let kv_dim: usize = c.kv_dim();
    let gains = w.rms_att();
    proof {
        assert(gains.len() == gains@.len());
    }
    let gain = vstd::slice::slice_subrange(gains, l * dim, l * dim + dim);
    rmsnorm(xb, x, gain, a);
    let ghost normed = xb@;
    proof {
        assert(gain@ =~= window(w.rms_att_spec(), l as int, dim as int));
    }
    let rows: usize = c.seq_len * kv_dim;
    let row: usize = l * rows + pos * kv_dim;
    w.matmul(Proj::Wq, l, q, xb, c, kernel, qs, a);
    let ghost q_flat = q@;
    {
        let (_, tail) = key_cache.split_at_mut(row);
        let (krow, _) = tail.split_at_mut(kv_dim);
        w.matmul(Proj::Wk, l, krow, xb, c, kernel, qs, a);
        let ghost k_flat = krow@;
        rope(q, krow, pos, c.head_size(), dim, kv_dim, a);
        proof {
            assert(q_flat.take(dim as int) =~= q_flat);
            assert(k_flat.take(kv_dim as int) =~= k_flat);
            assert(q@ =~= rotated(*a, q_flat, pos, size));
            assert(krow@ =~= rotated(*a, k_flat, pos, size));
        }
    }
    {
        let (_, tail) = value_cache.split_at_mut(row);
        let (vrow, _) = tail.split_at_mut(kv_dim);
        w.matmul(Proj::Wv, l, vrow, xb, c, kernel, qs, a);
    }
    let ghost k = rotated(
        *a,
        w.projected(*a, *c, kernel, Proj::Wk, l as int, normed),
        pos,
        size,
    );
    let ghost v = w.projected(*a, *c, kernel, Proj::Wv, l as int, normed);
    proof {
        assert(row == cache_row(*c, l as int, pos as int));
        assert(key_cache@ =~= written(before.keys, row as int, k));
        assert(value_cache@ =~= written(before.values, row as int, v));
    }
    let keys = vstd::slice::slice_subrange(key_cache, l * rows, l * rows + rows);
    let values = vstd::slice::slice_subrange(value_cache, l * rows, l * rows + rows);
    attend(xb, q, keys, values, att, c, pos, a);
    proof {
        assert(keys@ =~= layer_cache(*c, key_cache@, l as int));
        assert(values@ =~= layer_cache(*c, value_cache@, l as int));
    }
    w.matmul(Proj::Wo, l, xb2, xb, c, kernel, qs, a);
    accumulate(x, xb2, a);
}

/// The feed-forward block of layer `l`, in place.
fn feed_forward_block<A: Fn(Scalar) -> u32>(
    c: &Config,
    w: &ModelWeights<'_>,
    l: usize,
    kernel: Kernel,
    x: &mut [u32],
    xb: &mut [u32],
    hb: &mut [u32],
    hb2: &mut [u32],
    qs: &mut Option<QuantScratch<'_, u32>>,
    a: &A,
)
    requires
        is_arithmetic(*a),
        c.valid(),
        w.fits(*c),
        w.scratch_ready(*c, *old(qs)),
        l < c.n_layers,
        old(x)@.len() == c.dim,
        old(xb)@.len() == c.dim,
        old(hb)@.len() == c.hidden_dim,
        old(hb2)@.len() == c.hidden_dim,
    ensures
        w.scratch_ready(*c, *final(qs)),
        final(x)@ == after_feed_forward(*a, *c, *w, kernel, l as int, old(x)@),
        final(x)@.len() == c.dim,
        final(xb)@.len() == c.dim,
        final(hb)@.len() == c.hidden_dim,
        final(hb2)@.len() == c.hidden_dim,
{
    let dim: usize = c.dim;
    let gains = w.rms_ffn();
    proof {
        window_bounds(c.n_layers as nat, l as int, dim as nat);
        assert(gains.len() == gains@.len());
    }
    let gain = vstd::slice::slice_subrange(gains, l * dim, l * dim + dim);
    rmsnorm(xb, x, gain, a);
    proof {
        assert(gain@ =~= window(w.rms_ffn_spec(), l as int, dim as int));
    }
    w.matmul(Proj::W1, l, hb, xb, c, kernel, qs, a);
    w.matmul(Proj::W3, l, hb2, xb, c, kernel, qs, a);
    apply_gate(hb, hb2, a);
    w.matmul(Proj::W2, l, xb, hb, c, kernel, qs, a);
    accumulate(x, xb, a);
}

/// Whether a run state is that of a config.
pub open spec fn state_ready(s: RunState<'_, u32>, c: Config) -> bool {
    &&& s.x@.len() == c.dim
    &&& s.xb@.len() == c.dim
    &&& s.xb2@.len() == c.dim
    &&& s.hb@.len() == c.hidden_dim
    &&& s.hb2@.len() == c.hidden_dim
    &&& s.q@.len() == c.att_dim_spec()
    &&& s.att@.len() == c.n_heads * c.seq_len
    &&& s.logits@.len() == c.vocab_size
    &&& s.key_cache@.len() == cache_len(c)
    &&& s.value_cache@.len() == cache_len(c)
}

/// Run one token at `pos`: the logits go into the state, and the caches get the keys and
/// values of this position.
pub fn forward<A: Fn(Scalar) -> u32>(
    c: &Config,
    w: &ModelWeights<'_>,
    s: &mut RunState<'_, u32>,
    token: usize,
    pos: usize,
    kernel: Kernel,
    qs: &mut Option<QuantScratch<'_, u32>>,
    a: &A,
)
    requires
        is_arithmetic(*a),
        c.valid(),
        w.fits(*c),
        w.scratch_ready(*c, *old(qs)),
        state_ready(*old(s), *c),
        c.dim % 2 == 0,
        c.kv_dim_spec() % 2 == 0,
        token < c.vocab_size,
        pos < c.seq_len,
    ensures
        state_ready(*final(s), *c),
        w.scratch_ready(*c, *final(qs)),
        ({
            let start = Flow {
                x: w.embedding(*a, token as int, c.dim as nat),
                keys: old(s).key_cache@,
                values: old(s).value_cache@,
            };
            let end = after_layers(*a, *c, *w, kernel, pos, start, c.n_layers as int);
            &&& final(s).key_cache@ == end.keys
            &&& final(s).value_cache@ == end.values
            &&& final(s).logits@ == logits_of(*a, *c, *w, kernel, end.x)
        }),
{
    proof {
        heads_make_up_the_dimension(*c);
    }
    w.embed(c, token, s.x, a);
    let ghost start = Flow { x: s.x@, keys: s.key_cache@, values: s.value_cache@ };
    let mut l: usize = 0;
    while l < c.n_layers
        invariant
            l <= c.n_layers,
            is_arithmetic(*a),
            c.valid(),
            w.fits(*c),
            w.scratch_ready(*c, *qs),
            state_ready(*s, *c),
            c.att_dim_spec() == c.dim,
            c.dim % 2 == 0,
            c.kv_dim_spec() % 2 == 0,
            pos < c.seq_len,
            ({
                let f = after_layers(*a, *c, *w, kernel, pos, start, l as int);
                &&& s.x@ == f.x
                &&& s.key_cache@ == f.keys
                &&& s.value_cache@ == f.values
            }),
        decreases c.n_layers - l,
    {
        attention_block(
            c,
            w,
            l,
            pos,
            kernel,
            s.x,
            s.xb,
            s.xb2,
            s.q,
            s.att,
            s.key_cache,
            s.value_cache,
            qs,
            a,
        );
        feed_forward_block(c, w, l, kernel, s.x, s.xb, s.hb, s.hb2, qs, a);
        l = l + 1;
    }
    rmsnorm(s.xb, s.x, w.rms_final(), a);
    w.matmul(Proj::Wcls, 0, s.logits, s.xb, c, kernel, qs, a);
}

} // verus!
