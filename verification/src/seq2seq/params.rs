//! The weights of the forward passes, taken apart by layer.
//!
//! The matrices come in full precision or quantized; the biases, the norms and the output
//! bias are in full precision either way.

use vstd::prelude::*;

use crate::layout::copy_into;
#[allow(unused_imports)]
use crate::layout::{lens_of, offset, offset_grows, part, total, window, window_bounds};
use crate::quant::{dequantize, QuantizedTensor};
#[allow(unused_imports)]
use crate::quant::{is_quantized_part, quantized_part_lengths};
use crate::scalar::{eval, Scalar};
#[allow(unused_imports)]
use crate::scalar::{is_arithmetic, times, value};
use crate::seq2seq::config::Config;
use crate::seq2seq::matrix::{Linear, Matrix, Norm};
#[allow(unused_imports)]
use crate::seq2seq::matrix::{LinearView, MatrixView, NormView};
use crate::seq2seq::quantize::{KeptWeights, QuantizedWeights};
#[allow(unused_imports)]
use crate::seq2seq::quantize::{kept_lens, kept_shapes, kept_views, quantized_lens};
use crate::seq2seq::weights::Weights;
#[allow(unused_imports)]
use crate::seq2seq::weights::weight_lens;

verus! {

/// A projection.
#[derive(Debug, Clone, Copy, PartialEq, Eq, Structural)]
pub enum Proj {
    /// The embedding, which is also the classifier: one matrix, layer zero.
    Embedding,
    /// Encoder query.
    EncQ,
    /// Encoder key.
    EncK,
    /// Encoder value.
    EncV,
    /// Encoder attention output.
    EncO,
    /// Encoder feed-forward up.
    EncUp,
    /// Encoder feed-forward down.
    EncDown,
    /// Decoder self-attention query.
    SelfQ,
    /// Decoder self-attention key.
    SelfK,
    /// Decoder self-attention value.
    SelfV,
    /// Decoder self-attention output.
    SelfO,
    /// Cross-attention query.
    CrossQ,
    /// Cross-attention key.
    CrossK,
    /// Cross-attention value.
    CrossV,
    /// Cross-attention output.
    CrossO,
    /// Decoder feed-forward up.
    DecUp,
    /// Decoder feed-forward down.
    DecDown,
}

impl Proj {
    /// Its place in storage order.
    pub open spec fn index(self) -> int {
        match self {
            Proj::Embedding => 0,
            Proj::EncQ => 1,
            Proj::EncK => 2,
            Proj::EncV => 3,
            Proj::EncO => 4,
            Proj::EncUp => 5,
            Proj::EncDown => 6,
            Proj::SelfQ => 7,
            Proj::SelfK => 8,
            Proj::SelfV => 9,
            Proj::SelfO => 10,
            Proj::CrossQ => 11,
            Proj::CrossK => 12,
            Proj::CrossV => 13,
            Proj::CrossO => 14,
            Proj::DecUp => 15,
            Proj::DecDown => 16,
        }
    }

    /// Input and output dimension.
    pub open spec fn dims(self, c: Config) -> (nat, nat) {
        let d = c.d_model as nat;
        match self {
            Proj::Embedding => (d, c.vocab_size as nat),
            Proj::EncUp => (d, c.enc_ffn as nat),
            Proj::EncDown => (c.enc_ffn as nat, d),
            Proj::DecUp => (d, c.dec_ffn as nat),
            Proj::DecDown => (c.dec_ffn as nat, d),
            _ => (d, d),
        }
    }

    /// Elements of one layer's matrix.
    pub open spec fn size(self, c: Config) -> nat {
        self.dims(c).1 * self.dims(c).0
    }

    /// How many matrices there are.
    pub open spec fn layers(self, c: Config) -> nat {
        match self {
            Proj::Embedding => 1,
            Proj::EncQ | Proj::EncK | Proj::EncV | Proj::EncO | Proj::EncUp
            | Proj::EncDown => c.enc_layers as nat,
            _ => c.dec_layers as nat,
        }
    }

    /// Input and output dimension of this projection.
    pub fn shape(self, c: &Config) -> (r: (usize, usize))
        ensures
            r.0 == self.dims(*c).0,
            r.1 == self.dims(*c).1,
    {
        let d: usize = c.d_model;
        match self {
            Proj::Embedding => (d, c.vocab_size),
            Proj::EncUp => (d, c.enc_ffn),
            Proj::EncDown => (c.enc_ffn, d),
            Proj::DecUp => (d, c.dec_ffn),
            Proj::DecDown => (c.dec_ffn, d),
            _ => (d, d),
        }
    }
}

/// A model's matrices, in full precision or quantized.
#[derive(Debug, Clone, Copy)]
pub enum ModelWeights<'a> {
    /// Full precision.
    F32(Weights<'a, u32>),
    /// Quantized.
    Q8(QuantizedWeights<'a, u32>),
}

/// The full-precision tensor of a projection.
pub open spec fn full_tensor(w: Weights<'_, u32>, p: Proj) -> Seq<u32> {
    match p {
        Proj::Embedding => w.token_embedding@,
        Proj::EncQ => w.enc_wq@,
        Proj::EncK => w.enc_wk@,
        Proj::EncV => w.enc_wv@,
        Proj::EncO => w.enc_wo@,
        Proj::EncUp => w.enc_fc1_w@,
        Proj::EncDown => w.enc_fc2_w@,
        Proj::SelfQ => w.dec_wq@,
        Proj::SelfK => w.dec_wk@,
        Proj::SelfV => w.dec_wv@,
        Proj::SelfO => w.dec_wo@,
        Proj::CrossQ => w.dec_cross_wq@,
        Proj::CrossK => w.dec_cross_wk@,
        Proj::CrossV => w.dec_cross_wv@,
        Proj::CrossO => w.dec_cross_wo@,
        Proj::DecUp => w.dec_fc1_w@,
        Proj::DecDown => w.dec_fc2_w@,
    }
}

/// The full-precision tensor of a projection.
pub fn f32_proj<'a>(w: &Weights<'a, u32>, p: Proj) -> (r: &'a [u32])
    ensures
        r@ == full_tensor(*w, p),
{
    match p {
        Proj::Embedding => w.token_embedding,
        Proj::EncQ => w.enc_wq,
        Proj::EncK => w.enc_wk,
        Proj::EncV => w.enc_wv,
        Proj::EncO => w.enc_wo,
        Proj::EncUp => w.enc_fc1_w,
        Proj::EncDown => w.enc_fc2_w,
        Proj::SelfQ => w.dec_wq,
        Proj::SelfK => w.dec_wk,
        Proj::SelfV => w.dec_wv,
        Proj::SelfO => w.dec_wo,
        Proj::CrossQ => w.dec_cross_wq,
        Proj::CrossK => w.dec_cross_wk,
        Proj::CrossV => w.dec_cross_wv,
        Proj::CrossO => w.dec_cross_wo,
        Proj::DecUp => w.dec_fc1_w,
        Proj::DecDown => w.dec_fc2_w,
    }
}

/// The quantized tensor of a projection.
#[verifier::allow_in_spec]
pub fn q8_proj<'a>(w: QuantizedWeights<'a, u32>, p: Proj) -> QuantizedTensor<'a, u32>
    returns
        (match p {
            Proj::Embedding => w.token_embedding,
            Proj::EncQ => w.enc_wq,
            Proj::EncK => w.enc_wk,
            Proj::EncV => w.enc_wv,
            Proj::EncO => w.enc_wo,
            Proj::EncUp => w.enc_fc1_w,
            Proj::EncDown => w.enc_fc2_w,
            Proj::SelfQ => w.dec_wq,
            Proj::SelfK => w.dec_wk,
            Proj::SelfV => w.dec_wv,
            Proj::SelfO => w.dec_wo,
            Proj::CrossQ => w.dec_cross_wq,
            Proj::CrossK => w.dec_cross_wk,
            Proj::CrossV => w.dec_cross_wv,
            Proj::CrossO => w.dec_cross_wo,
            Proj::DecUp => w.dec_fc1_w,
            Proj::DecDown => w.dec_fc2_w,
        }),
{
    match p {
        Proj::Embedding => w.token_embedding,
        Proj::EncQ => w.enc_wq,
        Proj::EncK => w.enc_wk,
        Proj::EncV => w.enc_wv,
        Proj::EncO => w.enc_wo,
        Proj::EncUp => w.enc_fc1_w,
        Proj::EncDown => w.enc_fc2_w,
        Proj::SelfQ => w.dec_wq,
        Proj::SelfK => w.dec_wk,
        Proj::SelfV => w.dec_wv,
        Proj::SelfO => w.dec_wo,
        Proj::CrossQ => w.dec_cross_wq,
        Proj::CrossK => w.dec_cross_wk,
        Proj::CrossV => w.dec_cross_wv,
        Proj::CrossO => w.dec_cross_wo,
        Proj::DecUp => w.dec_fc1_w,
        Proj::DecDown => w.dec_fc2_w,
    }
}

/// Whether groups of `group_size` fit every row.
pub open spec fn groups_fit_rows(c: Config, group_size: nat) -> bool {
    &&& 0 < group_size < 0x2_0000
    &&& c.d_model as nat % group_size == 0
    &&& c.enc_ffn as nat % group_size == 0
    &&& c.dec_ffn as nat % group_size == 0
}

impl<'a> ModelWeights<'a> {
    /// Whether the matrices are those of a config.
    pub open spec fn fits(self, c: Config) -> bool {
        match self {
            ModelWeights::F32(w) => forall|p: Proj|
                (#[trigger] full_tensor(w, p)).len() == p.layers(c) * p.size(c),
            ModelWeights::Q8(w) => {
                let gs = w.token_embedding.group_size;
                &&& groups_fit_rows(c, gs as nat)
                &&& forall|p: Proj|
                    {
                        let t = #[trigger] q8_proj(w, p);
                        &&& t.group_size == gs
                        &&& t.data@.len() == p.layers(c) * p.size(c)
                        &&& t.scales@.len() == (p.layers(c) * p.size(c)) / gs as nat
                    }
            },
        }
    }

    /// The matrix of a projection of layer `l`.
    pub open spec fn matrix(self, c: Config, p: Proj, l: int) -> MatrixView {
        let n = p.size(c);
        match self {
            ModelWeights::F32(w) => MatrixView::F32 {
                values: window(full_tensor(w, p), l, n as int),
            },
            ModelWeights::Q8(w) => {
                let t = q8_proj(w, p);
                let gs = t.group_size as nat;
                MatrixView::Q8 {
                    data: window(t.data@, l, n as int),
                    scales: window(t.scales@, l, (n / gs) as int),
                    group_size: gs,
                }
            },
        }
    }

    /// The linear layer of a projection of layer `l`, with the bias taken from those of all
    /// layers.
    pub open spec fn linear(self, c: Config, p: Proj, b: Seq<u32>, l: int) -> LinearView {
        LinearView { m: self.matrix(c, p, l), b: window(b, l, p.dims(c).1 as int) }
    }

    /// The embedding of a token: its row, or its row with every value times its scale.
    pub open spec fn embedding<A: Fn(Scalar) -> u32>(self, a: A, token: int, d: nat) -> Seq<u32> {
        match self {
            ModelWeights::F32(w) => window(w.token_embedding@, token, d as int),
            ModelWeights::Q8(w) => {
                let t = w.token_embedding;
                let gs = t.group_size as nat;
                let row = window(t.data@, token, d as int);
                let scales = window(t.scales@, token, (d / gs) as int);
                Seq::new(
                    d,
                    |k: int| times(a, value(a, Scalar::Int(row[k] as i32)), scales[k / gs as int]),
                )
            },
        }
    }
}

/// Whether the kept tensors are those of a config.
pub open spec fn kept_fits(k: KeptWeights<'_, u32>, c: Config) -> bool {
    forall|i: int| 0 <= i < 27 ==> (#[trigger] k.tensors()[i]).len() == kept_lens(c)[i]
}

/// The groups of a row fit the groups of a matrix, and those the groups of a tensor.
proof fn groups_of_layers(layers: nat, d_in: nat, d_out: nat, group_size: nat)
    requires
        group_size > 0,
        d_in % group_size == 0,
    ensures
        (d_out * d_in) / group_size == d_out * (d_in / group_size),
        (layers * (d_out * d_in)) / group_size == layers * ((d_out * d_in) / group_size),
{
    let g = d_in / group_size;
    assert(d_in == g * group_size) by (nonlinear_arith)
        requires
            group_size > 0,
            d_in % group_size == 0,
            g == d_in / group_size,
    ;
    assert((d_out * d_in) / group_size == d_out * g) by (nonlinear_arith)
        requires
            group_size > 0,
            d_in == g * group_size,
    ;
    assert((layers * (d_out * d_in)) / group_size == layers * (d_out * g)) by (nonlinear_arith)
        requires
            group_size > 0,
            d_in == g * group_size,
    ;
}

/// The lengths of tensors are those of their matrices together.
proof fn tensor_lengths(c: Config)
    ensures
        forall|p: Proj|
            quantized_lens(c)[#[trigger] p.index()] == p.layers(c) * p.size(c),
{
    let d = c.d_model as nat;
    let le = c.enc_layers as nat;
    let ld = c.dec_layers as nat;
    let fe = c.enc_ffn as nat;
    let fd = c.dec_ffn as nat;
    let v = c.vocab_size as nat;
    assert(le * d * d == le * (d * d)) by (nonlinear_arith);
    assert(le * fe * d == le * (fe * d)) by (nonlinear_arith);
    assert(le * d * fe == le * (d * fe)) by (nonlinear_arith);
    assert(ld * d * d == ld * (d * d)) by (nonlinear_arith);
    assert(ld * fd * d == ld * (fd * d)) by (nonlinear_arith);
    assert(ld * d * fd == ld * (d * fd)) by (nonlinear_arith);
    assert(1 * (v * d) == v * d) by (nonlinear_arith);
}

/// Weights of a config's shape fit it.
pub proof fn full_weights_fit(w: Weights<'_, u32>, c: Config)
    requires
        w.shaped(c),
    ensures
        ModelWeights::F32(w).fits(c),
{
    tensor_lengths(c);
    let t = w.tensors();
    let lens = weight_lens(c);
    assert forall|p: Proj| (#[trigger] full_tensor(w, p)).len() == p.layers(c) * p.size(c) by {
        assert(quantized_lens(c)[p.index()] == p.layers(c) * p.size(c));

        match p {
            Proj::Embedding => assert(t[0].len() == lens[0]),
            Proj::EncQ => assert(t[1].len() == lens[1]),
            Proj::EncK => assert(t[3].len() == lens[3]),
            Proj::EncV => assert(t[5].len() == lens[5]),
            Proj::EncO => assert(t[7].len() == lens[7]),
            Proj::EncUp => assert(t[11].len() == lens[11]),
            Proj::EncDown => assert(t[13].len() == lens[13]),
            Proj::SelfQ => assert(t[17].len() == lens[17]),
            Proj::SelfK => assert(t[19].len() == lens[19]),
            Proj::SelfV => assert(t[21].len() == lens[21]),
            Proj::SelfO => assert(t[23].len() == lens[23]),
            Proj::CrossQ => assert(t[27].len() == lens[27]),
            Proj::CrossK => assert(t[29].len() == lens[29]),
            Proj::CrossV => assert(t[31].len() == lens[31]),
            Proj::CrossO => assert(t[33].len() == lens[33]),
            Proj::DecUp => assert(t[37].len() == lens[37]),
            Proj::DecDown => assert(t[39].len() == lens[39]),
        }
    }
}

/// Views of quantized buffers fit the config, where the groups fit the rows.
pub proof fn quantized_weights_fit(
    w: QuantizedWeights<'_, u32>,
    c: Config,
    data: Seq<i8>,
    scales: Seq<u32>,
    group_size: nat,
)
    requires
        groups_fit_rows(c, group_size),
        data.len() >= total(quantized_lens(c)),
        scales.len() >= total(quantized_lens(c)) / group_size,
        forall|i: int|
            0 <= i < 17 ==> is_quantized_part(
                #[trigger] w.tensors()[i],
                data,
                scales,
                quantized_lens(c),
                group_size,
                i,
            ),
    ensures
        ModelWeights::Q8(w).fits(c),
{
    tensor_lengths(c);
    let lens = quantized_lens(c);
    let t = w.tensors();
    assert forall|p: Proj|
        {
            let q = #[trigger] q8_proj(w, p);
            &&& q.group_size == w.token_embedding.group_size
            &&& q.data@.len() == p.layers(c) * p.size(c)
            &&& q.scales@.len() == (p.layers(c) * p.size(c)) / group_size
        } by {
        assert(t[0].group_size == group_size);
        assert(lens[p.index()] == p.layers(c) * p.size(c));
        assert(t[p.index()] == q8_proj(w, p));
        assert(is_quantized_part(t[p.index()], data, scales, lens, group_size, p.index()));
        quantized_part_lengths(data, scales, lens, group_size, p.index());
    }
}

/// The kept tensors of weights of a config's shape fit it.
pub proof fn borrowed_kept_fits(w: Weights<'_, u32>, k: KeptWeights<'_, u32>, c: Config)
    requires
        w.shaped(c),
        k.tensors() == kept_views(w),
    ensures
        kept_fits(k, c),
{
    kept_shapes(w, c);
    assert forall|i: int| 0 <= i < 27 implies (#[trigger] k.tensors()[i]).len() == kept_lens(
        c,
    )[i] by {
        assert(lens_of(kept_views(w))[i] == kept_lens(c)[i]);
    }
}

/// Kept tensors carved from a buffer that is long enough fit the config.
pub proof fn carved_kept_fits(packed: Seq<u32>, k: KeptWeights<'_, u32>, c: Config)
    requires
        packed.len() >= total(kept_lens(c)),
        forall|i: int| 0 <= i < 27 ==> #[trigger] k.tensors()[i] == part(packed, kept_lens(c), i),
    ensures
        kept_fits(k, c),
{
    let lens = kept_lens(c);
    assert forall|i: int| 0 <= i < 27 implies (#[trigger] k.tensors()[i]).len() == lens[i] by {
        offset_grows(lens, i + 1, 27);
        assert(offset(lens, i + 1) == offset(lens, i) + lens[i]);
    }
}

/// The rows of a projection fit the groups of its matrices.
proof fn groups_fit_projections(c: Config, p: Proj, group_size: nat)
    requires
        groups_fit_rows(c, group_size),
    ensures
        p.dims(c).0 % group_size == 0,
{
}

impl<'a> ModelWeights<'a> {
    /// The matrices of a config have their shapes.
    pub proof fn matrices_are_shaped(self, c: Config, p: Proj, l: int)
        requires
            self.fits(c),
            0 <= l < p.layers(c),
        ensures
            self.matrix(c, p, l).shaped(p.dims(c).0, p.dims(c).1),
            self.matrix(c, p, l) is Q8 == self is Q8,
    {
        window_bounds(p.layers(c), l, p.size(c));
        match self {
            ModelWeights::F32(w) => {
                assert(full_tensor(w, p).len() == p.layers(c) * p.size(c));
            },
            ModelWeights::Q8(w) => {
                let t = q8_proj(w, p);
                let gs = t.group_size as nat;
                groups_fit_projections(c, p, gs);
                groups_of_layers(p.layers(c), p.dims(c).0, p.dims(c).1, gs);
                window_bounds(p.layers(c), l, p.size(c) / gs);
            },
        }
    }

    /// Take the matrix of a projection of layer `l`.
    fn take_matrix(&self, c: &Config, p: Proj, l: usize) -> (r: Matrix<'a>)
        requires
            self.fits(*c),
            l < p.layers(*c),
        ensures
            r@ == self.matrix(*c, p, l as int),
    {
        let (d_in, d_out) = p.shape(c);
        proof {
            window_bounds(p.layers(*c), l as int, p.size(*c));
        }
        match self {
            ModelWeights::F32(w) => {
                let tensor = f32_proj(w, p);
                proof {
                    assert(full_tensor(*w, p).len() == p.layers(*c) * p.size(*c));
                    assert(tensor.len() == tensor@.len());
                }
                let n: usize = d_out * d_in;
                let m = vstd::slice::slice_subrange(tensor, l * n, l * n + n);
                proof {
                    assert(m@ =~= window(full_tensor(*w, p), l as int, n as int));
                }
                Matrix::F32(m)
            },
            ModelWeights::Q8(w) => {
                let t = q8_proj(*w, p);
                let ghost gs = t.group_size as nat;
                proof {
                    assert(q8_proj(*w, p).data@.len() == p.layers(*c) * p.size(*c));
                    groups_fit_projections(*c, p, gs);
                    groups_of_layers(p.layers(*c), d_in as nat, d_out as nat, gs);
                    window_bounds(p.layers(*c), l as int, p.size(*c) / gs);
                    let data = t.data;
                    assert(data.len() == data@.len());
                }
                let m = t.layer(l, d_out, d_in);
                proof {
                    assert(m.data@ =~= window(t.data@, l as int, p.size(*c) as int));
                    assert(m.scales@ =~= window(t.scales@, l as int, (p.size(*c) / gs) as int));
                }
                Matrix::Q8(m)
            },
        }
    }

    /// Take the linear layer of a projection of layer `l`.
    fn take_linear(&self, c: &Config, p: Proj, b: &'a [u32], l: usize) -> (r: Linear<'a>)
        requires
            self.fits(*c),
            l < p.layers(*c),
            b@.len() == p.layers(*c) * p.dims(*c).1,
        ensures
            r@ == self.linear(*c, p, b@, l as int),
            r@.shaped(p.dims(*c).0, p.dims(*c).1),
            r@.m is Q8 == self is Q8,
    {
        proof {
            self.matrices_are_shaped(*c, p, l as int);
        }
        let m = self.take_matrix(c, p, l);
        Linear { m, b: layer(b, l, p.shape(c).1, Ghost(p.layers(*c))) }
    }

    /// Write a token's embedding into `out`.
    pub fn embed<A: Fn(Scalar) -> u32>(&self, c: &Config, token: usize, out: &mut [u32], a: &A)
        requires
            is_arithmetic(*a),
            self.fits(*c),
            token < c.vocab_size,
            old(out)@.len() == c.d_model,
        ensures
            final(out)@ == self.embedding(*a, token as int, c.d_model as nat),
            final(out)@.len() == c.d_model,
    {
        let d: usize = c.d_model;
        proof {
            window_bounds(c.vocab_size as nat, token as int, d as nat);
            assert(1 * (c.vocab_size as nat * d as nat) == c.vocab_size as nat * d as nat)
                by (nonlinear_arith);
        }
        match self {
            ModelWeights::F32(w) => {
                let table = f32_proj(w, Proj::Embedding);
                proof {
                    assert(full_tensor(*w, Proj::Embedding).len() == c.vocab_size * d);
                    assert(table.len() == table@.len());
                }
                let row = vstd::slice::slice_subrange(table, token * d, token * d + d);
                copy_into(out, 0, row);
                proof {
                    assert(out@ =~= row@);
                }
            },
            ModelWeights::Q8(w) => {
                let t = q8_proj(*w, Proj::Embedding);
                let gs: usize = t.group_size;
                let ghost n = d as nat / gs as nat;
                proof {
                    assert(q8_proj(*w, Proj::Embedding).data@.len() == c.vocab_size * d);
                    groups_of_layers(c.vocab_size as nat, d as nat, 1, gs as nat);
                    assert(1 * d == d);
                    window_bounds(c.vocab_size as nat, token as int, n);
                }
                let row = t.layer(token, 1, d);
                proof {
                    assert(row.data@ =~= window(t.data@, token as int, d as int));
                    assert(row.scales@ =~= window(t.scales@, token as int, n as int));
                    assert(d <= n * gs) by (nonlinear_arith)
                        requires
                            gs > 0,
                            d as nat % gs as nat == 0,
                            n == d as nat / gs as nat,
                    ;
                }
                let f = |v: i8, s: u32| -> (r: u32)
                    ensures
                        r == times(*a, value(*a, Scalar::Int(v as i32)), s),
                    {
                        let i: u32 = eval(a, Scalar::Int(v as i32));
                        eval(a, Scalar::Mul(i, s))
                    };
                dequantize(out, &row, &f);
                proof {
                    let embedded = self.embedding(*a, token as int, d as nat);
                    assert forall|k: int| 0 <= k < d implies #[trigger] out@[k] == embedded[k] by {
                        assert(call_ensures(
                            f,
                            (row.data@[k], row.scales@[k / row.group_size as int]),
                            out@[k],
                        ));
                    }
                    assert(out@ =~= embedded);
                }
            },
        }
    }
}

/// Layer `l`'s block of `len` elements, of `layers`.
fn layer<'a>(t: &'a [u32], l: usize, len: usize, Ghost(layers): Ghost<nat>) -> (r: &'a [u32])
    requires
        l < layers,
        t@.len() == layers * len,
    ensures
        r@ == window(t@, l as int, len as int),
        r@.len() == len,
{
    proof {
        window_bounds(layers, l as int, len as nat);
        assert(t.len() == t@.len());
    }
    let r = vstd::slice::slice_subrange(t, l * len, l * len + len);
    proof {
        assert(r@ =~= window(t@, l as int, len as int));
    }
    r
}

/// An attention block: its projections, and the norm behind it.
pub struct Attention<'a> {
    /// Query projection.
    pub q: Linear<'a>,
    /// Key projection.
    pub k: Linear<'a>,
    /// Value projection.
    pub v: Linear<'a>,
    /// Output projection.
    pub o: Linear<'a>,
    /// The norm.
    pub ln: Norm<'a>,
}

/// An attention block as values.
pub struct AttentionView {
    /// Query projection.
    pub q: LinearView,
    /// Key projection.
    pub k: LinearView,
    /// Value projection.
    pub v: LinearView,
    /// Output projection.
    pub o: LinearView,
    /// The norm.
    pub ln: NormView,
}

impl<'a> View for Attention<'a> {
    type V = AttentionView;

    open spec fn view(&self) -> AttentionView {
        AttentionView { q: self.q@, k: self.k@, v: self.v@, o: self.o@, ln: self.ln@ }
    }
}

impl AttentionView {
    /// Whether the block is one of vectors of this length.
    pub open spec fn shaped(self, d: nat) -> bool {
        &&& self.q.shaped(d, d)
        &&& self.k.shaped(d, d)
        &&& self.v.shaped(d, d)
        &&& self.o.shaped(d, d)
        &&& self.ln.shaped(d)
    }

    /// Whether a scratch of this room is enough.
    pub open spec fn room_enough(self, d: nat, room: int) -> bool {
        &&& self.q.m.room_enough(d, room)
        &&& self.k.m.room_enough(d, room)
        &&& self.v.m.room_enough(d, room)
        &&& self.o.m.room_enough(d, room)
    }
}

/// A feed-forward block: its projections, and the norm behind it.
pub struct FeedForward<'a> {
    /// Up projection.
    pub up: Linear<'a>,
    /// Down projection.
    pub down: Linear<'a>,
    /// The norm.
    pub ln: Norm<'a>,
}

/// A feed-forward block as values.
pub struct FeedForwardView {
    /// Up projection.
    pub up: LinearView,
    /// Down projection.
    pub down: LinearView,
    /// The norm.
    pub ln: NormView,
}

impl<'a> View for FeedForward<'a> {
    type V = FeedForwardView;

    open spec fn view(&self) -> FeedForwardView {
        FeedForwardView { up: self.up@, down: self.down@, ln: self.ln@ }
    }
}

impl FeedForwardView {
    /// Whether the block is one of vectors of this length and this hidden length.
    pub open spec fn shaped(self, d: nat, ffn: nat) -> bool {
        &&& self.up.shaped(d, ffn)
        &&& self.down.shaped(ffn, d)
        &&& self.ln.shaped(d)
    }

    /// Whether a scratch of this room is enough.
    pub open spec fn room_enough(self, d: nat, ffn: nat, room: int) -> bool {
        &&& self.up.m.room_enough(d, room)
        &&& self.down.m.room_enough(ffn, room)
    }
}

/// The norm of layer `l`.
pub open spec fn norm_at(w: Seq<u32>, b: Seq<u32>, l: int, d: int) -> NormView {
    NormView { w: window(w, l, d), b: window(b, l, d) }
}

/// The attention block of encoder layer `l`.
pub open spec fn encoder_attention(
    w: ModelWeights<'_>,
    k: KeptWeights<'_, u32>,
    c: Config,
    l: int,
) -> AttentionView {
    AttentionView {
        q: w.linear(c, Proj::EncQ, k.enc_bq@, l),
        k: w.linear(c, Proj::EncK, k.enc_bk@, l),
        v: w.linear(c, Proj::EncV, k.enc_bv@, l),
        o: w.linear(c, Proj::EncO, k.enc_bo@, l),
        ln: norm_at(k.enc_ln_att_w@, k.enc_ln_att_b@, l, c.d_model as int),
    }
}

/// The feed-forward block of encoder layer `l`.
pub open spec fn encoder_feed_forward(
    w: ModelWeights<'_>,
    k: KeptWeights<'_, u32>,
    c: Config,
    l: int,
) -> FeedForwardView {
    FeedForwardView {
        up: w.linear(c, Proj::EncUp, k.enc_fc1_b@, l),
        down: w.linear(c, Proj::EncDown, k.enc_fc2_b@, l),
        ln: norm_at(k.enc_ln_ffn_w@, k.enc_ln_ffn_b@, l, c.d_model as int),
    }
}

/// The self-attention block of decoder layer `l`.
pub open spec fn self_attention(
    w: ModelWeights<'_>,
    k: KeptWeights<'_, u32>,
    c: Config,
    l: int,
) -> AttentionView {
    AttentionView {
        q: w.linear(c, Proj::SelfQ, k.dec_bq@, l),
        k: w.linear(c, Proj::SelfK, k.dec_bk@, l),
        v: w.linear(c, Proj::SelfV, k.dec_bv@, l),
        o: w.linear(c, Proj::SelfO, k.dec_bo@, l),
        ln: norm_at(k.dec_ln_self_w@, k.dec_ln_self_b@, l, c.d_model as int),
    }
}

/// The cross-attention block of decoder layer `l`.
pub open spec fn cross_attention(
    w: ModelWeights<'_>,
    k: KeptWeights<'_, u32>,
    c: Config,
    l: int,
) -> AttentionView {
    AttentionView {
        q: w.linear(c, Proj::CrossQ, k.dec_cross_bq@, l),
        k: w.linear(c, Proj::CrossK, k.dec_cross_bk@, l),
        v: w.linear(c, Proj::CrossV, k.dec_cross_bv@, l),
        o: w.linear(c, Proj::CrossO, k.dec_cross_bo@, l),
        ln: norm_at(k.dec_ln_cross_w@, k.dec_ln_cross_b@, l, c.d_model as int),
    }
}

/// The feed-forward block of decoder layer `l`.
pub open spec fn decoder_feed_forward(
    w: ModelWeights<'_>,
    k: KeptWeights<'_, u32>,
    c: Config,
    l: int,
) -> FeedForwardView {
    FeedForwardView {
        up: w.linear(c, Proj::DecUp, k.dec_fc1_b@, l),
        down: w.linear(c, Proj::DecDown, k.dec_fc2_b@, l),
        ln: norm_at(k.dec_ln_ffn_w@, k.dec_ln_ffn_b@, l, c.d_model as int),
    }
}

/// The lengths of the encoder's kept tensors.
proof fn encoder_kept_lengths(k: KeptWeights<'_, u32>, c: Config)
    requires
        kept_fits(k, c),
    ensures
        ({
            let n = c.enc_layers as nat * c.d_model as nat;
            &&& k.enc_bq@.len() == n && k.enc_bk@.len() == n
            &&& k.enc_bv@.len() == n && k.enc_bo@.len() == n
            &&& k.enc_ln_att_w@.len() == n && k.enc_ln_att_b@.len() == n
            &&& k.enc_fc1_b@.len() == c.enc_layers as nat * c.enc_ffn as nat
            &&& k.enc_fc2_b@.len() == n
            &&& k.enc_ln_ffn_w@.len() == n && k.enc_ln_ffn_b@.len() == n
        }),
{
    let t = k.tensors();
    let lens = kept_lens(c);
    assert(t[0].len() == lens[0] && t[1].len() == lens[1] && t[2].len() == lens[2] && t[3].len()
        == lens[3] && t[4].len() == lens[4]);
    assert(t[5].len() == lens[5] && t[6].len() == lens[6] && t[7].len() == lens[7] && t[8].len()
        == lens[8] && t[9].len() == lens[9]);
}

/// The lengths of the decoder's kept tensors.
pub proof fn decoder_kept_lengths(k: KeptWeights<'_, u32>, c: Config)
    requires
        kept_fits(k, c),
    ensures
        ({
            let n = c.dec_layers as nat * c.d_model as nat;
            &&& k.dec_bq@.len() == n && k.dec_bk@.len() == n
            &&& k.dec_bv@.len() == n && k.dec_bo@.len() == n
            &&& k.dec_ln_self_w@.len() == n && k.dec_ln_self_b@.len() == n
            &&& k.dec_cross_bq@.len() == n && k.dec_cross_bk@.len() == n
            &&& k.dec_cross_bv@.len() == n && k.dec_cross_bo@.len() == n
            &&& k.dec_ln_cross_w@.len() == n && k.dec_ln_cross_b@.len() == n
            &&& k.dec_fc1_b@.len() == c.dec_layers as nat * c.dec_ffn as nat
            &&& k.dec_fc2_b@.len() == n
            &&& k.dec_ln_ffn_w@.len() == n && k.dec_ln_ffn_b@.len() == n
            &&& k.final_logits_bias@.len() == c.vocab_size
        }),
{
    let t = k.tensors();
    let lens = kept_lens(c);
    assert(t[10].len() == lens[10] && t[11].len() == lens[11] && t[12].len() == lens[12]
        && t[13].len() == lens[13] && t[14].len() == lens[14] && t[15].len() == lens[15]);
    assert(t[16].len() == lens[16] && t[17].len() == lens[17] && t[18].len() == lens[18]
        && t[19].len() == lens[19] && t[20].len() == lens[20] && t[21].len() == lens[21]);
    assert(t[22].len() == lens[22] && t[23].len() == lens[23] && t[24].len() == lens[24]
        && t[25].len() == lens[25] && t[26].len() == lens[26]);
}

/// Take the encoder attention block of layer `l`.
pub fn take_encoder_attention<'a>(
    w: &ModelWeights<'a>,
    k: &KeptWeights<'a, u32>,
    c: &Config,
    l: usize,
) -> (r: Attention<'a>)
    requires
        w.fits(*c),
        kept_fits(*k, *c),
        l < c.enc_layers,
    ensures
        r@ == encoder_attention(*w, *k, *c, l as int),
        r@.shaped(c.d_model as nat),
        forall|room: int|
            #![trigger r@.room_enough(c.d_model as nat, room)]
            (w is Q8 ==> c.d_model <= room) ==> r@.room_enough(c.d_model as nat, room),
{
    proof {
        encoder_kept_lengths(*k, *c);
    }
    let ghost layers = c.enc_layers as nat;
    let ln = Norm {
        w: layer(k.enc_ln_att_w, l, c.d_model, Ghost(layers)),
        b: layer(k.enc_ln_att_b, l, c.d_model, Ghost(layers)),
    };
    Attention {
        q: w.take_linear(c, Proj::EncQ, k.enc_bq, l),
        k: w.take_linear(c, Proj::EncK, k.enc_bk, l),
        v: w.take_linear(c, Proj::EncV, k.enc_bv, l),
        o: w.take_linear(c, Proj::EncO, k.enc_bo, l),
        ln,
    }
}

/// Take the encoder feed-forward block of layer `l`.
pub fn take_encoder_feed_forward<'a>(
    w: &ModelWeights<'a>,
    k: &KeptWeights<'a, u32>,
    c: &Config,
    l: usize,
) -> (r: FeedForward<'a>)
    requires
        w.fits(*c),
        kept_fits(*k, *c),
        l < c.enc_layers,
    ensures
        r@ == encoder_feed_forward(*w, *k, *c, l as int),
        r@.shaped(c.d_model as nat, c.enc_ffn as nat),
        forall|room: int|
            #![trigger r@.room_enough(c.d_model as nat, c.enc_ffn as nat, room)]
            (w is Q8 ==> c.d_model <= room && c.enc_ffn <= room) ==> r@.room_enough(
                c.d_model as nat,
                c.enc_ffn as nat,
                room,
            ),
{
    proof {
        encoder_kept_lengths(*k, *c);
    }
    let ghost layers = c.enc_layers as nat;
    let ln = Norm {
        w: layer(k.enc_ln_ffn_w, l, c.d_model, Ghost(layers)),
        b: layer(k.enc_ln_ffn_b, l, c.d_model, Ghost(layers)),
    };
    FeedForward {
        up: w.take_linear(c, Proj::EncUp, k.enc_fc1_b, l),
        down: w.take_linear(c, Proj::EncDown, k.enc_fc2_b, l),
        ln,
    }
}

/// Take the decoder self-attention block of layer `l`.
pub fn take_self_attention<'a>(
    w: &ModelWeights<'a>,
    k: &KeptWeights<'a, u32>,
    c: &Config,
    l: usize,
) -> (r: Attention<'a>)
    requires
        w.fits(*c),
        kept_fits(*k, *c),
        l < c.dec_layers,
    ensures
        r@ == self_attention(*w, *k, *c, l as int),
        r@.shaped(c.d_model as nat),
        forall|room: int|
            #![trigger r@.room_enough(c.d_model as nat, room)]
            (w is Q8 ==> c.d_model <= room) ==> r@.room_enough(c.d_model as nat, room),
{
    proof {
        decoder_kept_lengths(*k, *c);
    }
    let ghost layers = c.dec_layers as nat;
    let ln = Norm {
        w: layer(k.dec_ln_self_w, l, c.d_model, Ghost(layers)),
        b: layer(k.dec_ln_self_b, l, c.d_model, Ghost(layers)),
    };
    Attention {
        q: w.take_linear(c, Proj::SelfQ, k.dec_bq, l),
        k: w.take_linear(c, Proj::SelfK, k.dec_bk, l),
        v: w.take_linear(c, Proj::SelfV, k.dec_bv, l),
        o: w.take_linear(c, Proj::SelfO, k.dec_bo, l),
        ln,
    }
}

/// Take the cross-attention block of layer `l`.
pub fn take_cross_attention<'a>(
    w: &ModelWeights<'a>,
    k: &KeptWeights<'a, u32>,
    c: &Config,
    l: usize,
) -> (r: Attention<'a>)
    requires
        w.fits(*c),
        kept_fits(*k, *c),
        l < c.dec_layers,
    ensures
        r@ == cross_attention(*w, *k, *c, l as int),
        r@.shaped(c.d_model as nat),
        forall|room: int|
            #![trigger r@.room_enough(c.d_model as nat, room)]
            (w is Q8 ==> c.d_model <= room) ==> r@.room_enough(c.d_model as nat, room),
{
    proof {
        decoder_kept_lengths(*k, *c);
    }
    let ghost layers = c.dec_layers as nat;
    let ln = Norm {
        w: layer(k.dec_ln_cross_w, l, c.d_model, Ghost(layers)),
        b: layer(k.dec_ln_cross_b, l, c.d_model, Ghost(layers)),
    };
    Attention {
        q: w.take_linear(c, Proj::CrossQ, k.dec_cross_bq, l),
        k: w.take_linear(c, Proj::CrossK, k.dec_cross_bk, l),
        v: w.take_linear(c, Proj::CrossV, k.dec_cross_bv, l),
        o: w.take_linear(c, Proj::CrossO, k.dec_cross_bo, l),
        ln,
    }
}

/// Take the decoder feed-forward block of layer `l`.
pub fn take_decoder_feed_forward<'a>(
    w: &ModelWeights<'a>,
    k: &KeptWeights<'a, u32>,
    c: &Config,
    l: usize,
) -> (r: FeedForward<'a>)
    requires
        w.fits(*c),
        kept_fits(*k, *c),
        l < c.dec_layers,
    ensures
        r@ == decoder_feed_forward(*w, *k, *c, l as int),
        r@.shaped(c.d_model as nat, c.dec_ffn as nat),
        forall|room: int|
            #![trigger r@.room_enough(c.d_model as nat, c.dec_ffn as nat, room)]
            (w is Q8 ==> c.d_model <= room && c.dec_ffn <= room) ==> r@.room_enough(
                c.d_model as nat,
                c.dec_ffn as nat,
                room,
            ),
{
    proof {
        decoder_kept_lengths(*k, *c);
    }
    let ghost layers = c.dec_layers as nat;
    let ln = Norm {
        w: layer(k.dec_ln_ffn_w, l, c.d_model, Ghost(layers)),
        b: layer(k.dec_ln_ffn_b, l, c.d_model, Ghost(layers)),
    };
    FeedForward {
        up: w.take_linear(c, Proj::DecUp, k.dec_fc1_b, l),
        down: w.take_linear(c, Proj::DecDown, k.dec_fc2_b, l),
        ln,
    }
}

/// The classifier: the embedding with the output bias.
pub open spec fn classifier(w: ModelWeights<'_>, k: KeptWeights<'_, u32>, c: Config) -> LinearView {
    LinearView { m: w.matrix(c, Proj::Embedding, 0), b: k.final_logits_bias@ }
}

/// Take the classifier.
pub fn take_classifier<'a>(w: &ModelWeights<'a>, k: &KeptWeights<'a, u32>, c: &Config) -> (r:
    Linear<'a>)
    requires
        w.fits(*c),
        kept_fits(*k, *c),
    ensures
        r@ == classifier(*w, *k, *c),
        r@.shaped(c.d_model as nat, c.vocab_size as nat),
        r@.m is Q8 == w is Q8,
{
    proof {
        decoder_kept_lengths(*k, *c);
        w.matrices_are_shaped(*c, Proj::Embedding, 0);
    }
    Linear { m: w.take_matrix(c, Proj::Embedding, 0), b: k.final_logits_bias }
}

} // verus!
