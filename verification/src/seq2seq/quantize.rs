//! Int8 quantization of the seq2seq weight set.
//!
//! The 17 matmul matrices are quantized (the shared embedding, the encoder's and the
//! decoder's projections). Everything one-dimensional stays in full precision: every
//! bias, every LayerNorm, and the output bias. Those tensors travel together in one
//! packed buffer.

use vstd::arithmetic::overflow::CheckedUsize;
use vstd::prelude::*;

use crate::error::EngineError;
use crate::layout::{check_region, cut_part, product, product3, saturate, total_checked};
#[allow(unused_imports)]
use crate::layout::{
    joined, joined_len, lens_of, offset, part, part_of_joined, saturated, short_region, total,
    true_lens,
};
#[allow(unused_imports)]
use crate::quant::{
    contents, group_lens, groups_exact, is_quantized_part, quantized_as, quantizes_groups,
};
use crate::quant::{quantize_all, quantized_part, QuantizedTensor};
use crate::seq2seq::config::Config;
use crate::seq2seq::weights::Weights;
#[allow(unused_imports)]
use crate::seq2seq::weights::{weight_lens, weights_by_kind};

verus! {

/// Lengths of the quantized tensors in storage order, as the fields of
/// [`QuantizedWeights`] list them.
pub open spec fn quantized_lens(c: Config) -> Seq<nat> {
    let d = c.d_model as nat;
    let le = c.enc_layers as nat;
    let ld = c.dec_layers as nat;
    let fe = c.enc_ffn as nat;
    let fd = c.dec_ffn as nat;
    let vocab = c.vocab_size as nat;
    seq![
        vocab * d,
        le * d * d,
        le * d * d,
        le * d * d,
        le * d * d,
        le * fe * d,
        le * d * fe,
        ld * d * d,
        ld * d * d,
        ld * d * d,
        ld * d * d,
        ld * d * d,
        ld * d * d,
        ld * d * d,
        ld * d * d,
        ld * fd * d,
        ld * d * fd,
    ]
}

/// Lengths of the kept tensors in storage order, as the fields of [`KeptWeights`] list
/// them.
pub open spec fn kept_lens(c: Config) -> Seq<nat> {
    let d = c.d_model as nat;
    let le = c.enc_layers as nat;
    let ld = c.dec_layers as nat;
    let fe = c.enc_ffn as nat;
    let fd = c.dec_ffn as nat;
    let vocab = c.vocab_size as nat;
    seq![
        le * d,
        le * d,
        le * d,
        le * d,
        le * d,
        le * d,
        le * fe,
        le * d,
        le * d,
        le * d,
        ld * d,
        ld * d,
        ld * d,
        ld * d,
        ld * d,
        ld * d,
        ld * d,
        ld * d,
        ld * d,
        ld * d,
        ld * d,
        ld * d,
        ld * fd,
        ld * d,
        ld * d,
        ld * d,
        vocab,
    ]
}

/// Lengths of the quantized tensors, kept exact beyond the machine's range.
fn quantized_lens_checked(c: &Config) -> (r: [CheckedUsize; 17])
    ensures
        true_lens(r@) == quantized_lens(*c),
{
    let r = [
        product(c.vocab_size, c.d_model),
        product3(c.enc_layers, c.d_model, c.d_model),
        product3(c.enc_layers, c.d_model, c.d_model),
        product3(c.enc_layers, c.d_model, c.d_model),
        product3(c.enc_layers, c.d_model, c.d_model),
        product3(c.enc_layers, c.enc_ffn, c.d_model),
        product3(c.enc_layers, c.d_model, c.enc_ffn),
        product3(c.dec_layers, c.d_model, c.d_model),
        product3(c.dec_layers, c.d_model, c.d_model),
        product3(c.dec_layers, c.d_model, c.d_model),
        product3(c.dec_layers, c.d_model, c.d_model),
        product3(c.dec_layers, c.d_model, c.d_model),
        product3(c.dec_layers, c.d_model, c.d_model),
        product3(c.dec_layers, c.d_model, c.d_model),
        product3(c.dec_layers, c.d_model, c.d_model),
        product3(c.dec_layers, c.dec_ffn, c.d_model),
        product3(c.dec_layers, c.d_model, c.dec_ffn),
    ];
    proof {
        assert(true_lens(r@) =~= quantized_lens(*c));
    }
    r
}

/// Lengths of the kept tensors, kept exact beyond the machine's range.
fn kept_lens_checked(c: &Config) -> (r: [CheckedUsize; 27])
    ensures
        true_lens(r@) == kept_lens(*c),
{
    let r = [
        product(c.enc_layers, c.d_model),
        product(c.enc_layers, c.d_model),
        product(c.enc_layers, c.d_model),
        product(c.enc_layers, c.d_model),
        product(c.enc_layers, c.d_model),
        product(c.enc_layers, c.d_model),
        product(c.enc_layers, c.enc_ffn),
        product(c.enc_layers, c.d_model),
        product(c.enc_layers, c.d_model),
        product(c.enc_layers, c.d_model),
        product(c.dec_layers, c.d_model),
        product(c.dec_layers, c.d_model),
        product(c.dec_layers, c.d_model),
        product(c.dec_layers, c.d_model),
        product(c.dec_layers, c.d_model),
        product(c.dec_layers, c.d_model),
        product(c.dec_layers, c.d_model),
        product(c.dec_layers, c.d_model),
        product(c.dec_layers, c.d_model),
        product(c.dec_layers, c.d_model),
        product(c.dec_layers, c.d_model),
        product(c.dec_layers, c.d_model),
        product(c.dec_layers, c.dec_ffn),
        product(c.dec_layers, c.d_model),
        product(c.dec_layers, c.d_model),
        product(c.dec_layers, c.d_model),
        CheckedUsize::new(c.vocab_size),
    ];
    proof {
        assert(true_lens(r@) =~= kept_lens(*c));
    }
    r
}

/// Total number of `i8` values once the matmul matrices are quantized.
pub fn quantized_weight_count(c: &Config) -> (r: usize)
    requires
        total(quantized_lens(*c)) <= usize::MAX,
    ensures
        r == total(quantized_lens(*c)),
{
    let lens = quantized_lens_checked(c);
    total_checked(&lens).unwrap()
}

/// Total number of scales the quantized values need.
pub fn quantized_scale_count(c: &Config, group_size: usize) -> (r: usize)
    requires
        group_size > 0,
        total(quantized_lens(*c)) <= usize::MAX,
    ensures
        r == total(quantized_lens(*c)) / group_size as nat,
{
    quantized_weight_count(c) / group_size
}

/// Number of elements the kept tensors occupy.
pub fn kept_floats(c: &Config) -> (r: usize)
    requires
        total(kept_lens(*c)) <= usize::MAX,
    ensures
        r == total(kept_lens(*c)),
{
    let lens = kept_lens_checked(c);
    total_checked(&lens).unwrap()
}

/// The largest matmul input width across the quantized projections.
pub fn max_proj_d_in(c: &Config) -> (r: usize)
    ensures
        r >= c.d_model && r >= c.enc_ffn && r >= c.dec_ffn,
        r == c.d_model || r == c.enc_ffn || r == c.dec_ffn,
{
    let a: usize = if c.d_model > c.enc_ffn {
        c.d_model
    } else {
        c.enc_ffn
    };
    if a > c.dec_ffn {
        a
    } else {
        c.dec_ffn
    }
}

/// The kept tensors of a weight view, in storage order.
pub open spec fn kept_views<T: Copy>(w: Weights<'_, T>) -> Seq<Seq<T>> {
    seq![
        w.enc_bq@,
        w.enc_bk@,
        w.enc_bv@,
        w.enc_bo@,
        w.enc_ln_att_w@,
        w.enc_ln_att_b@,
        w.enc_fc1_b@,
        w.enc_fc2_b@,
        w.enc_ln_ffn_w@,
        w.enc_ln_ffn_b@,
        w.dec_bq@,
        w.dec_bk@,
        w.dec_bv@,
        w.dec_bo@,
        w.dec_ln_self_w@,
        w.dec_ln_self_b@,
        w.dec_cross_bq@,
        w.dec_cross_bk@,
        w.dec_cross_bv@,
        w.dec_cross_bo@,
        w.dec_ln_cross_w@,
        w.dec_ln_cross_b@,
        w.dec_fc1_b@,
        w.dec_fc2_b@,
        w.dec_ln_ffn_w@,
        w.dec_ln_ffn_b@,
        w.final_logits_bias@,
    ]
}

/// The matmul tensors of a weight view, in storage order.
pub open spec fn matmul_views<T: Copy>(w: Weights<'_, T>) -> Seq<Seq<T>> {
    seq![
        w.token_embedding@,
        w.enc_wq@,
        w.enc_wk@,
        w.enc_wv@,
        w.enc_wo@,
        w.enc_fc1_w@,
        w.enc_fc2_w@,
        w.dec_wq@,
        w.dec_wk@,
        w.dec_wv@,
        w.dec_wo@,
        w.dec_cross_wq@,
        w.dec_cross_wk@,
        w.dec_cross_wv@,
        w.dec_cross_wo@,
        w.dec_fc1_w@,
        w.dec_fc2_w@,
    ]
}

/// The kept tensors of a weight view, in storage order.
fn kept_tensors<'a, T: Copy>(w: &Weights<'a, T>) -> (r: [&'a [T]; 27])
    ensures
        r@.map_values(|s: &[T]| s@) == kept_views(*w),
{
    let r = [
        w.enc_bq,
        w.enc_bk,
        w.enc_bv,
        w.enc_bo,
        w.enc_ln_att_w,
        w.enc_ln_att_b,
        w.enc_fc1_b,
        w.enc_fc2_b,
        w.enc_ln_ffn_w,
        w.enc_ln_ffn_b,
        w.dec_bq,
        w.dec_bk,
        w.dec_bv,
        w.dec_bo,
        w.dec_ln_self_w,
        w.dec_ln_self_b,
        w.dec_cross_bq,
        w.dec_cross_bk,
        w.dec_cross_bv,
        w.dec_cross_bo,
        w.dec_ln_cross_w,
        w.dec_ln_cross_b,
        w.dec_fc1_b,
        w.dec_fc2_b,
        w.dec_ln_ffn_w,
        w.dec_ln_ffn_b,
        w.final_logits_bias,
    ];
    proof {
        assert(r@.map_values(|s: &[T]| s@) =~= kept_views(*w));
    }
    r
}

/// The matmul tensors of a weight view, in storage order.
fn matmul_tensors<'a, T: Copy>(w: &Weights<'a, T>) -> (r: [&'a [T]; 17])
    ensures
        r@.map_values(|s: &[T]| s@) == matmul_views(*w),
{
    let r = [
        w.token_embedding,
        w.enc_wq,
        w.enc_wk,
        w.enc_wv,
        w.enc_wo,
        w.enc_fc1_w,
        w.enc_fc2_w,
        w.dec_wq,
        w.dec_wk,
        w.dec_wv,
        w.dec_wo,
        w.dec_cross_wq,
        w.dec_cross_wk,
        w.dec_cross_wv,
        w.dec_cross_wo,
        w.dec_fc1_w,
        w.dec_fc2_w,
    ];
    proof {
        assert(r@.map_values(|s: &[T]| s@) =~= matmul_views(*w));
    }
    r
}

/// Copy the kept tensors of `w` into `out`, in storage order. `out` is filled completely.
pub fn pack_kept<T: Copy>(w: &Weights<'_, T>, out: &mut [T], c: &Config)
    requires
        w.shaped(*c),
        old(out)@.len() == total(kept_lens(*c)),
    ensures
        final(out)@ == joined(kept_views(*w), 27),
{
    let tensors = kept_tensors(w);
    let ghost views = kept_views(*w);
    proof {
        kept_shapes(*w, *c);
        assert(lens_of(views) =~= kept_lens(*c));
    }
    let mut at: usize = 0;
    let mut i: usize = 0;
    while i < 27
        invariant
            i <= 27,
            tensors@.map_values(|s: &[T]| s@) == views,
            views.len() == 27,
            out@.len() == total(lens_of(views)),
            at == offset(lens_of(views), i as int),
            out@.subrange(0, at as int) == joined(views, i as int),
        decreases 27 - i,
    {
        let src = tensors[i];
        let ghost start = at as int;
        proof {
            assert(src@ == tensors@.map_values(|s: &[T]| s@)[i as int]);
            crate::layout::offset_grows(lens_of(views), i + 1, 27);
            assert(out.len() == out@.len());
        }
        let mut j: usize = 0;
        while j < src.len()
            invariant
                j <= src@.len(),
                at == start + j,
                start + src@.len() <= out@.len(),
                out@.len() == total(lens_of(views)),
                out@.len() <= usize::MAX,
                out@.subrange(0, start) == joined(views, i as int),
                start >= 0,
                forall|k: int| 0 <= k < j ==> out@[start + k] == src@[k],
            decreases src@.len() - j,
        {
            let ghost before = out@;
            out[at] = src[j];
            proof {
                assert(out@.subrange(0, start) =~= before.subrange(0, start));
            }
            at = at + 1;
            j = j + 1;
        }
        proof {
            assert(out@.subrange(0, at as int) =~= joined(views, i as int) + src@);
        }
        i = i + 1;
    }
    proof {
        assert(out@.subrange(0, at as int) =~= out@);
    }
}

/// Whether groups of `group_size` divide every quantized tensor.
pub open spec fn divides_tensors(c: Config, group_size: nat) -> bool {
    forall|i: int| 0 <= i < 17 ==> #[trigger] quantized_lens(c)[i] % group_size == 0
}

/// Quantize the matmul matrices of `w` into `data` and `scales`, in storage order. Each
/// group is quantized by `f`. Both buffers are filled completely.
pub fn quantize_weights<T: Copy, F: Fn(&[T]) -> (Vec<i8>, T)>(
    w: &Weights<'_, T>,
    data: &mut [i8],
    scales: &mut [T],
    group_size: usize,
    c: &Config,
    f: &F,
)
    requires
        group_size > 0,
        w.shaped(*c),
        divides_tensors(*c, group_size as nat),
        old(data)@.len() == total(quantized_lens(*c)),
        old(scales)@.len() == total(quantized_lens(*c)) / group_size as nat,
        quantizes_groups(*f, group_size as nat),
    ensures
        final(data)@.len() == old(data)@.len(),
        final(scales)@.len() == old(scales)@.len(),
        forall|i: int|
            0 <= i < 17 ==> quantized_as(
                *f,
                #[trigger] matmul_views(*w)[i],
                group_size as nat,
                part(final(data)@, quantized_lens(*c), i),
                part(final(scales)@, group_lens(quantized_lens(*c), group_size as nat), i),
            ),
{
    let tensors = matmul_tensors(w);
    proof {
        matmul_shapes(*w, *c);
        groups_exact(quantized_lens(*c), group_size as nat, 17);
        assert(contents(tensors@) =~= matmul_views(*w));
        assert forall|i: int| 0 <= i < 17 implies (#[trigger] contents(tensors@)[i]).len()
            % group_size as nat == 0 by {
            assert(quantized_lens(*c)[i] % group_size as nat == 0);
            assert(lens_of(matmul_views(*w))[i] == quantized_lens(*c)[i]);
        }
    }
    quantize_all(&tensors, data, scales, group_size, f);
}

/// The matmul tensors of a shaped weight view have the lengths of the quantized layout.
proof fn matmul_shapes<T: Copy>(w: Weights<'_, T>, c: Config)
    requires
        w.shaped(c),
    ensures
        lens_of(matmul_views(w)) == quantized_lens(c),
{
    let t = w.tensors();
    assert(t[0].len() == weight_lens(c)[0]);
    assert(t[1].len() == weight_lens(c)[1]);
    assert(t[3].len() == weight_lens(c)[3]);
    assert(t[5].len() == weight_lens(c)[5]);
    assert(t[7].len() == weight_lens(c)[7]);
    assert(t[11].len() == weight_lens(c)[11]);
    assert(t[13].len() == weight_lens(c)[13]);
    assert(t[17].len() == weight_lens(c)[17]);
    assert(t[19].len() == weight_lens(c)[19]);
    assert(t[21].len() == weight_lens(c)[21]);
    assert(t[23].len() == weight_lens(c)[23]);
    assert(t[27].len() == weight_lens(c)[27]);
    assert(t[29].len() == weight_lens(c)[29]);
    assert(t[31].len() == weight_lens(c)[31]);
    assert(t[33].len() == weight_lens(c)[33]);
    assert(t[37].len() == weight_lens(c)[37]);
    assert(t[39].len() == weight_lens(c)[39]);
    assert(lens_of(matmul_views(w)) =~= quantized_lens(c));
}

/// The kept tensors of a shaped weight view have the lengths of the kept layout.
pub proof fn kept_shapes<T: Copy>(w: Weights<'_, T>, c: Config)
    requires
        w.shaped(c),
    ensures
        lens_of(kept_views(w)) == kept_lens(c),
{
    let t = w.tensors();
    assert(t[2].len() == weight_lens(c)[2]);
    assert(t[4].len() == weight_lens(c)[4]);
    assert(t[6].len() == weight_lens(c)[6]);
    assert(t[8].len() == weight_lens(c)[8]);
    assert(t[9].len() == weight_lens(c)[9]);
    assert(t[10].len() == weight_lens(c)[10]);
    assert(t[12].len() == weight_lens(c)[12]);
    assert(t[14].len() == weight_lens(c)[14]);
    assert(t[15].len() == weight_lens(c)[15]);
    assert(t[16].len() == weight_lens(c)[16]);
    assert(t[18].len() == weight_lens(c)[18]);
    assert(t[20].len() == weight_lens(c)[20]);
    assert(t[22].len() == weight_lens(c)[22]);
    assert(t[24].len() == weight_lens(c)[24]);
    assert(t[25].len() == weight_lens(c)[25]);
    assert(t[26].len() == weight_lens(c)[26]);
    assert(t[28].len() == weight_lens(c)[28]);
    assert(t[30].len() == weight_lens(c)[30]);
    assert(t[32].len() == weight_lens(c)[32]);
    assert(t[34].len() == weight_lens(c)[34]);
    assert(t[35].len() == weight_lens(c)[35]);
    assert(t[36].len() == weight_lens(c)[36]);
    assert(t[38].len() == weight_lens(c)[38]);
    assert(t[40].len() == weight_lens(c)[40]);
    assert(t[41].len() == weight_lens(c)[41]);
    assert(t[42].len() == weight_lens(c)[42]);
    assert(t[43].len() == weight_lens(c)[43]);
    assert(lens_of(kept_views(w)) =~= kept_lens(c));
}

/// Borrowed views of the quantized matmul matrices, each flat over all layers.
#[derive(Debug, Clone, Copy)]
pub struct QuantizedWeights<'a, S> {
    /// Shared token embedding table, `[vocab, d]`.
    pub token_embedding: QuantizedTensor<'a, S>,
    /// Encoder self-attention query projection, `[enc_layers, d, d]`.
    pub enc_wq: QuantizedTensor<'a, S>,
    /// Encoder self-attention key projection, `[enc_layers, d, d]`.
    pub enc_wk: QuantizedTensor<'a, S>,
    /// Encoder self-attention value projection, `[enc_layers, d, d]`.
    pub enc_wv: QuantizedTensor<'a, S>,
    /// Encoder self-attention output projection, `[enc_layers, d, d]`.
    pub enc_wo: QuantizedTensor<'a, S>,
    /// Encoder FFN up projection, `[enc_layers, enc_ffn, d]`.
    pub enc_fc1_w: QuantizedTensor<'a, S>,
    /// Encoder FFN down projection, `[enc_layers, d, enc_ffn]`.
    pub enc_fc2_w: QuantizedTensor<'a, S>,
    /// Decoder self-attention query projection, `[dec_layers, d, d]`.
    pub dec_wq: QuantizedTensor<'a, S>,
    /// Decoder self-attention key projection, `[dec_layers, d, d]`.
    pub dec_wk: QuantizedTensor<'a, S>,
    /// Decoder self-attention value projection, `[dec_layers, d, d]`.
    pub dec_wv: QuantizedTensor<'a, S>,
    /// Decoder self-attention output projection, `[dec_layers, d, d]`.
    pub dec_wo: QuantizedTensor<'a, S>,
    /// Cross-attention query projection, `[dec_layers, d, d]`.
    pub dec_cross_wq: QuantizedTensor<'a, S>,
    /// Cross-attention key projection, `[dec_layers, d, d]`.
    pub dec_cross_wk: QuantizedTensor<'a, S>,
    /// Cross-attention value projection, `[dec_layers, d, d]`.
    pub dec_cross_wv: QuantizedTensor<'a, S>,
    /// Cross-attention output projection, `[dec_layers, d, d]`.
    pub dec_cross_wo: QuantizedTensor<'a, S>,
    /// Decoder FFN up projection, `[dec_layers, dec_ffn, d]`.
    pub dec_fc1_w: QuantizedTensor<'a, S>,
    /// Decoder FFN down projection, `[dec_layers, d, dec_ffn]`.
    pub dec_fc2_w: QuantizedTensor<'a, S>,
}

impl<'a, S: Copy> QuantizedWeights<'a, S> {
    /// The quantized tensors in storage order.
    pub open spec fn tensors(self) -> Seq<QuantizedTensor<'a, S>> {
        seq![
            self.token_embedding,
            self.enc_wq,
            self.enc_wk,
            self.enc_wv,
            self.enc_wo,
            self.enc_fc1_w,
            self.enc_fc2_w,
            self.dec_wq,
            self.dec_wk,
            self.dec_wv,
            self.dec_wo,
            self.dec_cross_wq,
            self.dec_cross_wk,
            self.dec_cross_wv,
            self.dec_cross_wo,
            self.dec_fc1_w,
            self.dec_fc2_w,
        ]
    }

    /// Assemble the quantized views from the two flat buffers.
    ///
    /// Fails with [`EngineError::SizeMismatch`] if a buffer is shorter than required, and
    /// reports the lengths of the data buffer in either case.
    pub fn new(data: &'a [i8], scales: &'a [S], group_size: usize, c: &Config) -> (r: Result<
        QuantizedWeights<'a, S>,
        EngineError,
    >)
        requires
            group_size > 0,
        ensures
            ({
                let lens = quantized_lens(*c);
                let gs = group_size as nat;
                match r {
                    Ok(w) => {
                        &&& data@.len() >= total(lens) && scales@.len() >= total(lens) / gs
                        &&& forall|i: int|
                            0 <= i < 17 ==> is_quantized_part(
                                #[trigger] w.tensors()[i],
                                data@,
                                scales@,
                                lens,
                                gs,
                                i,
                            )
                    },
                    Err(e) => {
                        &&& data@.len() < total(lens) || scales@.len() < total(lens) / gs
                        &&& e == EngineError::SizeMismatch {
                            expected: saturated(total(lens) as int),
                            actual: data@.len() as usize,
                        }
                    },
                }
            }),
    {
        let lens = quantized_lens_checked(c);
        let need = total_checked(&lens);
        let short: bool = match need.to_option() {
            Some(n) => data.len() < n || scales.len() < n / group_size,
            None => true,
        };
        if short {
            return Err(
                EngineError::SizeMismatch { expected: saturate(&need), actual: data.len() },
            );
        }
        let mut at: usize = 0;
        let mut sat: usize = 0;
        let token_embedding = quantized_part(data, scales, &lens, 0, group_size, &mut at, &mut sat);
        let enc_wq = quantized_part(data, scales, &lens, 1, group_size, &mut at, &mut sat);
        let enc_wk = quantized_part(data, scales, &lens, 2, group_size, &mut at, &mut sat);
        let enc_wv = quantized_part(data, scales, &lens, 3, group_size, &mut at, &mut sat);
        let enc_wo = quantized_part(data, scales, &lens, 4, group_size, &mut at, &mut sat);
        let enc_fc1_w = quantized_part(data, scales, &lens, 5, group_size, &mut at, &mut sat);
        let enc_fc2_w = quantized_part(data, scales, &lens, 6, group_size, &mut at, &mut sat);
        let dec_wq = quantized_part(data, scales, &lens, 7, group_size, &mut at, &mut sat);
        let dec_wk = quantized_part(data, scales, &lens, 8, group_size, &mut at, &mut sat);
        let dec_wv = quantized_part(data, scales, &lens, 9, group_size, &mut at, &mut sat);
        let dec_wo = quantized_part(data, scales, &lens, 10, group_size, &mut at, &mut sat);
        let dec_cross_wq = quantized_part(data, scales, &lens, 11, group_size, &mut at, &mut sat);
        let dec_cross_wk = quantized_part(data, scales, &lens, 12, group_size, &mut at, &mut sat);
        let dec_cross_wv = quantized_part(data, scales, &lens, 13, group_size, &mut at, &mut sat);
        let dec_cross_wo = quantized_part(data, scales, &lens, 14, group_size, &mut at, &mut sat);
        let dec_fc1_w = quantized_part(data, scales, &lens, 15, group_size, &mut at, &mut sat);
        let dec_fc2_w = quantized_part(data, scales, &lens, 16, group_size, &mut at, &mut sat);
        Ok(
            QuantizedWeights {
                token_embedding,
                enc_wq,
                enc_wk,
                enc_wv,
                enc_wo,
                enc_fc1_w,
                enc_fc2_w,
                dec_wq,
                dec_wk,
                dec_wv,
                dec_wo,
                dec_cross_wq,
                dec_cross_wk,
                dec_cross_wv,
                dec_cross_wo,
                dec_fc1_w,
                dec_fc2_w,
            },
        )
    }
}

/// The kept tensors: every bias, every LayerNorm, and the output bias, each flat over all
/// layers.
#[derive(Debug, Clone, Copy, PartialEq)]
pub struct KeptWeights<'a, T> {
    /// Encoder self-attention query bias, `[enc_layers, d]`.
    pub enc_bq: &'a [T],
    /// Encoder self-attention key bias, `[enc_layers, d]`.
    pub enc_bk: &'a [T],
    /// Encoder self-attention value bias, `[enc_layers, d]`.
    pub enc_bv: &'a [T],
    /// Encoder self-attention output bias, `[enc_layers, d]`.
    pub enc_bo: &'a [T],
    /// Encoder self-attention LayerNorm weight, `[enc_layers, d]`.
    pub enc_ln_att_w: &'a [T],
    /// Encoder self-attention LayerNorm bias, `[enc_layers, d]`.
    pub enc_ln_att_b: &'a [T],
    /// Encoder FFN up bias, `[enc_layers, enc_ffn]`.
    pub enc_fc1_b: &'a [T],
    /// Encoder FFN down bias, `[enc_layers, d]`.
    pub enc_fc2_b: &'a [T],
    /// Encoder FFN LayerNorm weight, `[enc_layers, d]`.
    pub enc_ln_ffn_w: &'a [T],
    /// Encoder FFN LayerNorm bias, `[enc_layers, d]`.
    pub enc_ln_ffn_b: &'a [T],
    /// Decoder self-attention query bias, `[dec_layers, d]`.
    pub dec_bq: &'a [T],
    /// Decoder self-attention key bias, `[dec_layers, d]`.
    pub dec_bk: &'a [T],
    /// Decoder self-attention value bias, `[dec_layers, d]`.
    pub dec_bv: &'a [T],
    /// Decoder self-attention output bias, `[dec_layers, d]`.
    pub dec_bo: &'a [T],
    /// Decoder self-attention LayerNorm weight, `[dec_layers, d]`.
    pub dec_ln_self_w: &'a [T],
    /// Decoder self-attention LayerNorm bias, `[dec_layers, d]`.
    pub dec_ln_self_b: &'a [T],
    /// Cross-attention query bias, `[dec_layers, d]`.
    pub dec_cross_bq: &'a [T],
    /// Cross-attention key bias, `[dec_layers, d]`.
    pub dec_cross_bk: &'a [T],
    /// Cross-attention value bias, `[dec_layers, d]`.
    pub dec_cross_bv: &'a [T],
    /// Cross-attention output bias, `[dec_layers, d]`.
    pub dec_cross_bo: &'a [T],
    /// Cross-attention LayerNorm weight, `[dec_layers, d]`.
    pub dec_ln_cross_w: &'a [T],
    /// Cross-attention LayerNorm bias, `[dec_layers, d]`.
    pub dec_ln_cross_b: &'a [T],
    /// Decoder FFN up bias, `[dec_layers, dec_ffn]`.
    pub dec_fc1_b: &'a [T],
    /// Decoder FFN down bias, `[dec_layers, d]`.
    pub dec_fc2_b: &'a [T],
    /// Decoder FFN LayerNorm weight, `[dec_layers, d]`.
    pub dec_ln_ffn_w: &'a [T],
    /// Decoder FFN LayerNorm bias, `[dec_layers, d]`.
    pub dec_ln_ffn_b: &'a [T],
    /// Bias added to the logits, `[vocab]`.
    pub final_logits_bias: &'a [T],
}

impl<'a, T: Copy> KeptWeights<'a, T> {
    /// The kept tensors in storage order.
    pub open spec fn tensors(self) -> Seq<Seq<T>> {
        seq![
            self.enc_bq@,
            self.enc_bk@,
            self.enc_bv@,
            self.enc_bo@,
            self.enc_ln_att_w@,
            self.enc_ln_att_b@,
            self.enc_fc1_b@,
            self.enc_fc2_b@,
            self.enc_ln_ffn_w@,
            self.enc_ln_ffn_b@,
            self.dec_bq@,
            self.dec_bk@,
            self.dec_bv@,
            self.dec_bo@,
            self.dec_ln_self_w@,
            self.dec_ln_self_b@,
            self.dec_cross_bq@,
            self.dec_cross_bk@,
            self.dec_cross_bv@,
            self.dec_cross_bo@,
            self.dec_ln_cross_w@,
            self.dec_ln_cross_b@,
            self.dec_fc1_b@,
            self.dec_fc2_b@,
            self.dec_ln_ffn_w@,
            self.dec_ln_ffn_b@,
            self.final_logits_bias@,
        ]
    }

    /// Borrow the kept tensors straight from a weight view.
    pub fn from_weights(w: &Weights<'a, T>) -> (r: KeptWeights<'a, T>)
        ensures
            r.tensors() == kept_views(*w),
    {
        KeptWeights {
            enc_bq: w.enc_bq,
            enc_bk: w.enc_bk,
            enc_bv: w.enc_bv,
            enc_bo: w.enc_bo,
            enc_ln_att_w: w.enc_ln_att_w,
            enc_ln_att_b: w.enc_ln_att_b,
            enc_fc1_b: w.enc_fc1_b,
            enc_fc2_b: w.enc_fc2_b,
            enc_ln_ffn_w: w.enc_ln_ffn_w,
            enc_ln_ffn_b: w.enc_ln_ffn_b,
            dec_bq: w.dec_bq,
            dec_bk: w.dec_bk,
            dec_bv: w.dec_bv,
            dec_bo: w.dec_bo,
            dec_ln_self_w: w.dec_ln_self_w,
            dec_ln_self_b: w.dec_ln_self_b,
            dec_cross_bq: w.dec_cross_bq,
            dec_cross_bk: w.dec_cross_bk,
            dec_cross_bv: w.dec_cross_bv,
            dec_cross_bo: w.dec_cross_bo,
            dec_ln_cross_w: w.dec_ln_cross_w,
            dec_ln_cross_b: w.dec_ln_cross_b,
            dec_fc1_b: w.dec_fc1_b,
            dec_fc2_b: w.dec_fc2_b,
            dec_ln_ffn_w: w.dec_ln_ffn_w,
            dec_ln_ffn_b: w.dec_ln_ffn_b,
            final_logits_bias: w.final_logits_bias,
        }
    }

    /// Carve the kept tensors from a packed buffer.
    ///
    /// Fails with [`EngineError::SizeMismatch`] if `packed` is too short.
    pub fn carve(packed: &'a [T], c: &Config) -> (r: Result<KeptWeights<'a, T>, EngineError>)
        ensures
            ({
                let lens = kept_lens(*c);
                match r {
                    Ok(k) => {
                        &&& packed@.len() >= total(lens)
                        &&& forall|i: int|
                            0 <= i < 27 ==> #[trigger] k.tensors()[i] == part(packed@, lens, i)
                    },
                    Err(e) => {
                        &&& packed@.len() < total(lens)
                        &&& e == short_region::<T>(total(lens), packed@.len())
                    },
                }
            }),
    {
        let lens = kept_lens_checked(c);
        check_region::<T>(&total_checked(&lens), packed.len())?;
        let mut at: usize = 0;
        let enc_bq = cut_part(packed, &lens, 0, &mut at);
        let enc_bk = cut_part(packed, &lens, 1, &mut at);
        let enc_bv = cut_part(packed, &lens, 2, &mut at);
        let enc_bo = cut_part(packed, &lens, 3, &mut at);
        let enc_ln_att_w = cut_part(packed, &lens, 4, &mut at);
        let enc_ln_att_b = cut_part(packed, &lens, 5, &mut at);
        let enc_fc1_b = cut_part(packed, &lens, 6, &mut at);
        let enc_fc2_b = cut_part(packed, &lens, 7, &mut at);
        let enc_ln_ffn_w = cut_part(packed, &lens, 8, &mut at);
        let enc_ln_ffn_b = cut_part(packed, &lens, 9, &mut at);
        let dec_bq = cut_part(packed, &lens, 10, &mut at);
        let dec_bk = cut_part(packed, &lens, 11, &mut at);
        let dec_bv = cut_part(packed, &lens, 12, &mut at);
        let dec_bo = cut_part(packed, &lens, 13, &mut at);
        let dec_ln_self_w = cut_part(packed, &lens, 14, &mut at);
        let dec_ln_self_b = cut_part(packed, &lens, 15, &mut at);
        let dec_cross_bq = cut_part(packed, &lens, 16, &mut at);
        let dec_cross_bk = cut_part(packed, &lens, 17, &mut at);
        let dec_cross_bv = cut_part(packed, &lens, 18, &mut at);
        let dec_cross_bo = cut_part(packed, &lens, 19, &mut at);
        let dec_ln_cross_w = cut_part(packed, &lens, 20, &mut at);
        let dec_ln_cross_b = cut_part(packed, &lens, 21, &mut at);
        let dec_fc1_b = cut_part(packed, &lens, 22, &mut at);
        let dec_fc2_b = cut_part(packed, &lens, 23, &mut at);
        let dec_ln_ffn_w = cut_part(packed, &lens, 24, &mut at);
        let dec_ln_ffn_b = cut_part(packed, &lens, 25, &mut at);
        let final_logits_bias = cut_part(packed, &lens, 26, &mut at);
        Ok(
            KeptWeights {
                enc_bq,
                enc_bk,
                enc_bv,
                enc_bo,
                enc_ln_att_w,
                enc_ln_att_b,
                enc_fc1_b,
                enc_fc2_b,
                enc_ln_ffn_w,
                enc_ln_ffn_b,
                dec_bq,
                dec_bk,
                dec_bv,
                dec_bo,
                dec_ln_self_w,
                dec_ln_self_b,
                dec_cross_bq,
                dec_cross_bk,
                dec_cross_bv,
                dec_cross_bo,
                dec_ln_cross_w,
                dec_ln_cross_b,
                dec_fc1_b,
                dec_fc2_b,
                dec_ln_ffn_w,
                dec_ln_ffn_b,
                final_logits_bias,
            },
        )
    }
}

/// The total of the quantized tensors, by kind.
proof fn quantized_by_kind(c: Config)
    ensures
        ({
            let d = c.d_model as nat;
            let le = c.enc_layers as nat;
            let ld = c.dec_layers as nat;
            let fe = c.enc_ffn as nat;
            let fd = c.dec_ffn as nat;
            let vocab = c.vocab_size as nat;
            total(quantized_lens(c)) == vocab * d + 4 * (le * d * d) + le * fe * d + le * d * fe + 8
                * (ld * d * d) + ld * fd * d + ld * d * fd
        }),
{
    reveal_with_fuel(offset, 18);
}

/// The total of the kept tensors, by kind.
proof fn kept_by_kind(c: Config)
    ensures
        ({
            let d = c.d_model as nat;
            let le = c.enc_layers as nat;
            let ld = c.dec_layers as nat;
            let fe = c.enc_ffn as nat;
            let fd = c.dec_ffn as nat;
            let vocab = c.vocab_size as nat;
            total(kept_lens(c)) == 9 * (le * d) + le * fe + 15 * (ld * d) + ld * fd + vocab
        }),
{
    reveal_with_fuel(offset, 28);
}

/// Every weight is either quantized or kept, exactly once.
pub proof fn quantized_and_kept_make_up_the_weights(c: Config)
    ensures
        total(quantized_lens(c)) + total(kept_lens(c)) == total(weight_lens(c)),
{
    quantized_by_kind(c);
    kept_by_kind(c);
    weights_by_kind(c);
}

/// The kept tensors, by layer: nine vectors and a feed-forward bias per encoder layer,
/// fifteen and one per decoder layer, and the output bias.
pub proof fn kept_by_layer(c: Config)
    ensures
        total(kept_lens(c)) == c.enc_layers as nat * (9 * c.d_model as nat + c.enc_ffn as nat)
            + c.dec_layers as nat * (15 * c.d_model as nat + c.dec_ffn as nat)
            + c.vocab_size as nat,
{
    let d = c.d_model as nat;
    let le = c.enc_layers as nat;
    let ld = c.dec_layers as nat;
    let fe = c.enc_ffn as nat;
    let fd = c.dec_ffn as nat;
    let vocab = c.vocab_size as nat;
    kept_by_kind(c);
    assert(le * (9 * d + fe) == 9 * (le * d) + le * fe) by (nonlinear_arith);
    assert(ld * (15 * d + fd) == 15 * (ld * d) + ld * fd) by (nonlinear_arith);
}

/// Carving what was packed gives the tensors that were packed.
pub proof fn packing_round_trips<T: Copy>(w: Weights<'_, T>, k: KeptWeights<'_, T>, c: Config)
    requires
        w.shaped(c),
        forall|i: int|
            0 <= i < 27 ==> #[trigger] k.tensors()[i] == part(
                joined(kept_views(w), 27),
                kept_lens(c),
                i,
            ),
    ensures
        joined(kept_views(w), 27).len() == total(kept_lens(c)),
        k.tensors() == kept_views(w),
{
    kept_shapes(w, c);
    joined_len(kept_views(w), 27);
    assert forall|i: int| 0 <= i < 27 implies #[trigger] k.tensors()[i] == kept_views(w)[i] by {
        part_of_joined(kept_views(w), 27, i);
    }
    assert(k.tensors() =~= kept_views(w));
}

} // verus!
