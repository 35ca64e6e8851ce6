//! The forward passes, run on single-precision arithmetic.

use tiny_infer::arena::Arena;
use tiny_infer::llama::config::Config;
use tiny_infer::llama::generate::Generation;
use tiny_infer::llama::memory::{arena_floats, max_proj_d_in};
use tiny_infer::llama::model::{forward, ModelWeights};
use tiny_infer::llama::quantize::{
    quantize_weights, quantized_scale_count, quantized_weight_count, QuantizedWeights,
};
use tiny_infer::llama::state::RunState;
use tiny_infer::llama::tokenizer::{TokenEntry, Vocab};
use tiny_infer::llama::weights::{weight_floats, Weights};
use tiny_infer::math::Kernel;
use tiny_infer::q8::quantize_group;
use tiny_infer::quant::QuantScratch;
use tiny_infer::sample::{ProbIndex, Sampler};
use tiny_infer::scalar::Scalar;
use tiny_infer::seq2seq;
use tiny_infer::seq2seq::config::Activation;
use tiny_infer::seq2seq::decoder::{decode_step, greedy_decode, precompute_cross_kv};
use tiny_infer::seq2seq::generate::generate;
use tiny_infer::seq2seq::memory::seq2seq_arena_floats;
use tiny_infer::seq2seq::model::encode;
use tiny_infer::seq2seq::quantize::KeptWeights;

/// Single-precision arithmetic on bit patterns.
fn single(s: Scalar) -> u32 {
    let f = f32::from_bits;
    let r = match s {
        Scalar::Add(x, y) => f(x) + f(y),
        Scalar::Sub(x, y) => f(x) - f(y),
        Scalar::Mul(x, y) => f(x) * f(y),
        Scalar::Div(x, y) => f(x) / f(y),
        Scalar::Sqrt(x) => libm::sqrtf(f(x)),
        Scalar::Exp(x) => libm::expf(f(x)),
        Scalar::Sin(x) => libm::sinf(f(x)),
        Scalar::Cos(x) => libm::cosf(f(x)),
        Scalar::Erf(x) => libm::erff(f(x)),
        Scalar::Pow(x, y) => libm::powf(f(x), f(y)),
        Scalar::Count(n) => n as f32,
        Scalar::Int(i) => i as f32,
        Scalar::Nearest(x) => return libm::roundf(f(x)) as i8 as u8 as u32,
        Scalar::SumLanes(v) => wide::f32x8::from(v.map(f)).reduce_add(),
    };
    r.to_bits()
}

/// Bit patterns of values.
fn bits(x: &[f32]) -> Vec<u32> {
    x.iter().map(|v| v.to_bits()).collect()
}

/// Values of bit patterns.
fn reals(x: &[u32]) -> Vec<f32> {
    x.iter().map(|v| f32::from_bits(*v)).collect()
}

/// Grouped-query attention, two layers.
fn tiny_config() -> Config {
    Config {
        dim: 8,
        hidden_dim: 16,
        n_layers: 2,
        n_heads: 4,
        n_kv_heads: 2,
        vocab_size: 16,
        seq_len: 8,
        shared_weights: true,
    }
}

/// Pseudo-random values in a small range.
fn fake(n: usize, seed: u32) -> Vec<f32> {
    let mut state = seed;
    let mut v = Vec::with_capacity(n);
    for _ in 0..n {
        state ^= state << 13;
        state ^= state >> 17;
        state ^= state << 5;
        v.push((state as f32 / u32::MAX as f32 - 0.5) * 0.2);
    }
    v
}

fn fake_weights(c: &Config) -> Vec<u32> {
    bits(&fake(weight_floats(c), 0x1234_5678))
}

fn by_groups(g: &[u32]) -> (Vec<i8>, u32) {
    quantize_group(g, &single)
}

/// The logits after each token.
fn run(c: &Config, w: &ModelWeights<'_>, tokens: &[usize], kernel: Kernel) -> Vec<Vec<f32>> {
    let mut arena_buf = vec![0u32; arena_floats(c)];
    let mut arena = Arena::new(&mut arena_buf);
    let mut s = RunState::new(&mut arena, c).unwrap();
    let n = max_proj_d_in(c);
    let (mut xq, mut sc, mut gs) = (vec![0i8; n], vec![0u32; n], vec![0i32; n]);
    let scratch = QuantScratch::new(&mut xq, &mut sc, &mut gs, n).unwrap();
    let mut qs = matches!(w, ModelWeights::Q8(_)).then_some(scratch);
    let mut out = Vec::new();
    for (pos, &tok) in tokens.iter().enumerate() {
        forward(c, w, &mut s, tok, pos, kernel, &mut qs, &single);
        out.push(reals(s.logits));
    }
    out
}

#[test]
fn forward_produces_finite_logits_of_right_length() {
    let c = tiny_config();
    let wbuf = fake_weights(&c);
    let w = ModelWeights::F32(Weights::new(&wbuf, &c).unwrap());
    let logits = &run(&c, &w, &[3], Kernel::Simd)[0];
    assert_eq!(logits.len(), c.vocab_size);
    assert!(logits.iter().all(|x| x.is_finite()));
}

#[test]
fn forward_is_deterministic_across_positions() {
    let c = tiny_config();
    let wbuf = fake_weights(&c);
    let w = ModelWeights::F32(Weights::new(&wbuf, &c).unwrap());
    let tokens = [1usize, 5, 2, 7];
    assert_eq!(
        run(&c, &w, &tokens, Kernel::Scalar),
        run(&c, &w, &tokens, Kernel::Scalar)
    );
}

#[test]
fn attention_reads_history_from_the_cache() {
    let c = tiny_config();
    let wbuf = fake_weights(&c);
    let w = ModelWeights::F32(Weights::new(&wbuf, &c).unwrap());
    let run_pair = |first: usize| run(&c, &w, &[first, 7], Kernel::Simd)[1].clone();
    assert_ne!(run_pair(4), run_pair(5));
}

#[test]
fn forward_q8_tracks_fp32() {
    let c = tiny_config();
    let wbuf = fake_weights(&c);
    let fp32 = Weights::new(&wbuf, &c).unwrap();
    let group_size = 4;
    let mut data = vec![0i8; quantized_weight_count(&c)];
    let mut scales = vec![0u32; quantized_scale_count(&c, group_size)];
    quantize_weights(&fp32, &mut data, &mut scales, group_size, &c, &by_groups);
    let qw = QuantizedWeights::new(
        &data,
        &scales,
        fp32.rms_att,
        fp32.rms_ffn,
        fp32.rms_final,
        group_size,
        &c,
    )
    .unwrap();
    let a = run(&c, &ModelWeights::F32(fp32), &[3], Kernel::Scalar)[0].clone();
    let b = run(&c, &ModelWeights::Q8(qw), &[3], Kernel::Simd)[0].clone();
    assert_eq!(b.len(), c.vocab_size);
    assert!(b.iter().all(|x| x.is_finite()));
    let max_diff = a.iter().zip(&b).map(|(x, y)| (x - y).abs()).fold(0.0f32, f32::max);
    let max_abs = a.iter().map(|x| x.abs()).fold(0.0f32, f32::max);
    assert!(
        max_diff < 0.02 * max_abs,
        "q8 logits drifted from fp32: max_diff={max_diff}, max_abs={max_abs}"
    );
}

#[test]
fn scalar_and_simd_kernels_agree() {
    let c = tiny_config();
    let wbuf = fake_weights(&c);
    let fp32 = Weights::new(&wbuf, &c).unwrap();
    let group_size = 4;
    let mut data = vec![0i8; quantized_weight_count(&c)];
    let mut scales = vec![0u32; quantized_scale_count(&c, group_size)];
    quantize_weights(&fp32, &mut data, &mut scales, group_size, &c, &by_groups);
    let qw = QuantizedWeights::new(
        &data,
        &scales,
        fp32.rms_att,
        fp32.rms_ffn,
        fp32.rms_final,
        group_size,
        &c,
    )
    .unwrap();
    for w in [ModelWeights::F32(fp32), ModelWeights::Q8(qw)] {
        let scalar = &run(&c, &w, &[3], Kernel::Scalar)[0];
        let simd = &run(&c, &w, &[3], Kernel::Simd)[0];
        for (x, y) in scalar.iter().zip(simd) {
            assert!((x - y).abs() < 1e-4, "{x} vs {y}");
        }
    }
    // On quantized weights every kernel gives the same bits.
    let w = ModelWeights::Q8(qw);
    let scalar = run(&c, &w, &[3, 1, 4], Kernel::Scalar);
    assert_eq!(scalar, run(&c, &w, &[3, 1, 4], Kernel::Simd));
    assert_eq!(scalar, run(&c, &w, &[3, 1, 4], Kernel::Dotprod));
}

#[test]
fn a_pass_writes_its_own_cache_rows_only() {
    let c = tiny_config();
    let wbuf = fake_weights(&c);
    let w = ModelWeights::F32(Weights::new(&wbuf, &c).unwrap());
    let mut arena_buf = vec![0u32; arena_floats(&c)];
    let mut arena = Arena::new(&mut arena_buf);
    let mut s = RunState::new(&mut arena, &c).unwrap();
    forward(&c, &w, &mut s, 3, 0, Kernel::Scalar, &mut None, &single);
    let (keys, values) = (s.key_cache.to_vec(), s.value_cache.to_vec());
    forward(&c, &w, &mut s, 9, 1, Kernel::Scalar, &mut None, &single);
    let kv = c.kv_dim();
    for l in 0..c.n_layers {
        for t in 0..c.seq_len {
            let at = (l * c.seq_len + t) * kv;
            let same = s.key_cache[at..at + kv] == keys[at..at + kv]
                && s.value_cache[at..at + kv] == values[at..at + kv];
            assert_eq!(same, t != 1, "layer {l}, position {t}");
        }
    }
}

#[test]
fn the_future_does_not_matter() {
    let c = tiny_config();
    let wbuf = fake_weights(&c);
    let w = ModelWeights::F32(Weights::new(&wbuf, &c).unwrap());
    let a = run(&c, &w, &[1, 5, 2, 7], Kernel::Simd);
    let b = run(&c, &w, &[1, 5, 9, 3], Kernel::Simd);
    assert_eq!(a[..2], b[..2]);
    assert_ne!(a[2], b[2]);
}

fn marian_config(activation: Activation) -> seq2seq::config::Config {
    seq2seq::config::Config {
        d_model: 8,
        enc_layers: 2,
        dec_layers: 1,
        enc_heads: 2,
        dec_heads: 2,
        enc_ffn: 16,
        dec_ffn: 16,
        vocab_size: 12,
        max_src: 6,
        max_tgt: 5,
        pad_id: 11,
        eos_id: 0,
        bos_id: 0,
        norm_before: false,
        activation,
        scale_embedding: true,
    }
}

fn marian_weights(c: &seq2seq::config::Config) -> Vec<u32> {
    bits(&fake(seq2seq::weights::weight_floats(c), 0x9e37_79b9))
}

/// The encoder's output, in full precision with the scalar kernel.
fn encoded(c: &seq2seq::config::Config, wbuf: &[u32], tokens: &[usize]) -> Vec<f32> {
    let w = seq2seq::weights::Weights::new(wbuf, c).unwrap();
    let kept = KeptWeights::from_weights(&w);
    let mut buf = vec![0u32; seq2seq_arena_floats(c, tokens.len(), 0)];
    let mut arena = Arena::new(&mut buf);
    let mut s = seq2seq::state::RunState::new(&mut arena, c, tokens.len(), 0).unwrap();
    let mw = seq2seq::params::ModelWeights::F32(w);
    encode(c, &mw, &kept, &mut s, tokens, Kernel::Scalar, &mut None, &single);
    reals(s.enc_x)
}

#[test]
fn encode_produces_finite_output_of_right_shape() {
    for act in [Activation::Swish, Activation::Gelu] {
        let c = marian_config(act);
        let wbuf = marian_weights(&c);
        let tokens = [1usize, 5, 2, 7, 3];
        let out = encoded(&c, &wbuf, &tokens);
        assert_eq!(out.len(), tokens.len() * c.d_model);
        assert!(out.iter().all(|x| x.is_finite()));
    }
}

#[test]
fn encode_is_deterministic() {
    let c = marian_config(Activation::Swish);
    let wbuf = marian_weights(&c);
    let tokens = [4usize, 0, 9, 1];
    assert_eq!(encoded(&c, &wbuf, &tokens), encoded(&c, &wbuf, &tokens));
}

#[test]
fn encode_is_bidirectional() {
    let c = marian_config(Activation::Swish);
    let wbuf = marian_weights(&c);
    let a = encoded(&c, &wbuf, &[3usize, 5, 2]);
    let b = encoded(&c, &wbuf, &[3usize, 5, 8]);
    let d = c.d_model;
    assert!(a[..d].iter().zip(&b[..d]).any(|(x, y)| (x - y).abs() > 1e-6));
}

#[test]
fn layernorm_output_is_normalized() {
    let c = marian_config(Activation::Swish);
    let wbuf = marian_weights(&c);
    let tokens = [1usize, 2, 3];
    let out = encoded(&c, &wbuf, &tokens);
    let d = c.d_model;
    for row in out.chunks(d) {
        let mean: f32 = row.iter().sum::<f32>() / d as f32;
        assert!(mean.abs() < 0.5, "row mean {mean} too large");
    }
}

/// Run `f` over a model in full precision and one quantized in groups of four.
fn with_both(
    c: &seq2seq::config::Config,
    wbuf: &[u32],
    f: &dyn Fn(&seq2seq::params::ModelWeights<'_>, &KeptWeights<'_, u32>, &mut Option<QuantScratch<'_, u32>>),
) {
    let w = seq2seq::weights::Weights::new(wbuf, c).unwrap();
    let kept = KeptWeights::from_weights(&w);
    f(&seq2seq::params::ModelWeights::F32(w), &kept, &mut None);
    let gs = 4;
    let mut data = vec![0i8; seq2seq::quantize::quantized_weight_count(c)];
    let mut scales = vec![0u32; seq2seq::quantize::quantized_scale_count(c, gs)];
    seq2seq::quantize::quantize_weights(&w, &mut data, &mut scales, gs, c, &by_groups);
    let qw = seq2seq::quantize::QuantizedWeights::new(&data, &scales, gs, c).unwrap();
    let n = seq2seq::quantize::max_proj_d_in(c);
    let (mut xq, mut sc, mut sums) = (vec![0i8; n], vec![0u32; n], vec![0i32; n]);
    let scratch = QuantScratch::new(&mut xq, &mut sc, &mut sums, n).unwrap();
    f(&seq2seq::params::ModelWeights::Q8(qw), &kept, &mut Some(scratch));
}

/// The logits after each target token.
fn decoder_logits(
    c: &seq2seq::config::Config,
    mw: &seq2seq::params::ModelWeights<'_>,
    kept: &KeptWeights<'_, u32>,
    source: &[usize],
    target: &[usize],
    kernel: Kernel,
    qs: &mut Option<QuantScratch<'_, u32>>,
) -> Vec<Vec<f32>> {
    let (src, tgt) = (source.len(), target.len());
    let mut buf = vec![0u32; seq2seq_arena_floats(c, src, tgt)];
    let mut arena = Arena::new(&mut buf);
    let mut s = seq2seq::state::RunState::new(&mut arena, c, src, tgt).unwrap();
    encode(c, mw, kept, &mut s, source, kernel, qs, &single);
    precompute_cross_kv(c, mw, kept, &mut s, src, kernel, qs, &single);
    let mut out = Vec::new();
    for (pos, &token) in target.iter().enumerate() {
        decode_step(c, mw, kept, &mut s, token, pos, src, kernel, qs, &single);
        out.push(reals(s.logits));
    }
    out
}

#[test]
fn decoder_logits_are_finite_and_near_each_other() {
    for act in [Activation::Swish, Activation::Gelu] {
        let c = marian_config(act);
        let wbuf = marian_weights(&c);
        let w = seq2seq::weights::Weights::new(&wbuf, &c).unwrap();
        let kept = KeptWeights::from_weights(&w);
        let full = seq2seq::params::ModelWeights::F32(w);
        let want =
            decoder_logits(&c, &full, &kept, &[3, 5, 2], &[11, 4, 7], Kernel::Scalar, &mut None);
        assert_eq!(want.len(), 3);
        assert!(want.iter().all(|l| l.len() == c.vocab_size));
        assert!(want.iter().flatten().all(|x| x.is_finite()));
        with_both(&c, &wbuf, &|mw, kept, qs| {
            let got = decoder_logits(&c, mw, kept, &[3, 5, 2], &[11, 4, 7], Kernel::Simd, qs);
            let most = want.iter().flatten().fold(0.0f32, |m, v| m.max(v.abs()));
            for (x, y) in want.iter().flatten().zip(got.iter().flatten()) {
                assert!((x - y).abs() < 0.1 * most, "{x} vs {y}");
            }
        });
    }
}

#[test]
fn decoder_steps_read_the_source_and_the_history() {
    let c = marian_config(Activation::Swish);
    let wbuf = marian_weights(&c);
    with_both(&c, &wbuf, &|mw, kept, qs| {
        let mut run = |source: &[usize], target: &[usize], kernel| {
            decoder_logits(&c, mw, kept, source, target, kernel, qs)
        };
        let a = run(&[3, 5, 2], &[11, 4, 7, 1], Kernel::Simd);
        let other_source = run(&[3, 5, 8], &[11, 4, 7, 1], Kernel::Simd);
        let other_history = run(&[3, 5, 2], &[11, 6, 7, 1], Kernel::Simd);
        assert_ne!(a[0], other_source[0]);
        assert_ne!(a[2], other_history[2]);
        // The future does not matter.
        assert_eq!(a[0], other_history[0]);
        assert_eq!(a, run(&[3, 5, 2], &[11, 4, 7, 1], Kernel::Simd));
        if matches!(mw, seq2seq::params::ModelWeights::Q8(_)) {
            assert_eq!(a, run(&[3, 5, 2], &[11, 4, 7, 1], Kernel::Scalar));
            assert_eq!(a, run(&[3, 5, 2], &[11, 4, 7, 1], Kernel::Dotprod));
        }
    });
}

#[test]
fn greedy_decoding_takes_the_best_token_each_time() {
    let c = marian_config(Activation::Swish);
    let wbuf = marian_weights(&c);
    with_both(&c, &wbuf, &|mw, kept, qs| {
        let source = [3usize, 5, 2];
        let mut buf = vec![0u32; seq2seq_arena_floats(&c, 3, 5)];
        let mut arena = Arena::new(&mut buf);
        let mut s = seq2seq::state::RunState::new(&mut arena, &c, 3, 5).unwrap();
        let mut out = vec![99usize; 5];
        let n = greedy_decode(&c, mw, kept, &mut s, &source, &mut out, Kernel::Simd, qs, &single);
        assert!(out[n..].iter().all(|&t| t == 99));
        assert!(out[..n].iter().all(|&t| t != c.eos_id && t < c.vocab_size));
        // Feeding the tokens back gives each of them as the best one.
        let mut fed = vec![c.pad_id];
        fed.extend_from_slice(&out[..n]);
        fed.truncate(5);
        let logits = decoder_logits(&c, mw, kept, &source, &fed, Kernel::Simd, qs);
        for (i, row) in logits.iter().enumerate() {
            let bits: Vec<u32> = row.iter().map(|v| v.to_bits()).collect();
            let (next, _) = tiny_infer::order::argmax(&bits);
            assert_eq!(next, if i < n { out[i] } else { c.eos_id });
        }
    });
}

/// Generate the target of a source with a sampler.
fn generated(
    c: &seq2seq::config::Config,
    mw: &seq2seq::params::ModelWeights<'_>,
    kept: &KeptWeights<'_, u32>,
    source: &[usize],
    sampler: &mut Sampler,
    qs: &mut Option<QuantScratch<'_, u32>>,
) -> Vec<usize> {
    let mut buf = vec![0u32; seq2seq_arena_floats(c, source.len(), c.max_tgt)];
    let mut arena = Arena::new(&mut buf);
    let mut s = seq2seq::state::RunState::new(&mut arena, c, source.len(), c.max_tgt).unwrap();
    let mut nucleus: Vec<ProbIndex> =
        (0..c.vocab_size).map(|_| ProbIndex { prob: 0, token: 0 }).collect();
    generate(c, mw, kept, &mut s, source, sampler, &mut nucleus, Kernel::Simd, qs, &single)
}

#[test]
fn generation_at_temperature_zero_is_greedy_decoding() {
    let c = marian_config(Activation::Swish);
    let wbuf = marian_weights(&c);
    with_both(&c, &wbuf, &|mw, kept, qs| {
        for source in [vec![3usize, 5, 2], vec![1], vec![7, 4]] {
            let mut buf = vec![0u32; seq2seq_arena_floats(&c, source.len(), c.max_tgt)];
            let mut arena = Arena::new(&mut buf);
            let mut s =
                seq2seq::state::RunState::new(&mut arena, &c, source.len(), c.max_tgt).unwrap();
            let mut out = vec![0usize; c.max_tgt];
            let n =
                greedy_decode(&c, mw, kept, &mut s, &source, &mut out, Kernel::Simd, qs, &single);
            let mut sampler = Sampler::new(0, 0, 5);
            assert_eq!(generated(&c, mw, kept, &source, &mut sampler, qs), &out[..n]);
        }
    });
}

#[test]
fn sampled_generation_feeds_its_picks_back() {
    let c = marian_config(Activation::Swish);
    let wbuf = marian_weights(&c);
    with_both(&c, &wbuf, &|mw, kept, qs| {
        let source = [3usize, 5, 2];
        for seed in 0..8u64 {
            let settings = || Sampler::new(1.0f32.to_bits(), 0.9f32.to_bits(), seed);
            let ids = generated(&c, mw, kept, &source, &mut settings(), qs);
            assert!(ids.len() <= c.max_tgt);
            assert_eq!(ids, generated(&c, mw, kept, &source, &mut settings(), qs));
            // Feeding the tokens back gives logits from which the same draws pick them.
            let mut fed = vec![c.pad_id];
            fed.extend_from_slice(&ids);
            fed.truncate(c.max_tgt);
            let rows = decoder_logits(&c, mw, kept, &source, &fed, Kernel::Simd, qs);
            let mut sampler = settings();
            let mut nucleus: Vec<ProbIndex> =
                (0..c.vocab_size).map(|_| ProbIndex { prob: 0, token: 0 }).collect();
            for (i, row) in rows.iter().enumerate() {
                let next = sampler.sample(&bits(row), &mut nucleus, &single);
                assert_eq!(next, ids.get(i).copied().unwrap_or(c.eos_id));
            }
        }
    });
}

/// Generate to the end: what each step wrote, and the tokens that were fed.
fn generated_pieces(
    c: &Config,
    w: &ModelWeights<'_>,
    vocab: &Vocab,
    prompt: &[usize],
    mut sampler: Sampler,
    kernel: Kernel,
) -> (Vec<Option<Vec<u8>>>, Vec<usize>) {
    let mut arena_buf = vec![0u32; arena_floats(c)];
    let mut arena = Arena::new(&mut arena_buf);
    let mut s = RunState::new(&mut arena, c).unwrap();
    let n = max_proj_d_in(c);
    let (mut xq, mut sc, mut gs) = (vec![0i8; n], vec![0u32; n], vec![0i32; n]);
    let scratch = QuantScratch::new(&mut xq, &mut sc, &mut gs, n).unwrap();
    let mut qs = matches!(w, ModelWeights::Q8(_)).then_some(scratch);
    let mut nucleus: Vec<ProbIndex> =
        (0..c.vocab_size).map(|_| ProbIndex { prob: 0, token: 0 }).collect();
    let mut g = Generation::new(prompt.to_vec(), None, c.seq_len);
    let (mut outs, mut fed) = (Vec::new(), Vec::new());
    while g.running() {
        fed.push(g.token);
        outs.push(g.step(
            c, w, &mut s, vocab, &mut sampler, &mut nucleus, kernel, &mut qs, &single,
        ));
    }
    (outs, fed)
}

#[test]
fn a_generation_writes_its_prompt_and_then_its_picks() {
    let c = tiny_config();
    let wbuf = fake_weights(&c);
    let fp32 = Weights::new(&wbuf, &c).unwrap();
    let group_size = 4;
    let mut data = vec![0i8; quantized_weight_count(&c)];
    let mut scales = vec![0u32; quantized_scale_count(&c, group_size)];
    quantize_weights(&fp32, &mut data, &mut scales, group_size, &c, &by_groups);
    let qw = QuantizedWeights::new(
        &data,
        &scales,
        fp32.rms_att,
        fp32.rms_ffn,
        fp32.rms_final,
        group_size,
        &c,
    )
    .unwrap();
    let vocab = Vocab {
        max_token_length: 2,
        tokens: (0..c.vocab_size)
            .map(|i| TokenEntry { score: 0, bytes: vec![b' ', b'a' + i as u8] })
            .collect(),
    };
    let prompt = [1usize, 3, 7];
    for w in [ModelWeights::F32(fp32), ModelWeights::Q8(qw)] {
        for (temperature, topp) in [(0.0f32, 0.0f32), (1.0, 0.0), (1.0, 0.9)] {
            for seed in 0..6u64 {
                let sampler =
                    || Sampler::new(temperature.to_bits(), topp.to_bits(), seed);
                let make = |kernel| generated_pieces(&c, &w, &vocab, &prompt, sampler(), kernel);
                let (outs, fed) = make(Kernel::Simd);
                assert!(outs.len() <= c.seq_len);
                // Only the last step may write nothing.
                assert!(outs[..outs.len() - 1].iter().all(|o| o.is_some()));
                assert!(outs.len() == c.seq_len || outs.last().unwrap().is_none());
                // The prompt first; the token behind the opening one loses its space.
                assert_eq!(outs[..2], [Some(b"d".to_vec()), Some(b" h".to_vec())]);
                assert_eq!(fed[..3], prompt);
                // The logits of the tokens that were fed give the picks.
                let logits = run(&c, &w, &fed, Kernel::Simd);
                let mut nucleus: Vec<ProbIndex> =
                    (0..c.vocab_size).map(|_| ProbIndex { prob: 0, token: 0 }).collect();
                let mut again = sampler();
                for i in 2..outs.len() {
                    let next = again.sample(&bits(&logits[i]), &mut nucleus, &single);
                    match &outs[i] {
                        Some(piece) => assert_eq!(*piece, vocab.decode(fed[i], next)),
                        None => assert_eq!(next, 1),
                    }
                }
                assert_eq!(make(Kernel::Simd), (outs.clone(), fed.clone()));
                if matches!(w, ModelWeights::Q8(_)) {
                    assert_eq!(make(Kernel::Scalar), (outs.clone(), fed.clone()));
                    assert_eq!(make(Kernel::Dotprod), (outs, fed));
                }
            }
        }
    }
}
