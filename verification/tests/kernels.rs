//! The floating-point kernels, run on single-precision arithmetic.

use tiny_infer::kernels::{
    accumulate, add_bias, attention_head, embed_scale, gelu, layernorm, matmul, matmul_simd,
    rmsnorm, rope, silu, sinusoidal_into, softmax,
};
use tiny_infer::math::KvHead;
use tiny_infer::order::argmax;
use tiny_infer::scalar::Scalar;

/// Single-precision arithmetic on bit patterns.
fn single(s: Scalar) -> u32 {
    let f = f32::from_bits;
    let r = match s {
        Scalar::Add(x, y) => f(x) + f(y),
        Scalar::Sub(x, y) => f(x) - f(y),
        Scalar::Mul(x, y) => f(x) * f(y),
        Scalar::Div(x, y) => f(x) / f(y),
        Scalar::Sqrt(x) => libm::sqrtf(f(x)),
        Scalar::Exp(x) => libm::expf(f(x)),
        Scalar::Sin(x) => libm::sinf(f(x)),
        Scalar::Cos(x) => libm::cosf(f(x)),
        Scalar::Erf(x) => libm::erff(f(x)),
        Scalar::Pow(x, y) => libm::powf(f(x), f(y)),
        Scalar::Count(n) => n as f32,
        Scalar::Int(i) => i as f32,
        Scalar::Nearest(x) => return libm::roundf(f(x)) as i8 as u8 as u32,
        Scalar::SumLanes(v) => wide::f32x8::from(v.map(f)).reduce_add(),
    };
    r.to_bits()
}

/// Bit patterns of values.
fn bits(x: &[f32]) -> Vec<u32> {
    x.iter().map(|v| v.to_bits()).collect()
}

/// Values of bit patterns.
fn reals(x: &[u32]) -> Vec<f32> {
    x.iter().map(|v| f32::from_bits(*v)).collect()
}

fn close(a: f32, b: f32) -> bool {
    (a - b).abs() < 1e-5
}

fn one(x: u32) -> f32 {
    f32::from_bits(x)
}

#[test]
fn matmul_matches_hand_computation() {
    let w = bits(&[1.0, 2.0, 3.0, 4.0, 5.0, 6.0]);
    let x = bits(&[1.0, 0.0, -1.0]);
    let mut out = [0u32; 2];
    matmul(&mut out, &x, &w, 3, 2, &single);
    let out = reals(&out);
    assert!(close(out[0], -2.0));
    assert!(close(out[1], -2.0));
}

#[test]
fn matmul_simd_matches_scalar_including_the_tail() {
    let (d_in, d_out) = (11usize, 3usize);
    let w: Vec<f32> = (0..d_in * d_out).map(|i| (i as f32 * 0.13).sin()).collect();
    let x: Vec<f32> = (0..d_in).map(|i| (i as f32 * 0.7).cos()).collect();
    let mut a = vec![0u32; d_out];
    let mut b = vec![0u32; d_out];
    matmul(&mut a, &bits(&x), &bits(&w), d_in, d_out, &single);
    matmul_simd(&mut b, &bits(&x), &bits(&w), d_in, d_out, &single);
    for (x, y) in reals(&a).iter().zip(&reals(&b)) {
        assert!((x - y).abs() < 1e-5, "{x} vs {y}");
    }
}

#[test]
fn matmul_without_columns_is_zero() {
    let mut out = [7u32; 3];
    matmul(&mut out, &[], &[], 0, 3, &single);
    assert_eq!(out, [0, 0, 0]);
    let mut out = [7u32; 3];
    matmul_simd(&mut out, &[], &[], 0, 3, &single);
    assert_eq!(reals(&out), vec![0.0, 0.0, 0.0]);
}

#[test]
fn rmsnorm_normalizes_to_unit_rms_with_unit_gain() {
    let x = [1.0f32, 2.0, 3.0, 4.0];
    let g = [1.0f32; 4];
    let mut out = [0u32; 4];
    rmsnorm(&mut out, &bits(&x), &bits(&g), &single);
    let scale = 1.0 / (7.5f32 + 1e-5).sqrt();
    for (o, xi) in reals(&out).iter().zip(x.iter()) {
        assert!(close(*o, xi * scale));
    }
}

#[test]
fn rmsnorm_applies_gain() {
    let x = [2.0f32, 2.0];
    let g = [3.0f32, 0.5];
    let mut out = [0u32; 2];
    rmsnorm(&mut out, &bits(&x), &bits(&g), &single);
    let out = reals(&out);
    let scale = 1.0 / (4.0f32 + 1e-5).sqrt();
    assert!(close(out[0], 2.0 * scale * 3.0));
    assert!(close(out[1], 2.0 * scale * 0.5));
}

#[test]
fn softmax_is_a_distribution_and_shift_invariant() {
    let mut a = bits(&[1.0, 2.0, 3.0]);
    let mut b = bits(&[101.0, 102.0, 103.0]);
    softmax(&mut a, &single);
    softmax(&mut b, &single);
    let (a, b) = (reals(&a), reals(&b));
    let sum: f32 = a.iter().sum();
    assert!(close(sum, 1.0));
    assert!(a.iter().all(|&p| p > 0.0));
    for (x, y) in a.iter().zip(b.iter()) {
        assert!(close(*x, *y));
    }
}

#[test]
fn silu_known_values() {
    let silu = |z: f32| one(silu(z.to_bits(), &single));
    assert!(close(silu(0.0), 0.0));
    assert!(close(silu(1.0), 0.731_058_6));
    assert!(silu(20.0) > 19.99);
    assert!(silu(-20.0).abs() < 1e-6);
}

#[test]
fn rope_at_pos_zero_is_identity() {
    let mut q = bits(&[1.0, 2.0, 3.0, 4.0]);
    let mut k = bits(&[5.0, 6.0, 7.0, 8.0]);
    rope(&mut q, &mut k, 0, 2, 4, 4, &single);
    assert_eq!(reals(&q), [1.0, 2.0, 3.0, 4.0]);
    assert_eq!(reals(&k), [5.0, 6.0, 7.0, 8.0]);
}

#[test]
fn rope_rotates_first_pair_by_pos_times_angle() {
    let mut q = bits(&[1.0, 0.0]);
    let mut k = bits(&[1.0, 0.0]);
    rope(&mut q, &mut k, 1, 2, 2, 2, &single);
    let (q, k) = (reals(&q), reals(&k));
    assert!(close(q[0], 1.0f32.cos()));
    assert!(close(q[1], 1.0f32.sin()));
    assert!(close(k[0], 1.0f32.cos()));
    assert!(close(k[1], 1.0f32.sin()));
}

#[test]
fn rope_leaves_key_untouched_past_kv_dim() {
    let mut q = bits(&[1.0, 0.0, 1.0, 0.0]);
    let mut k = bits(&[1.0, 0.0, 9.0, 9.0]);
    rope(&mut q, &mut k, 1, 2, 4, 2, &single);
    let (q, k) = (reals(&q), reals(&k));
    assert_eq!(k[2], 9.0);
    assert_eq!(k[3], 9.0);
    assert!(close(q[2], 1.0f32.cos()));
    assert!(close(q[3], 1.0f32.sin()));
}

#[test]
fn accumulate_adds_in_place() {
    let mut dst = bits(&[1.0, 2.0, 3.0]);
    accumulate(&mut dst, &bits(&[10.0, 20.0, 30.0]), &single);
    assert_eq!(reals(&dst), [11.0, 22.0, 33.0]);
}

#[test]
fn argmax_picks_max_and_first_on_ties() {
    assert_eq!(argmax(&bits(&[0.1, 0.7, 0.2])).0, 1);
    assert_eq!(argmax(&bits(&[5.0])).0, 0);
    assert_eq!(argmax(&bits(&[2.0, 2.0, 1.0, 2.0])).0, 0);
    assert_eq!(argmax(&bits(&[-3.0, -1.0, -1.0])).0, 1);
}

#[test]
fn argmax_passes_over_what_is_no_number() {
    let (i, v) = argmax(&bits(&[1.0, f32::NAN, 2.0, -0.0]));
    assert_eq!((i, one(v)), (2, 2.0));
    // Nothing is greater than a leading one.
    assert_eq!(argmax(&bits(&[f32::NAN, 2.0])).0, 0);
    // Zeros are equal whatever their sign.
    assert_eq!(argmax(&bits(&[-0.0, 0.0])).0, 0);
    assert_eq!(argmax(&bits(&[f32::NEG_INFINITY, f32::MIN, f32::INFINITY])).0, 2);
}

#[test]
fn layernorm_standardizes_then_applies_affine() {
    let x = [1.0f32, 2.0, 3.0, 4.0];
    let (mean, var) = (2.5f32, 1.25f32);
    let inv = 1.0 / (var + 1e-5).sqrt();
    let mut out = [0u32; 4];
    layernorm(&mut out, &bits(&x), &bits(&[1.0; 4]), &bits(&[0.0; 4]), &single);
    let out = reals(&out);
    for (o, xi) in out.iter().zip(x.iter()) {
        assert!(close(*o, (xi - mean) * inv));
    }
    let out_mean: f32 = out.iter().sum::<f32>() / 4.0;
    assert!(out_mean.abs() < 1e-5);
    let w = [2.0f32, 0.5, 1.0, -1.0];
    let b = [0.1f32, 0.2, 0.3, 0.4];
    let mut out2 = [0u32; 4];
    layernorm(&mut out2, &bits(&x), &bits(&w), &bits(&b), &single);
    let out2 = reals(&out2);
    for i in 0..4 {
        assert!(close(out2[i], (x[i] - mean) * inv * w[i] + b[i]));
    }
}

#[test]
fn gelu_known_values() {
    let gelu = |z: f32| one(gelu(z.to_bits(), &single));
    assert!(close(gelu(0.0), 0.0));
    assert!(close(gelu(1.0), 0.841_344_7));
    assert!(close(gelu(-1.0), -0.158_655_3));
    assert!(gelu(8.0) > 7.999);
    assert!(gelu(-8.0).abs() < 1e-6);
}

#[test]
fn sinusoidal_matches_marian_layout() {
    let mut buf = bits(&[9.0; 8]);
    sinusoidal_into(&mut buf, 0, 8, &single);
    assert_eq!(reals(&buf), [0.0, 0.0, 0.0, 0.0, 1.0, 1.0, 1.0, 1.0]);
    let mut buf = bits(&[0.0; 8]);
    sinusoidal_into(&mut buf, 1, 8, &single);
    let hf = [
        0.841471, 0.099833, 0.01, 0.001, 0.540302, 0.995004, 0.99995, 1.0,
    ];
    for (b, h) in reals(&buf).iter().zip(hf.iter()) {
        assert!(close(*b, *h), "{b} vs {h}");
    }
    let mut buf = bits(&[7.0; 5]);
    sinusoidal_into(&mut buf, 0, 5, &single);
    assert_eq!(reals(&buf), [0.0, 0.0, 0.0, 1.0, 1.0]);
}

#[test]
fn embed_scale_is_sqrt_dim() {
    assert!(close(one(embed_scale(4, &single)), 2.0));
    assert!(close(one(embed_scale(512, &single)), 512.0f32.sqrt()));
}

#[test]
fn add_bias_adds_in_place() {
    let mut out = bits(&[1.0, -2.0, 3.0]);
    add_bias(&mut out, &bits(&[0.5, 0.5, -1.0]), &single);
    assert_eq!(reals(&out), [1.5, -1.5, 2.0]);
}

#[test]
fn attention_head_single_key_returns_that_value() {
    let keys = bits(&[0.3, -0.7, 1.1]);
    let values = bits(&[5.0, 6.0, 7.0]);
    let kv = KvHead { keys: &keys, values: &values, stride: 3, head_off: 0 };
    let q = bits(&[10.0, -4.0, 2.0]);
    let mut out = [0u32; 3];
    let mut scores = [0u32; 1];
    attention_head(&mut out, &q, &kv, 1, 0.25f32.to_bits(), &mut scores, &single);
    let out = reals(&out);
    assert!(close(out[0], 5.0) && close(out[1], 6.0) && close(out[2], 7.0));
}

#[test]
fn attention_head_equal_scores_average_the_values() {
    let keys = bits(&[1.0, 1.0, 1.0, 1.0, 1.0, 1.0]);
    let values = bits(&[0.0, 9.0, 3.0, 0.0, 6.0, 3.0]);
    let kv = KvHead { keys: &keys, values: &values, stride: 2, head_off: 0 };
    let q = bits(&[0.5, -0.5]);
    let mut out = [0u32; 2];
    let mut scores = [0u32; 3];
    attention_head(&mut out, &q, &kv, 3, 1.0f32.to_bits(), &mut scores, &single);
    let out = reals(&out);
    assert!(close(out[0], (0.0 + 3.0 + 6.0) / 3.0));
    assert!(close(out[1], (9.0 + 0.0 + 3.0) / 3.0));
}

#[test]
fn attention_head_matches_inline_reference_with_offset() {
    let (head_size, n_valid, stride, head_off) = (3usize, 4usize, 6usize, 3usize);
    let total = n_valid * stride;
    let keys: Vec<f32> = (0..total).map(|i| (i as f32 * 0.13).sin()).collect();
    let values: Vec<f32> = (0..total).map(|i| (i as f32 * 0.21).cos()).collect();
    let q: Vec<f32> = (0..head_size).map(|i| (i as f32 * 0.7).cos()).collect();
    let scale = 1.0 / (head_size as f32).sqrt();

    let mut ref_out = vec![0.0f32; head_size];
    let mut att = vec![0.0f32; n_valid];
    for (t, a) in att.iter_mut().enumerate() {
        let off = t * stride + head_off;
        let mut s = 0.0f32;
        for i in 0..head_size {
            s += q[i] * keys[off + i];
        }
        *a = s * scale;
    }
    let mut att = bits(&att);
    softmax(&mut att, &single);
    for (t, &a) in reals(&att).iter().enumerate() {
        let off = t * stride + head_off;
        for i in 0..head_size {
            ref_out[i] += a * values[off + i];
        }
    }

    let (kb, vb) = (bits(&keys), bits(&values));
    let kv = KvHead { keys: &kb, values: &vb, stride, head_off };
    let mut out = vec![0u32; head_size];
    let mut scores = vec![0u32; n_valid];
    attention_head(&mut out, &bits(&q), &kv, n_valid, scale.to_bits(), &mut scores, &single);
    assert_eq!(reals(&out), ref_out);
}

#[test]
fn layernorm_keeps_the_sign_of_a_zero_mean() {
    let (w, b) = (bits(&[1.0; 3]), bits(&[-0.0; 3]));
    let mut out = [7u32; 3];
    layernorm(&mut out, &bits(&[-0.0; 3]), &w, &b, &single);
    // The mean of negative zeros is negative zero, and the distance from it is zero.
    assert_eq!(out, [0; 3]);
    let x = [-0.0f32; 3];
    let mean = x.iter().sum::<f32>() / 3.0;
    assert_eq!(out[0], ((x[0] - mean) * 1.0 + -0.0).to_bits());
}
