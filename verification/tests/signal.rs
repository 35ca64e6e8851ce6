//! The convolutional kernels and the magnitudes of a spectrum.

use std::f32::consts::PI;

use tiny_infer::dsp::{magnitudes, FFT_BINS, FFT_LEN};
use tiny_infer::nn::{
    conv1d, conv1d_i8, conv1d_out_len, global_avg_pool, global_avg_pool_i8, matmul_i8,
};
use tiny_infer::order::relu;
use tiny_infer::scalar::Scalar;

/// Single-precision arithmetic on bit patterns.
fn single(s: Scalar) -> u32 {
    let f = f32::from_bits;
    let r = match s {
        Scalar::Add(x, y) => f(x) + f(y),
        Scalar::Sub(x, y) => f(x) - f(y),
        Scalar::Mul(x, y) => f(x) * f(y),
        Scalar::Div(x, y) => f(x) / f(y),
        Scalar::Sqrt(x) => libm::sqrtf(f(x)),
        Scalar::Exp(x) => libm::expf(f(x)),
        Scalar::Sin(x) => libm::sinf(f(x)),
        Scalar::Cos(x) => libm::cosf(f(x)),
        Scalar::Erf(x) => libm::erff(f(x)),
        Scalar::Pow(x, y) => libm::powf(f(x), f(y)),
        Scalar::Count(n) => n as f32,
        Scalar::Int(i) => i as f32,
        Scalar::Nearest(x) => return libm::roundf(f(x)) as i8 as u8 as u32,
        Scalar::SumLanes(v) => wide::f32x8::from(v.map(f)).reduce_add(),
    };
    r.to_bits()
}

/// Bit patterns of values.
fn bits(x: &[f32]) -> Vec<u32> {
    x.iter().map(|v| v.to_bits()).collect()
}

/// Values of bit patterns.
fn reals(x: &[u32]) -> Vec<f32> {
    x.iter().map(|v| f32::from_bits(*v)).collect()
}

fn close(a: f32, b: f32) -> bool {
    (a - b).abs() < 1e-5
}

/// The convolution of values.
fn conv(
    input: &[f32],
    weight: &[f32],
    bias: Option<&[f32]>,
    shape: (usize, usize, usize, usize, usize),
) -> Vec<f32> {
    let (c_in, c_out, l_in, k, stride) = shape;
    let mut out = vec![0u32; c_out * conv1d_out_len(l_in, k, stride)];
    let bias = bias.map(bits);
    conv1d(
        &mut out,
        &bits(input),
        &bits(weight),
        bias.as_deref(),
        c_in,
        c_out,
        l_in,
        k,
        stride,
        &single,
    );
    reals(&out)
}

#[test]
fn conv1d_out_len_arithmetic() {
    assert_eq!(conv1d_out_len(10, 3, 1), 8);
    assert_eq!(conv1d_out_len(10, 3, 2), 4);
    assert_eq!(conv1d_out_len(5, 2, 2), 2);
    assert_eq!(conv1d_out_len(7, 7, 1), 1);
    assert_eq!(conv1d_out_len(512, 8, 4), 127);
}

#[test]
fn conv1d_matches_hand_computation() {
    let out = conv(&[1.0, 2.0, 3.0, 4.0, 5.0], &[1.0, 2.0, 3.0], None, (1, 1, 5, 3, 1));
    assert!(close(out[0], 1.0 + 4.0 + 9.0));
    assert!(close(out[1], 2.0 + 6.0 + 12.0));
    assert!(close(out[2], 3.0 + 8.0 + 15.0));
}

#[test]
fn conv1d_honors_stride_and_bias() {
    let out = conv(&[1.0, 2.0, 3.0, 4.0, 5.0], &[1.0, 1.0], Some(&[10.0]), (1, 1, 5, 2, 2));
    assert!(close(out[0], 10.0 + 1.0 + 2.0));
    assert!(close(out[1], 10.0 + 3.0 + 4.0));
}

#[test]
fn conv1d_mixes_channels_in_weight_order() {
    let input = [1.0, 2.0, 3.0, 4.0, 5.0, 6.0];
    let weight = [1.0, 0.0, 0.0, 1.0, 1.0, 1.0, 1.0, 1.0];
    let out = conv(&input, &weight, None, (2, 2, 3, 2, 1));
    assert!(close(out[0], 6.0));
    assert!(close(out[1], 8.0));
    assert!(close(out[2], 12.0));
    assert!(close(out[3], 16.0));
}

fn max_abs(x: &[f32]) -> f32 {
    x.iter().fold(0.0f32, |m, &v| m.max(v.abs()))
}

/// A real scale as a mantissa and a shift.
fn quantize_multiplier(m: f64) -> (i32, i32) {
    if m == 0.0 {
        return (0, 0);
    }
    let exp = m.abs().log2().floor() as i32 + 1;
    let frac = m / (2f64).powi(exp);
    let mut q = (frac * (1i64 << 31) as f64).round() as i64;
    let mut shift = exp;
    if q == (1i64 << 31) {
        q /= 2;
        shift += 1;
    }
    (q as i32, shift)
}

fn q_i8(v: f32, scale: f32) -> i8 {
    if scale == 0.0 {
        0
    } else {
        (v / scale).round().clamp(-127.0, 127.0) as i8
    }
}

#[test]
fn conv1d_i8_tracks_fp32() {
    let (c_in, c_out, l_in, k, stride) = (2usize, 3usize, 8usize, 3usize, 2usize);
    let l_out = conv1d_out_len(l_in, k, stride);

    let input: Vec<f32> = (0..c_in * l_in).map(|i| libm::sinf(i as f32 * 0.37)).collect();
    let weight: Vec<f32> =
        (0..c_out * c_in * k).map(|i| libm::cosf(i as f32 * 0.21) * 0.5).collect();
    let bias: Vec<f32> = (0..c_out).map(|o| o as f32 * 0.05).collect();
    let out_f = conv(&input, &weight, Some(&bias), (c_in, c_out, l_in, k, stride));

    let s_x = max_abs(&input) / 127.0;
    let xq: Vec<i8> = input.iter().map(|&v| q_i8(v, s_x)).collect();
    let gs = c_in * k;
    let mut wq = vec![0i8; weight.len()];
    let mut s_w = vec![0.0f32; c_out];
    for o in 0..c_out {
        let row = &weight[o * gs..][..gs];
        s_w[o] = max_abs(row) / 127.0;
        for j in 0..gs {
            wq[o * gs + j] = q_i8(row[j], s_w[o]);
        }
    }
    let s_out = max_abs(&out_f) / 127.0;
    let bias_i: Vec<i32> =
        (0..c_out).map(|o| (bias[o] / (s_x * s_w[o])).round() as i32).collect();
    let mut mult = vec![0i32; c_out];
    let mut shift = vec![0i32; c_out];
    for o in 0..c_out {
        let (m, s) = quantize_multiplier((s_x * s_w[o] / s_out) as f64);
        mult[o] = m;
        shift[o] = s;
    }

    let mut out_q = vec![0i8; c_out * l_out];
    conv1d_i8(
        &mut out_q, &xq, &wq, &bias_i, &mult, &shift, -127, 127, c_in, c_out, l_in, k, stride,
    );
    for (a, &qi) in out_f.iter().zip(&out_q) {
        let deq = qi as f32 * s_out;
        assert!((a - deq).abs() < 0.05, "fp32 {a} vs int {deq}");
    }
}

#[test]
fn matmul_i8_is_exact_integer_dot() {
    let x = [1i8, -2, 3];
    let w = [1i8, 0, -1, 2, 2, 2];
    let mut out = [0i32; 2];
    matmul_i8(&mut out, &x, &w, 3, 2);
    assert_eq!(out[0], -2);
    assert_eq!(out[1], 4);
}

#[test]
fn global_avg_pool_i8_sums_and_requantizes() {
    let input = [10i8, 10, 10, 10, -8, -8, -8, -8];
    let mut out = [0i8; 2];
    global_avg_pool_i8(&mut out, &input, 2, 4, 1 << 30, 0, -127, 127);
    assert_eq!(out[0], 20);
    assert_eq!(out[1], -16);
}

#[test]
fn pooled_bytes_stay_in_their_range() {
    let mut out = [0i8; 2];
    global_avg_pool_i8(&mut out, &[100, 100, 100, -100, -100, -100], 2, 3, 1 << 30, 0, -90, 90);
    assert_eq!(out, [90, -90]);
}

#[test]
fn relu_clamps_negatives_and_passes_positives() {
    let mut x = bits(&[-1.0, 0.0, 2.5, -3.5, 4.0]);
    relu(&mut x);
    assert_eq!(reals(&x), [0.0, 0.0, 2.5, 0.0, 4.0]);
}

#[test]
fn global_avg_pool_averages_each_channel() {
    let mut out = [0u32; 2];
    global_avg_pool(&mut out, &bits(&[1.0, 2.0, 3.0, 4.0, 5.0, 6.0]), 2, 3, &single);
    let out = reals(&out);
    assert!(close(out[0], 2.0));
    assert!(close(out[1], 5.0));
}

#[test]
fn conv_relu_pool_composes_into_a_pipeline() {
    let input = [1.0, -2.0, 3.0, -4.0, 5.0];
    let weight = [1.0, 0.0, 0.0, -1.0, 0.0, 1.0];
    let l_out = conv1d_out_len(5, 3, 1);
    let conv = conv(&input, &weight, None, (1, 2, 5, 3, 1));
    assert!(close(conv[0], 1.0) && close(conv[1], -2.0) && close(conv[2], 3.0));
    assert!(close(conv[3], 2.0) && close(conv[4], -2.0) && close(conv[5], 2.0));
    let mut conv = bits(&conv);
    relu(&mut conv);
    let mut pooled = [0u32; 2];
    global_avg_pool(&mut pooled, &conv, 2, l_out, &single);
    let pooled = reals(&pooled);
    assert!(close(pooled[0], 4.0 / 3.0));
    assert!(close(pooled[1], 4.0 / 3.0));
}

/// The magnitudes of a signal's spectrum.
fn rfft512_mag(signal: &mut [f32; FFT_LEN], out: &mut [f32; FFT_BINS]) {
    let spectrum = microfft::real::rfft_512(signal);
    let re: Vec<u32> = spectrum.iter().map(|c| c.re.to_bits()).collect();
    let im: Vec<u32> = spectrum.iter().map(|c| c.im.to_bits()).collect();
    let mut mags = [0u32; FFT_BINS];
    magnitudes(&mut mags, &re, &im, &single);
    out.copy_from_slice(&reals(&mags));
}

#[test]
fn tone_concentrates_in_its_bin() {
    let k = 8usize;
    let mut sig = [0.0f32; FFT_LEN];
    for (n, s) in sig.iter_mut().enumerate() {
        *s = libm::cosf(2.0 * PI * k as f32 * n as f32 / FFT_LEN as f32);
    }
    let mut mag = [0.0f32; FFT_BINS];
    rfft512_mag(&mut sig, &mut mag);
    let peak = mag[k];
    assert!(peak > 200.0, "tone bin too small: {peak}");
    assert!(mag[k + 4] < peak * 0.05);
    assert!(mag[100] < peak * 0.05);
    let argmax = (1..FFT_BINS).max_by(|&a, &b| mag[a].total_cmp(&mag[b])).unwrap();
    assert_eq!(argmax, k);
}

#[test]
fn dc_signal_has_no_ac_energy() {
    let mut sig = [3.0f32; FFT_LEN];
    let mut mag = [0.0f32; FFT_BINS];
    rfft512_mag(&mut sig, &mut mag);
    assert!(mag[0] > 1.0);
    for &m in &mag[1..] {
        assert!(m < 1e-2, "spurious AC energy: {m}");
    }
}

#[test]
fn magnitude_is_that_of_a_triangle() {
    let mut out = [0u32; 2];
    magnitudes(&mut out, &bits(&[3.0, -5.0]), &bits(&[4.0, 12.0]), &single);
    assert_eq!(reals(&out), [5.0, 13.0]);
}

#[test]
fn negative_zeros_average_to_negative_zero() {
    for row in [vec![-0.0f32; 3], vec![-0.0, 0.0, -0.0], vec![1.5, -2.25, 0.5]] {
        let mut out = [7u32; 1];
        global_avg_pool(&mut out, &bits(&row), 1, 3, &single);
        let mean = row.iter().sum::<f32>() * (1.0 / 3.0f32);
        assert_eq!(out[0], mean.to_bits());
    }
    let mut out = [7u32; 1];
    global_avg_pool(&mut out, &bits(&[-0.0; 4]), 1, 4, &single);
    assert_eq!(out[0], 0x8000_0000);
}
