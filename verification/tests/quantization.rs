//! Quantization: the group quantizers, the int8 products, and fixed-point requantization.

use tiny_infer::error::EngineError;
use tiny_infer::math::{group_dot, group_dot_offset, group_dot_simd, group_sum, group_sums, Kernel};
use tiny_infer::q8::{
    matmul_q8, matmul_q8_dotprod, matmul_q8_simd, matmul_w8a8, quantize_group,
};
use tiny_infer::quant::{
    dequantize, quantize, quantize_activation, requantize, QuantScratch, QuantizedTensor,
};
use tiny_infer::scalar::Scalar;

/// Single-precision arithmetic on bit patterns.
fn single(s: Scalar) -> u32 {
    let f = f32::from_bits;
    let r = match s {
        Scalar::Add(x, y) => f(x) + f(y),
        Scalar::Sub(x, y) => f(x) - f(y),
        Scalar::Mul(x, y) => f(x) * f(y),
        Scalar::Div(x, y) => f(x) / f(y),
        Scalar::Sqrt(x) => libm::sqrtf(f(x)),
        Scalar::Exp(x) => libm::expf(f(x)),
        Scalar::Sin(x) => libm::sinf(f(x)),
        Scalar::Cos(x) => libm::cosf(f(x)),
        Scalar::Erf(x) => libm::erff(f(x)),
        Scalar::Pow(x, y) => libm::powf(f(x), f(y)),
        Scalar::Count(n) => n as f32,
        Scalar::Int(i) => i as f32,
        Scalar::Nearest(x) => return libm::roundf(f(x)) as i8 as u8 as u32,
        Scalar::SumLanes(v) => wide::f32x8::from(v.map(f)).reduce_add(),
    };
    r.to_bits()
}

/// Bit patterns of values.
fn bits(x: &[f32]) -> Vec<u32> {
    x.iter().map(|v| v.to_bits()).collect()
}

/// Values of bit patterns.
fn reals(x: &[u32]) -> Vec<f32> {
    x.iter().map(|v| f32::from_bits(*v)).collect()
}

fn close(a: f32, b: f32) -> bool {
    (a - b).abs() < 1e-5
}

fn by_groups(g: &[u32]) -> (Vec<i8>, u32) {
    quantize_group(g, &single)
}

fn scaled(v: i8, s: u32) -> u32 {
    single(Scalar::Mul(single(Scalar::Int(v as i32)), s))
}

/// Quantized values, their scales and the sums of the groups.
fn quant_act(x: &[f32], gs: usize) -> (Vec<i8>, Vec<u32>, Vec<i32>) {
    let mut xq = vec![0i8; x.len()];
    let mut xs = vec![0u32; x.len() / gs];
    let mut xg = vec![0i32; x.len() / gs];
    quantize_activation(&mut xq, &mut xs, &mut xg, &bits(x), gs, &by_groups);
    (xq, xs, xg)
}

#[test]
fn matmul_q8_simd_matches_scalar_exactly() {
    let (d_in, d_out, gs) = (16usize, 2usize, 8usize);
    let data: Vec<i8> = (0..d_in * d_out).map(|i| (i as i8) - 16).collect();
    let scales = bits(&[0.5, 0.25, 0.125, 0.0625]);
    let qw = QuantizedTensor { data: &data, scales: &scales, group_size: gs };
    let x: Vec<f32> = (0..d_in).map(|i| (i as f32 * 0.3).sin()).collect();
    let (xq, xs, _xg) = quant_act(&x, gs);

    let mut a = vec![0u32; d_out];
    let mut b = vec![0u32; d_out];
    matmul_q8(&mut a, &xq, &xs, &qw, d_in, d_out, &single);
    matmul_q8_simd(&mut b, &xq, &xs, &qw, d_in, d_out, &single);
    assert_eq!(a, b);
}

#[test]
fn matmul_q8_computes_the_scaled_integer_dot_product() {
    let (d_in, d_out, gs) = (8usize, 1usize, 4usize);
    let data: Vec<i8> = vec![1, -2, 3, -4, 5, -6, 7, -8];
    let scales = bits(&[1.0, 2.0]);
    let qw = QuantizedTensor { data: &data, scales: &scales, group_size: gs };
    let x = vec![1.0f32; d_in];
    let (xq, xs, _xg) = quant_act(&x, gs);
    assert!(xq.iter().all(|&v| v == 127));

    let mut scalar = vec![0u32; d_out];
    let mut simd = vec![0u32; d_out];
    matmul_q8(&mut scalar, &xq, &xs, &qw, d_in, d_out, &single);
    matmul_q8_simd(&mut simd, &xq, &xs, &qw, d_in, d_out, &single);
    assert!(close(reals(&scalar)[0], -6.0));
    assert_eq!(scalar, simd);
}

#[test]
fn math_matmul_q8_dotprod_matches_scalar_exactly() {
    for (d_in, d_out, gs) in [(96usize, 5usize, 32usize), (80usize, 5usize, 40usize)] {
        let data: Vec<i8> = (0..d_in * d_out)
            .map(|i| (((i * 37) % 255) as i32 - 127) as i8)
            .collect();
        let scales: Vec<f32> = (0..d_out * (d_in / gs))
            .map(|i| 0.01 + i as f32 * 0.003)
            .collect();
        let scales = bits(&scales);
        let qw = QuantizedTensor { data: &data, scales: &scales, group_size: gs };
        let x: Vec<f32> = (0..d_in).map(|i| (i as f32 * 0.21).sin() * 1.7).collect();
        let (xq, xs, xg) = quant_act(&x, gs);

        let mut scalar = vec![0u32; d_out];
        let mut dotprod = vec![0u32; d_out];
        matmul_q8(&mut scalar, &xq, &xs, &qw, d_in, d_out, &single);
        matmul_q8_dotprod(&mut dotprod, &xq, &xs, &xg, &qw, d_in, d_out, &single);
        assert_eq!(scalar, dotprod);
    }
}

#[test]
fn w8a8_kernels_agree_to_the_bit() {
    let (d_in, d_out, gs) = (48usize, 3usize, 12usize);
    let data: Vec<i8> = (0..d_in * d_out).map(|i| ((i * 53) % 251) as u8 as i8).collect();
    let scales: Vec<f32> = (0..d_out * (d_in / gs)).map(|i| 0.02 + i as f32 * 0.01).collect();
    let scales = bits(&scales);
    let qw = QuantizedTensor { data: &data, scales: &scales, group_size: gs };
    let x: Vec<f32> = (0..d_in).map(|i| (i as f32 * 0.4).cos()).collect();
    let mut outs = Vec::new();
    for kernel in [Kernel::Scalar, Kernel::Simd, Kernel::Dotprod] {
        let (mut xq, mut xs, mut xg) = (vec![0i8; d_in], vec![0u32; d_in], vec![0i32; d_in]);
        let mut qs = QuantScratch::new(&mut xq, &mut xs, &mut xg, d_in).unwrap();
        let mut out = vec![0u32; d_out];
        matmul_w8a8(kernel, &mut out, &bits(&x), &qw, d_in, d_out, &mut qs, &single);
        outs.push(out);
    }
    assert_eq!(outs[0], outs[1]);
    assert_eq!(outs[0], outs[2]);
    // And they are near the product in full precision.
    for o in 0..d_out {
        let want: f32 = (0..d_in)
            .map(|j| {
                let s = f32::from_bits(scales[(o * d_in + j) / gs]);
                data[o * d_in + j] as f32 * s * x[j]
            })
            .sum();
        let got = f32::from_bits(outs[0][o]);
        assert!((got - want).abs() < 0.5, "{got} vs {want}");
    }
}

#[test]
fn group_dots_agree_in_every_form() {
    let w: Vec<i8> = (0..21).map(|i| (i * 13 % 255) as u8 as i8).collect();
    let x: Vec<i8> = (0..21).map(|i| (i * 29 % 255) as u8 as i8).collect();
    let want: i32 = w.iter().zip(&x).map(|(a, b)| *a as i32 * *b as i32).sum();
    let sum: i32 = x.iter().map(|v| *v as i32).sum();
    assert_eq!(group_dot(&w, &x), want);
    assert_eq!(group_dot_simd(&w, &x), want);
    assert_eq!(group_sum(&x), sum);
    assert_eq!(group_dot_offset(&w, &x, sum), want);
    assert_eq!(group_sums(&[1, 2, 3, -4, -5, -6], 3), vec![6, -15]);
    assert_eq!(group_dot_simd(&[-128; 8], &[-128; 8]), 8 * 128 * 128);
}

/// Values quantize and come back within half a step.
fn roundtrip_within_half_a_step() {
    let x: Vec<f32> = (0..8).map(|i| (i as f32 - 3.5) * 0.7).collect();
    let mut data = vec![0i8; 8];
    let mut scales = vec![0u32; 2];
    quantize(&mut data, &mut scales, &bits(&x), 4, &by_groups);
    let mut back = vec![0u32; 8];
    let qx = QuantizedTensor { data: &data, scales: &scales, group_size: 4 };
    dequantize(&mut back, &qx, &scaled);
    for (i, (&orig, &deq)) in x.iter().zip(reals(&back).iter()).enumerate() {
        let step = f32::from_bits(scales[i / 4]);
        assert!((orig - deq).abs() <= step / 2.0 + 1e-6, "i={i}: {orig} vs {deq}");
    }
}

#[test]
fn quant_quantize_roundtrips_within_half_a_step() {
    roundtrip_within_half_a_step();
}

#[test]
fn quantize_quantize_roundtrips_within_half_a_step() {
    roundtrip_within_half_a_step();
}

/// Activations quantize as weights do, and the sums are those of the groups.
fn activation_matches_weight_quantizer() {
    let x: Vec<f32> = (0..8).map(|i| (i as f32 - 3.5) * 0.7).collect();
    let mut qi = vec![0i8; 8];
    let mut si = vec![0u32; 2];
    quantize(&mut qi, &mut si, &bits(&x), 4, &by_groups);
    let (qa, sa, gsums) = quant_act(&x, 4);
    assert_eq!(qi, qa);
    assert_eq!(si, sa);
    assert_eq!(gsums[0], qa[..4].iter().map(|&v| v as i32).sum::<i32>());
    assert_eq!(gsums[1], qa[4..].iter().map(|&v| v as i32).sum::<i32>());
}

#[test]
fn quant_quantize_activation_matches_weight_quantizer_and_sums_groups() {
    activation_matches_weight_quantizer();
}

#[test]
fn quantize_quantize_activation_matches_weight_quantizer_and_sums_groups() {
    activation_matches_weight_quantizer();
}

/// A group of zeros has scale zero.
fn zero_group() {
    let x = [0.0f32; 4];
    let mut data = [0i8; 4];
    let mut scales = bits(&[1.0]);
    quantize(&mut data, &mut scales, &bits(&x), 4, &by_groups);
    assert_eq!(f32::from_bits(scales[0]), 0.0);
    assert!(data.iter().all(|&q| q == 0));
}

#[test]
fn quant_all_zero_group_has_zero_scale_and_no_nan() {
    zero_group();
}

#[test]
fn quantize_all_zero_group_has_zero_scale_and_no_nan() {
    zero_group();
}

/// The largest magnitude of a group becomes the largest byte.
fn largest_to_the_rail() {
    let x = [1.0f32, -2.0, 0.5, 2.0];
    let mut data = [0i8; 4];
    let mut scales = [0u32; 1];
    quantize(&mut data, &mut scales, &bits(&x), 4, &by_groups);
    assert_eq!(f32::from_bits(scales[0]), 2.0 / 127.0);
    assert_eq!(data[1], -127);
    assert_eq!(data[3], 127);
}

#[test]
fn quant_max_magnitude_maps_to_the_rail() {
    largest_to_the_rail();
}

#[test]
fn quantize_max_magnitude_maps_to_the_rail() {
    largest_to_the_rail();
}

/// One layer of a stack of matrices.
fn second_layer() {
    let data: Vec<i8> = (0..16).map(|i| i as i8).collect();
    let scales = bits(&[1.0, 2.0, 3.0, 4.0]);
    let t = QuantizedTensor { data: &data, scales: &scales, group_size: 4 };
    let l1 = t.layer(1, 2, 4);
    assert_eq!(l1.data, &[8, 9, 10, 11, 12, 13, 14, 15]);
    assert_eq!(reals(l1.scales), [3.0, 4.0]);
    assert_eq!(l1.group_size, 4);
}

#[test]
fn quant_layer_slices_out_one_matrix() {
    second_layer();
}

#[test]
fn quantize_layer_slices_out_one_matrix() {
    second_layer();
}

#[test]
fn scratch_must_be_long_enough() {
    let (mut xq, mut xs, mut xg) = (vec![0i8; 8], vec![0u32; 8], vec![0i32; 7]);
    let r = QuantScratch::new(&mut xq, &mut xs, &mut xg, 8);
    assert!(matches!(r, Err(EngineError::ArenaOverflow { requested: 32, available: 28 })));
    let (mut short, mut xg) = (vec![0i8; 5], vec![0i32; 6]);
    let r = QuantScratch::new(&mut short, &mut xs, &mut xg, 8);
    assert!(matches!(r, Err(EngineError::ArenaOverflow { requested: 8, available: 5 })));
    let mut xg = vec![0i32; 8];
    assert!(QuantScratch::new(&mut xq, &mut xs, &mut xg, 8).is_ok());
}

/// A real scale as a mantissa and a shift.
fn quantize_multiplier(m: f64) -> (i32, i32) {
    if m == 0.0 {
        return (0, 0);
    }
    let exp = m.abs().log2().floor() as i32 + 1;
    let frac = m / (2f64).powi(exp);
    let mut shift = exp;
    let mut q = (frac * (1i64 << 31) as f64).round() as i64;
    if q == (1i64 << 31) {
        q /= 2;
        shift += 1;
    }
    (q as i32, shift)
}

#[test]
fn requantize_approximates_multiply_by_real_scale() {
    for &m in &[0.0009f64, 0.0123, 0.25, 0.5, 0.7777, 1.5, 3.25] {
        let (mult, shift) = quantize_multiplier(m);
        for &x in &[0i32, 1, -1, 7, -7, 1000, -1000, 32768, -32768, 1_000_000] {
            let got = requantize(x, mult, shift);
            let want = (x as f64 * m).round() as i32;
            assert!((got - want).abs() <= 1, "M={m} x={x}: requantize={got} want={want}");
        }
    }
}

#[test]
fn requantize_by_a_half_is_exact() {
    assert_eq!(requantize(40, 1 << 30, 0), 20);
    assert_eq!(requantize(-32, 1 << 30, 0), -16);
    assert_eq!(requantize(6, 1 << 30, -1), 2);
    assert_eq!(requantize(5, 1 << 30, 1), 5);
    assert_eq!(requantize(-3, 1 << 30, 4), -24);
    assert_eq!(requantize(i32::MIN, i32::MIN, 0), i32::MAX);
}
