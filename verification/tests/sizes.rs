//! Memory budgets, file sizes, and the views into weights, states and arenas.

use tiny_infer::arena::Arena;
use tiny_infer::error::EngineError;
use tiny_infer::llama::config::{Config, ModelFormat, HEADER_BYTES, VERSIONED_HEADER_BYTES};
use tiny_infer::llama::memory::{
    activation_floats, arena_floats, kv_cache_floats, max_proj_d_in, MemoryBudget,
};
use tiny_infer::llama::quantize::{
    quantize_weights, quantized_scale_count, quantized_weight_count, v2_tensor_sizes,
    QuantizedWeights,
};
use tiny_infer::llama::state::RunState;
use tiny_infer::llama::weights::{
    expected_file_bytes, weight_floats, weight_floats_v1, Weights,
};
use tiny_infer::seq2seq;
use tiny_infer::seq2seq::config::{Activation, SEQ2SEQ_HEADER_BYTES};
use tiny_infer::seq2seq::memory::{
    seq2seq_arena_floats, seq2seq_cross_kv_floats, seq2seq_encoder_floats, seq2seq_self_kv_floats,
    seq2seq_step_floats,
};
use tiny_infer::seq2seq::quantize::KeptWeights;

/// Quantize a group of values.
fn by_groups(g: &[f32]) -> (Vec<i8>, f32) {
    let peak = g.iter().fold(0.0f32, |m, v| m.max(v.abs()));
    let scale = peak / 127.0;
    let byte = |v: &f32| if scale == 0.0 { 0 } else { (v / scale).round() as i8 };
    (g.iter().map(byte).collect(), scale)
}

#[test]
fn allocations_are_disjoint_and_track_usage() {
    let mut buf = [0.0f32; 16];
    let mut arena = Arena::new(&mut buf);
    assert_eq!(arena.capacity(), 16);
    let a = arena.allocate(4).unwrap();
    let b = arena.allocate(4).unwrap();
    a[0] = 1.0;
    b[0] = 2.0;
    assert_eq!(a[0], 1.0);
    assert_eq!(b[0], 2.0);
    assert_eq!(arena.used(), 8);
    assert_eq!(arena.remaining(), 8);
    assert_eq!(arena.peak_bytes(), 8 * 4);
}

#[test]
fn alloc_zeroes_the_buffer() {
    let mut buf = [7.0f32; 8];
    let mut arena = Arena::new(&mut buf);
    let s = arena.allocate(8).unwrap();
    assert!(s.iter().all(|&v| v == 0.0));
}

#[test]
fn overflow_returns_error_and_preserves_state() {
    let mut buf = [0.0f32; 8];
    let mut arena = Arena::new(&mut buf);
    let _ = arena.allocate(6).unwrap();
    let err = arena.allocate(4).unwrap_err();
    assert_eq!(err, EngineError::ArenaOverflow { requested: 4 * 4, available: 2 * 4 });
    assert_eq!(arena.used(), 6);
    assert_eq!(arena.remaining(), 2);
    assert!(arena.allocate(2).is_ok());
}

#[test]
fn exact_fit_succeeds_then_empty() {
    let mut buf = [0.0f32; 4];
    let mut arena = Arena::new(&mut buf);
    assert!(arena.allocate(4).is_ok());
    assert_eq!(arena.remaining(), 0);
    assert!(arena.allocate(1).is_err());
    assert!(arena.allocate(0).is_ok());
}

fn stories15m() -> Config {
    Config {
        dim: 288,
        hidden_dim: 768,
        n_layers: 6,
        n_heads: 6,
        n_kv_heads: 6,
        vocab_size: 32000,
        seq_len: 256,
        shared_weights: true,
    }
}

#[test]
fn activation_budget_matches_hand_count() {
    let c = stories15m();
    let expect = 864 + 1536 + 288 + 1536 + 32000;
    assert_eq!(activation_floats(&c), expect);
    assert_eq!(max_proj_d_in(&c), 768);
}

#[test]
fn kv_cache_budget_matches_hand_count() {
    let c = stories15m();
    assert_eq!(kv_cache_floats(&c), 2 * 6 * 256 * 288);
    assert_eq!(kv_cache_floats(&c), 884_736);
}

#[test]
fn total_budget_is_about_3_5_mib() {
    let c = stories15m();
    let b = MemoryBudget::for_config(&c);
    assert_eq!(b.total_floats(), 36_224 + 884_736);
    assert!(b.kv_cache_floats > 20 * b.activation_floats);
    let mib = b.total_bytes() as f64 / (1024.0 * 1024.0);
    assert!((3.4..3.6).contains(&mib), "got {mib} MiB");
}

#[test]
fn memory_budget_is_const_evaluable() {
    let c = stories15m();
    let floats = arena_floats(&c);
    let budget = MemoryBudget::for_config(&c);
    assert!(budget.total_bytes() == floats * 4);
    assert_eq!(floats, 36_224 + 884_736);
    assert_eq!(budget.total_floats(), floats);
    assert_eq!(max_proj_d_in(&c), 768);
}

#[test]
fn budget_is_const_evaluable() {
    let c = marian_config(1);
    let floats = seq2seq_arena_floats(&c, 6, 5);
    let budget = seq2seq::memory::MemoryBudget::for_config(&c, 6, 5);
    assert!(budget.total_bytes() == floats * 4);
    assert_eq!(floats, 236);
    assert_eq!(budget.total_floats(), floats);
}

fn tiny_config(shared: bool) -> Config {
    Config {
        dim: 4,
        hidden_dim: 8,
        n_layers: 2,
        n_heads: 2,
        n_kv_heads: 1,
        vocab_size: 5,
        seq_len: 6,
        shared_weights: shared,
    }
}

#[test]
fn weights_weight_floats_matches_hand_sum() {
    let c = tiny_config(true);
    let expect = 20 + 8 + 32 + 16 + 16 + 32 + 8 + 64 + 64 + 64 + 4 + 12;
    assert_eq!(weight_floats(&c), expect);
    assert_eq!(expected_file_bytes(&c, ModelFormat::Legacy), HEADER_BYTES + expect * 4);
    assert_eq!(weight_floats_v1(&c), expect - 12);
    assert_eq!(
        expected_file_bytes(&c, ModelFormat::V1),
        VERSIONED_HEADER_BYTES + (expect - 12) * 4
    );
}

#[test]
fn weight_floats_matches_hand_sum() {
    let c = marian_config(1);
    let expect = 40 + 172 + 260 + 10;
    assert_eq!(seq2seq::weights::weight_floats(&c), expect);
    assert_eq!(
        seq2seq::weights::expected_file_bytes(&c),
        SEQ2SEQ_HEADER_BYTES + expect * 4
    );
}

#[test]
fn expected_v2_bytes_counts_norms_data_and_scales() {
    let c = tiny_config(true);
    let gs = 2;
    let data = quantized_weight_count(&c);
    let expect = VERSIONED_HEADER_BYTES + 20 * 4 + data + (data / gs) * 4;
    assert_eq!(expected_file_bytes(&c, ModelFormat::V2 { group_size: gs }), expect);
}

#[test]
fn v1_views_carve_the_same_tensors_at_their_v1_offsets() {
    let c = tiny_config(true);
    let buf: Vec<f32> = (0..weight_floats_v1(&c)).map(|i| i as f32).collect();
    let w = Weights::new_v1(&buf, &c).unwrap();
    assert_eq!(w.rms_att[0], 0.0);
    assert_eq!(w.rms_ffn[0], 8.0);
    assert_eq!(w.rms_final[0], 16.0);
    assert_eq!(w.token_embedding[0], 20.0);
    assert_eq!(w.wq[0], 40.0);
    assert_eq!(w.wk[0], 72.0);
    assert_eq!(w.wv[0], 88.0);
    assert_eq!(w.wo[0], 104.0);
    assert_eq!(w.w1[0], 136.0);
    assert_eq!(w.w2[0], 200.0);
    assert_eq!(w.w3[0], 264.0);
    assert_eq!(w.wcls.as_ptr(), w.token_embedding.as_ptr());
}

#[test]
fn v1_unshared_wcls_is_the_tail() {
    let c = tiny_config(false);
    let buf: Vec<f32> = (0..weight_floats_v1(&c)).map(|i| i as f32).collect();
    let w = Weights::new_v1(&buf, &c).unwrap();
    assert_eq!(w.wcls.len(), c.vocab_size * c.dim);
    assert_eq!(w.wcls[0], (weight_floats_v1(&c) - c.vocab_size * c.dim) as f32);
}

#[test]
fn v1_short_slice_is_rejected() {
    let c = tiny_config(true);
    let buf = vec![0.0f32; weight_floats_v1(&c) - 1];
    assert!(matches!(Weights::new_v1(&buf, &c), Err(EngineError::SizeMismatch { .. })));
}

#[test]
fn unshared_adds_classifier() {
    let shared = weight_floats(&tiny_config(true));
    let unshared = weight_floats(&tiny_config(false));
    assert_eq!(unshared - shared, 5 * 4);
}

#[test]
fn views_partition_the_slice_and_alias_wcls() {
    let c = tiny_config(true);
    let buf = vec![0.0f32; weight_floats(&c)];
    let w = Weights::new(&buf, &c).unwrap();
    assert_eq!(w.token_embedding.len(), c.vocab_size * c.dim);
    assert_eq!(w.wq.len(), c.n_layers * c.dim * c.dim);
    assert_eq!(w.rms_final.len(), c.dim);
    assert_eq!(w.wcls.as_ptr(), w.token_embedding.as_ptr());
}

#[test]
fn unshared_wcls_is_distinct_tail() {
    let c = tiny_config(false);
    let buf = vec![0.0f32; weight_floats(&c)];
    let w = Weights::new(&buf, &c).unwrap();
    assert_ne!(w.wcls.as_ptr(), w.token_embedding.as_ptr());
    assert_eq!(w.wcls.len(), c.vocab_size * c.dim);
}

#[test]
fn weights_short_slice_is_rejected() {
    let c = tiny_config(true);
    let n = weight_floats(&c);
    let buf = vec![0.0f32; n - 1];
    assert!(matches!(
        Weights::new(&buf, &c),
        Err(EngineError::SizeMismatch { expected, actual })
            if expected == n * 4 && actual == (n - 1) * 4
    ));
}

#[test]
fn short_slice_is_rejected() {
    let c = marian_config(1);
    let buf = vec![0.0f32; seq2seq::weights::weight_floats(&c) - 1];
    assert!(matches!(
        seq2seq::weights::Weights::new(&buf, &c),
        Err(EngineError::SizeMismatch { .. })
    ));
}

fn one_layer_config(shared: bool) -> Config {
    Config {
        dim: 4,
        hidden_dim: 8,
        n_layers: 1,
        n_heads: 2,
        n_kv_heads: 2,
        vocab_size: 6,
        seq_len: 4,
        shared_weights: shared,
    }
}

fn quantized(c: &Config, gs: usize) -> (Vec<i8>, Vec<f32>) {
    let wbuf: Vec<f32> = (0..weight_floats(c)).map(|i| (i as f32).sin() * 0.1).collect();
    let fp32 = Weights::new(&wbuf, c).unwrap();
    let mut data = vec![0i8; quantized_weight_count(c)];
    let mut scales = vec![0.0f32; quantized_scale_count(c, gs)];
    quantize_weights(&fp32, &mut data, &mut scales, gs, c, &by_groups);
    (data, scales)
}

#[test]
fn quantize_shared_weights_alias_wcls_to_the_embedding() {
    let c = one_layer_config(true);
    let gs = 2;
    let (data, scales) = quantized(&c, gs);
    let rms = vec![1.0f32; c.dim];
    let qw = QuantizedWeights::new(&data, &scales, &rms, &rms, &rms, gs, &c).unwrap();
    assert_eq!(qw.wcls.data.as_ptr(), qw.token_embedding.data.as_ptr());
    assert_eq!(qw.token_embedding.data.len(), c.vocab_size * c.dim);
}

#[test]
fn quantize_unshared_weights_give_wcls_its_own_table() {
    let c = one_layer_config(false);
    let gs = 2;
    let (data, scales) = quantized(&c, gs);
    let rms = vec![1.0f32; c.dim];
    let qw = QuantizedWeights::new(&data, &scales, &rms, &rms, &rms, gs, &c).unwrap();
    assert_ne!(qw.wcls.data.as_ptr(), qw.token_embedding.data.as_ptr());
    assert_eq!(qw.wcls.data.len(), c.vocab_size * c.dim);
}

#[test]
fn quantized_tensors_are_quantized_weights() {
    let c = one_layer_config(false);
    let gs = 2;
    let wbuf: Vec<f32> = (0..weight_floats(&c)).map(|i| (i as f32).sin() * 0.1).collect();
    let fp32 = Weights::new(&wbuf, &c).unwrap();
    let (data, scales) = quantized(&c, gs);
    let rms = vec![1.0f32; c.dim];
    let qw = QuantizedWeights::new(&data, &scales, &rms, &rms, &rms, gs, &c).unwrap();
    for (t, w) in [(qw.wo, fp32.wo), (qw.w2, fp32.w2), (qw.wcls, fp32.wcls)] {
        for (g, group) in w.chunks(gs).enumerate() {
            let (bytes, scale) = by_groups(group);
            assert_eq!(&t.data[g * gs..][..gs], &bytes[..]);
            assert_eq!(t.scales[g], scale);
        }
    }
    // One scale too few.
    assert!(matches!(
        QuantizedWeights::new(&data, &scales[1..], &rms, &rms, &rms, gs, &c),
        Err(EngineError::SizeMismatch { .. })
    ));
}

#[test]
fn v2_tensor_sizes_sum_to_the_quantized_weight_count() {
    for shared in [true, false] {
        let c = one_layer_config(shared);
        let sizes: Vec<usize> = v2_tensor_sizes(&c);
        let expect_count = 1 + 7 * c.n_layers + usize::from(!shared);
        assert_eq!(sizes.len(), expect_count);
        assert_eq!(sizes.iter().sum::<usize>(), quantized_weight_count(&c));
        assert_eq!(sizes[0], c.vocab_size * c.dim);
        if !shared {
            assert_eq!(*sizes.last().unwrap(), c.vocab_size * c.dim);
        }
    }
}

fn state_config() -> Config {
    Config {
        dim: 8,
        hidden_dim: 16,
        n_layers: 2,
        n_heads: 2,
        n_kv_heads: 1,
        vocab_size: 32,
        seq_len: 4,
        shared_weights: true,
    }
}

/// An encoder-decoder config with `dec_layers` decoder layers.
fn marian_config(dec_layers: usize) -> seq2seq::config::Config {
    seq2seq::config::Config {
        d_model: 4,
        enc_layers: 1,
        dec_layers,
        enc_heads: 2,
        dec_heads: 2,
        enc_ffn: 8,
        dec_ffn: 8,
        vocab_size: 10,
        max_src: 6,
        max_tgt: 5,
        pad_id: 9,
        eos_id: 0,
        bos_id: 0,
        norm_before: false,
        activation: Activation::Swish,
        scale_embedding: true,
    }
}

#[test]
fn state_carves_all_buffers_with_correct_sizes() {
    let c = state_config();
    let mut buf = vec![0.0f32; arena_floats(&c)];
    let mut arena = Arena::new(&mut buf);
    let s = RunState::new(&mut arena, &c).unwrap();
    let att_dim = c.n_heads * c.head_size();
    let kv_cache = c.n_layers * c.seq_len * c.kv_dim();
    assert_eq!(s.x.len(), c.dim);
    assert_eq!(s.xb.len(), c.dim);
    assert_eq!(s.xb2.len(), c.dim);
    assert_eq!(s.hb.len(), c.hidden_dim);
    assert_eq!(s.hb2.len(), c.hidden_dim);
    assert_eq!(s.q.len(), att_dim);
    assert_eq!(s.att.len(), c.n_heads * c.seq_len);
    assert_eq!(s.logits.len(), c.vocab_size);
    assert_eq!(s.key_cache.len(), kv_cache);
    assert_eq!(s.value_cache.len(), kv_cache);
}

#[test]
fn carves_all_buffers_with_correct_sizes() {
    let c = marian_config(2);
    let (src, tgt) = (6, 5);
    let mut buf = vec![0.0f32; seq2seq_arena_floats(&c, src, tgt)];
    let mut arena = Arena::new(&mut buf);
    let s = seq2seq::state::RunState::new(&mut arena, &c, src, tgt).unwrap();
    let d = c.d_model;
    assert_eq!(s.enc_x.len(), src * d);
    assert_eq!(s.enc_sub.len(), src * d);
    assert_eq!(s.enc_k.len(), src * d);
    assert_eq!(s.enc_v.len(), src * d);
    assert_eq!(s.enc_scores.len(), src);
    assert_eq!(s.cross_k.len(), c.dec_layers * src * d);
    assert_eq!(s.cross_v.len(), c.dec_layers * src * d);
    assert_eq!(s.self_k.len(), c.dec_layers * tgt * d);
    assert_eq!(s.self_v.len(), c.dec_layers * tgt * d);
    assert_eq!(s.x.len(), d);
    assert_eq!(s.q.len(), d);
    assert_eq!(s.attn.len(), d);
    assert_eq!(s.norm.len(), d);
    assert_eq!(s.ffn.len(), c.enc_ffn.max(c.dec_ffn));
    assert_eq!(s.scores.len(), c.dec_heads * src.max(tgt));
    assert_eq!(s.logits.len(), c.vocab_size);
}

#[test]
fn state_consumes_exactly_the_budget() {
    let c = state_config();
    let total = arena_floats(&c);
    let mut buf = vec![0.0f32; total];
    let mut arena = Arena::new(&mut buf);
    let _s = RunState::new(&mut arena, &c).unwrap();
    assert_eq!(arena.used(), total);
    assert_eq!(arena.remaining(), 0);
}

#[test]
fn consumes_exactly_the_budget() {
    let c = marian_config(2);
    let (src, tgt) = (6, 5);
    let total = seq2seq_arena_floats(&c, src, tgt);
    let mut buf = vec![0.0f32; total];
    let mut arena = Arena::new(&mut buf);
    let _s = seq2seq::state::RunState::new(&mut arena, &c, src, tgt).unwrap();
    assert_eq!(arena.used(), total);
    assert_eq!(arena.remaining(), 0);
}

#[test]
fn encode_only_state_zeroes_the_decoder_caches() {
    let c = marian_config(2);
    let src = 6;
    let mut buf = vec![0.0f32; seq2seq_arena_floats(&c, src, 0)];
    let mut arena = Arena::new(&mut buf);
    let s = seq2seq::state::RunState::new(&mut arena, &c, src, 0).unwrap();
    assert!(s.self_k.is_empty());
    assert!(s.self_v.is_empty());
    assert_eq!(s.cross_k.len(), c.dec_layers * src * c.d_model);
}

#[test]
fn state_too_small_arena_overflows() {
    let c = state_config();
    let mut buf = vec![0.0f32; arena_floats(&c) - 1];
    let mut arena = Arena::new(&mut buf);
    assert!(matches!(
        RunState::new(&mut arena, &c),
        Err(EngineError::ArenaOverflow { .. })
    ));
}

#[test]
fn too_small_arena_overflows() {
    let c = marian_config(2);
    let (src, tgt) = (6, 5);
    let mut buf = vec![0.0f32; seq2seq_arena_floats(&c, src, tgt) - 1];
    let mut arena = Arena::new(&mut buf);
    assert!(matches!(
        seq2seq::state::RunState::new(&mut arena, &c, src, tgt),
        Err(EngineError::ArenaOverflow { .. })
    ));
}

#[test]
fn budget_matches_hand_count() {
    let c = marian_config(1);
    let (src, tgt) = (6, 5);
    assert_eq!(seq2seq_encoder_floats(&c, src), 102);
    assert_eq!(seq2seq_cross_kv_floats(&c, src), 48);
    assert_eq!(seq2seq_self_kv_floats(&c, tgt), 40);
    assert_eq!(seq2seq_step_floats(&c, src, tgt), 46);
    assert_eq!(seq2seq_arena_floats(&c, src, tgt), 102 + 48 + 40 + 46);
    let b = seq2seq::memory::MemoryBudget::for_config(&c, src, tgt);
    assert_eq!(b.total_floats(), seq2seq_arena_floats(&c, src, tgt));
    assert_eq!(b.total_bytes(), b.total_floats() * 4);
    assert_eq!(
        (b.encoder_bytes(), b.cross_kv_bytes(), b.self_kv_bytes(), b.step_bytes()),
        (408, 192, 160, 184)
    );
}

#[test]
fn opus_mt_en_fr_budget_is_tens_of_mib() {
    let c = seq2seq::config::Config {
        d_model: 512,
        enc_layers: 6,
        dec_layers: 6,
        enc_heads: 8,
        dec_heads: 8,
        enc_ffn: 2048,
        dec_ffn: 2048,
        vocab_size: 59514,
        max_src: 512,
        max_tgt: 512,
        pad_id: 59513,
        eos_id: 0,
        bos_id: 0,
        norm_before: false,
        activation: Activation::Swish,
        scale_embedding: true,
    };
    let b = seq2seq::memory::MemoryBudget::for_config(&c, c.max_src, c.max_tgt);
    assert_eq!(b.cross_kv_floats, 2 * 6 * 512 * 512);
    assert_eq!(b.self_kv_floats, 2 * 6 * 512 * 512);
    let mib = b.total_bytes() as f64 / (1024.0 * 1024.0);
    assert!((28.0..29.0).contains(&mib), "got {mib} MiB");
}

#[test]
fn views_carve_tensors_at_their_disk_offsets() {
    let c = marian_config(1);
    let n = seq2seq::weights::weight_floats(&c);
    let buf: Vec<f32> = (0..n).map(|i| i as f32).collect();
    let w = seq2seq::weights::Weights::new(&buf, &c).unwrap();
    assert_eq!(w.token_embedding[0], 0.0);
    assert_eq!(w.token_embedding.len(), 40);
    assert_eq!(w.enc_wq[0], 40.0);
    assert_eq!(w.enc_bq[0], 56.0);
    assert_eq!(w.enc_wk[0], 60.0);
    assert_eq!(w.enc_wo[0], 100.0);
    assert_eq!(w.enc_ln_att_w[0], 120.0);
    assert_eq!(w.enc_fc1_w[0], 128.0);
    assert_eq!(w.enc_fc1_b[0], 160.0);
    assert_eq!(w.enc_fc2_w[0], 168.0);
    assert_eq!(w.enc_ln_ffn_b[0], 208.0);
    assert_eq!(w.dec_wq[0], 212.0);
    assert_eq!(w.dec_ln_self_w[0], 292.0);
    assert_eq!(w.dec_cross_wq[0], 300.0);
    assert_eq!(w.dec_ln_cross_b[0], 384.0);
    assert_eq!(w.dec_fc1_w[0], 388.0);
    assert_eq!(w.dec_ln_ffn_b[0], 468.0);
    assert_eq!(w.final_logits_bias[0], 472.0);
    assert_eq!(w.final_logits_bias.len(), c.vocab_size);
    assert_eq!(472 + c.vocab_size, n);
}

#[test]
fn weight_floats_is_const_evaluable() {
    let c = marian_config(1);
    let floats = seq2seq::weights::weight_floats(&c);
    let bytes = seq2seq::weights::expected_file_bytes(&c);
    assert!(bytes == SEQ2SEQ_HEADER_BYTES + floats * 4);
    assert_eq!(floats, 482);
}

fn quantizable_config() -> seq2seq::config::Config {
    seq2seq::config::Config {
        d_model: 8,
        enc_layers: 2,
        dec_layers: 1,
        enc_heads: 2,
        dec_heads: 2,
        enc_ffn: 16,
        dec_ffn: 16,
        vocab_size: 12,
        max_src: 6,
        max_tgt: 5,
        pad_id: 11,
        eos_id: 0,
        bos_id: 0,
        norm_before: false,
        activation: Activation::Swish,
        scale_embedding: true,
    }
}

fn fake_weights(c: &seq2seq::config::Config) -> Vec<f32> {
    (0..seq2seq::weights::weight_floats(c)).map(|i| (i as f32).sin() * 0.1).collect()
}

#[test]
fn counts_partition_the_weight_payload() {
    let c = quantizable_config();
    assert_eq!(
        seq2seq::quantize::quantized_weight_count(&c) + seq2seq::quantize::kept_floats(&c),
        seq2seq::weights::weight_floats(&c)
    );
    assert_eq!(seq2seq::quantize::max_proj_d_in(&c), 16);
}

#[test]
fn quantized_then_carved_views_have_the_right_shapes() {
    let c = quantizable_config();
    let gs = 4;
    let wbuf = fake_weights(&c);
    let fp32 = seq2seq::weights::Weights::new(&wbuf, &c).unwrap();
    let mut data = vec![0i8; seq2seq::quantize::quantized_weight_count(&c)];
    let mut scales = vec![0.0f32; seq2seq::quantize::quantized_scale_count(&c, gs)];
    seq2seq::quantize::quantize_weights(&fp32, &mut data, &mut scales, gs, &c, &by_groups);
    let qw = seq2seq::quantize::QuantizedWeights::new(&data, &scales, gs, &c).unwrap();
    let d = c.d_model;
    assert_eq!(qw.token_embedding.data.len(), c.vocab_size * d);
    assert_eq!(qw.enc_wq.data.len(), c.enc_layers * d * d);
    assert_eq!(qw.enc_fc1_w.data.len(), c.enc_layers * c.enc_ffn * d);
    assert_eq!(qw.dec_cross_wo.data.len(), c.dec_layers * d * d);
    assert_eq!(qw.dec_fc2_w.data.len(), c.dec_layers * d * c.dec_ffn);
    let l1 = qw.enc_wq.layer(1, d, d);
    assert_eq!(l1.data, &qw.enc_wq.data[d * d..2 * d * d]);
}

#[test]
fn packed_kept_roundtrips_to_the_borrowed_view() {
    let c = quantizable_config();
    let wbuf = fake_weights(&c);
    let fp32 = seq2seq::weights::Weights::new(&wbuf, &c).unwrap();
    let mut packed = vec![0.0f32; seq2seq::quantize::kept_floats(&c)];
    seq2seq::quantize::pack_kept(&fp32, &mut packed, &c);
    let carved = KeptWeights::carve(&packed, &c).unwrap();
    let borrowed = KeptWeights::from_weights(&fp32);
    assert_eq!(carved, borrowed);
    assert_eq!(carved.enc_bq, fp32.enc_bq);
    assert_eq!(carved.final_logits_bias, fp32.final_logits_bias);
}

#[test]
fn new_rejects_short_buffers() {
    let c = quantizable_config();
    let gs = 4;
    let data = vec![0i8; seq2seq::quantize::quantized_weight_count(&c) - 1];
    let scales = vec![0.0f32; seq2seq::quantize::quantized_scale_count(&c, gs)];
    assert!(matches!(
        seq2seq::quantize::QuantizedWeights::new(&data, &scales, gs, &c),
        Err(EngineError::SizeMismatch { .. })
    ));
    let n = seq2seq::quantize::kept_floats(&c);
    let short = vec![0.0f32; n - 1];
    assert!(matches!(
        KeptWeights::carve(&short, &c),
        Err(EngineError::SizeMismatch { expected, actual })
            if expected == 4 * n && actual == 4 * (n - 1)
    ));
}
