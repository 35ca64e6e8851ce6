//! Picking the next token.

use rand::rngs::Xoshiro128PlusPlus;
use rand::{RngExt, SeedableRng};

use tiny_infer::llama::generate::Generation;
use tiny_infer::llama::tokenizer::{TokenEntry, Vocab};
use tiny_infer::sample::{ProbIndex, Sampler};
use tiny_infer::scalar::Scalar;

/// Single-precision arithmetic on bit patterns.
fn single(s: Scalar) -> u32 {
    let f = f32::from_bits;
    let r = match s {
        Scalar::Add(x, y) => f(x) + f(y),
        Scalar::Sub(x, y) => f(x) - f(y),
        Scalar::Mul(x, y) => f(x) * f(y),
        Scalar::Div(x, y) => f(x) / f(y),
        Scalar::Sqrt(x) => libm::sqrtf(f(x)),
        Scalar::Exp(x) => libm::expf(f(x)),
        Scalar::Sin(x) => libm::sinf(f(x)),
        Scalar::Cos(x) => libm::cosf(f(x)),
        Scalar::Erf(x) => libm::erff(f(x)),
        Scalar::Pow(x, y) => libm::powf(f(x), f(y)),
        Scalar::Count(n) => n as f32,
        Scalar::Int(i) => i as f32,
        Scalar::Nearest(x) => return libm::roundf(f(x)) as i8 as u8 as u32,
        Scalar::SumLanes(v) => wide::f32x8::from(v.map(f)).reduce_add(),
    };
    r.to_bits()
}

/// Bit patterns of values.
fn bits(x: &[f32]) -> Vec<u32> {
    x.iter().map(|v| v.to_bits()).collect()
}

/// A sampler on plain numbers.
struct Seeded(Sampler);

impl Seeded {
    fn new(temperature: f32, topp: f32, seed: u64) -> Seeded {
        Seeded(Sampler::new(temperature.to_bits(), topp.to_bits(), seed))
    }

    fn sample(&mut self, logits: &[f32], scratch: &mut [ProbIndex]) -> usize {
        self.0.sample(&bits(logits), scratch, &single)
    }
}

fn room(n: usize) -> Vec<ProbIndex> {
    (0..n).map(|_| ProbIndex { prob: 0, token: 0 }).collect()
}

#[test]
fn temperature_zero_is_greedy() {
    let mut s = Seeded::new(0.0, 0.0, 1);
    assert_eq!(s.sample(&[0.1, 9.0, 0.2, 0.3], &mut []), 1);
    assert_eq!(s.sample(&[2.0, 2.0, 1.0], &mut []), 0);
}

#[test]
fn tiny_topp_collapses_to_top_token() {
    let logits = [1.0f32, 5.0, 2.0, 0.5];
    let mut scratch = room(logits.len());
    let mut s = Seeded::new(1.0, 1e-6, 123);
    for _ in 0..8 {
        assert_eq!(s.sample(&logits, &mut scratch), 1);
    }
}

#[test]
fn is_reproducible_with_a_seed() {
    let logits = [1.0f32, 2.0, 0.5, 1.5, 3.0];
    let draws = |seed| {
        let mut scratch = room(logits.len());
        let mut s = Seeded::new(1.0, 0.9, seed);
        (0..16).map(|_| s.sample(&logits, &mut scratch)).collect::<Vec<_>>()
    };
    assert_eq!(draws(7), draws(7));
    assert!(draws(7).iter().all(|&t| t < logits.len()));
}

#[test]
fn full_sampling_favors_the_peak() {
    let logits = [0.0f32, 0.0, 8.0, 0.0];
    let mut s = Seeded::new(1.0, 0.0, 42);
    let hits = (0..200).filter(|_| s.sample(&logits, &mut []) == 2).count();
    assert!(hits > 180, "peak token won only {hits}/200 draws");
}

#[test]
fn zero_seed_samples_validly() {
    let logits = [1.0f32, 5.0, 2.0, 0.5];
    let mut scratch = room(logits.len());
    let mut s = Seeded::new(1.0, 0.9, 0);
    for _ in 0..1000 {
        assert!(s.sample(&logits, &mut scratch) < logits.len());
    }
}

#[test]
fn a_draw_picks_by_running_weight() {
    // Four equal weights: a draw in the third quarter picks the third token.
    let logits = [1.0f32; 4];
    let s = Sampler::new(1.0f32.to_bits(), 0.0f32.to_bits(), 0);
    for (draw, token) in [(0.0f32, 0usize), (0.3, 1), (0.6, 2), (0.99, 3)] {
        let got = s.pick(&bits(&logits), &mut [], draw.to_bits(), &single);
        assert_eq!(got, token);
    }
}

#[test]
fn the_nucleus_is_sorted_by_probability() {
    // The nucleus is the second and the fourth token, the more probable first.
    let logits = [0.0f32, 3.0, 0.0, 4.0];
    let s = Sampler::new(1.0f32.to_bits(), 0.9f32.to_bits(), 0);
    let mut scratch = room(4);
    for (draw, token) in [(0.0f32, 3usize), (0.7, 3), (0.8, 1), (0.999, 1)] {
        let got = s.pick(&bits(&logits), &mut scratch, draw.to_bits(), &single);
        assert_eq!(got, token, "draw {draw}");
    }
    // The scratch holds the sorted nucleus.
    assert_eq!((scratch[0].token, scratch[1].token), (3, 1));
}

#[test]
fn draws_are_those_of_the_seeded_generator() {
    let logits = [0.5f32, 1.5, 1.0, 2.0, 0.0, 1.75];
    for seed in [0u64, 1, 42, u64::MAX] {
        let mut rng = Xoshiro128PlusPlus::seed_from_u64(seed);
        let mut sampler = Seeded::new(0.8, 0.95, seed);
        let mut scratch = room(logits.len());
        for _ in 0..50 {
            let draw = rng.random::<f32>().to_bits();
            let expected = sampler.0.pick(&bits(&logits), &mut scratch, draw, &single);
            assert_eq!(sampler.sample(&logits, &mut scratch), expected);
        }
    }
}

#[test]
fn different_seeds_give_different_runs() {
    let logits = [1.0f32; 8];
    let run = |seed| {
        let mut s = Seeded::new(1.0, 0.0, seed);
        (0..32).map(|_| s.sample(&logits, &mut [])).collect::<Vec<_>>()
    };
    assert_ne!(run(1), run(2));
    assert_eq!(run(1), run(1));
}

#[test]
fn greedy_picks_draw_nothing() {
    let logits = [1.0f32, 3.0, 2.0];
    let mut s = Seeded::new(1.0, 0.0, 9);
    let expected: Vec<usize> = (0..16).map(|_| s.sample(&logits, &mut [])).collect();
    let mut t = Seeded::new(1.0, 0.0, 9);
    let got: Vec<usize> = (0..16)
        .map(|_| {
            t.0.temperature = 0;
            assert_eq!(t.sample(&logits, &mut []), 1);
            t.0.temperature = 1.0f32.to_bits();
            t.sample(&logits, &mut [])
        })
        .collect();
    assert_eq!(got, expected);
}

#[test]
fn a_turn_replays_samples_and_stops() {
    let entry = |text: &str| TokenEntry { score: 0, bytes: text.as_bytes().to_vec() };
    let vocab = Vocab {
        max_token_length: 6,
        tokens: ["<unk>", "<s>", "</s>", " a", "b", "<0x21>"].map(entry).into(),
    };
    let mut run = Generation::new(vec![1, 3], Some(8), 8);
    let mut sampler = Sampler::new(0, 0, 3);
    let best = |token: usize| {
        let mut row = [0.0f32; 6];
        row[token] = 1.0;
        bits(&row)
    };
    let mut written = Vec::new();
    // The first row is not sampled from: the prompt goes on.
    for row in [best(5), best(4), best(3), best(5), best(1), best(4)] {
        assert!(run.running() || run.stopped);
        if !run.running() {
            break;
        }
        written.push(run.turn(&vocab, &mut sampler, &row, &mut [], &single));
    }
    // The token behind the opening one loses its leading space, and a byte token is its byte.
    assert_eq!(
        written,
        [Some(b"a".to_vec()), Some(b"b".to_vec()), Some(b" a".to_vec()), Some(b"!".to_vec()), None]
    );
    assert!(run.stopped);
    assert_eq!((run.pos, run.decoded, run.prompt_tokens()), (5, 4, 2));
}

#[test]
fn the_nucleus_ends_where_the_threshold_is_reached() {
    // Four equal probabilities: two of them reach one half exactly.
    let logits = [1.0f32; 4];
    let s = Sampler::new(1.0f32.to_bits(), 0.5f32.to_bits(), 0);
    let mut scratch = room(4);
    let got = s.pick(&bits(&logits), &mut scratch, 0.99f32.to_bits(), &single);
    assert_eq!(got, scratch[1].token);
    let got = s.pick(&bits(&logits), &mut scratch, 0.0f32.to_bits(), &single);
    assert_eq!(got, scratch[0].token);
}
