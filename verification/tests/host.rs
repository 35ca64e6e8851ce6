//! Arguments, decisions before a run, and the loops' decisions.

use tiny_infer::host::args::{Arg, Args, Target};
use tiny_infer::host::error::HostError;
use tiny_infer::host::run::{architecture, startup, Architecture, Startup};
use tiny_infer::llama;
use tiny_infer::llama::config::{Config, ModelFormat};
use tiny_infer::llama::generate::{
    check_group_size, report_quantization, resolve_seed, select_kernel, Advance, Generation,
};
use tiny_infer::llama::run::WeightSource;
use tiny_infer::math::Kernel;
use tiny_infer::seq2seq;
use tiny_infer::seq2seq::config::Activation;
use tiny_infer::seq2seq::generate::check_source;

/// The bit pattern of a number.
fn number(s: &str) -> Option<u32> {
    s.parse::<f32>().ok().map(f32::to_bits)
}

fn parse(args: &[&str]) -> Result<Args, HostError> {
    let args: Vec<Arg> = args
        .iter()
        .map(|s| Arg {
            text: s.to_string(),
            number: number(s),
            value_number: s.split_once('=').and_then(|(_, v)| number(v)),
        })
        .collect();
    Args::parse(&args)
}

fn usage<T>(r: Result<T, HostError>) -> String {
    match r {
        Err(HostError::Usage(msg)) => msg,
        _ => panic!("no usage error"),
    }
}

#[test]
fn positional_model_and_tokenizer() {
    let a = parse(&["model.bin", "tok.bin"]).unwrap();
    assert_eq!(a.model.as_deref(), Some("model.bin"));
    assert_eq!(a.tokenizer.as_deref(), Some("tok.bin"));
}

#[test]
fn help_flag() {
    assert!(parse(&["--help"]).unwrap().help);
}

#[test]
fn missing_flag_value_is_usage_error() {
    assert!(matches!(parse(&["-m"]), Err(HostError::Usage(_))));
}

#[test]
fn unknown_flag_is_usage_error() {
    assert!(matches!(parse(&["--frobnicate"]), Err(HostError::Usage(_))));
}

#[test]
fn too_many_positionals_is_error() {
    assert!(matches!(parse(&["a.bin", "b.bin", "c.bin"]), Err(HostError::Usage(_))));
}

#[test]
fn generation_flags_parse() {
    let a = parse(&["-m", "m.bin", "-p", "Once upon a time", "-n", "64"]).unwrap();
    assert_eq!(a.prompt.as_deref(), Some("Once upon a time"));
    assert_eq!(a.steps, Some(64));
    assert_eq!(f32::from_bits(a.temperature), 0.0);
    assert_eq!(a.seed, None);

    let b = parse(&[
        "m.bin",
        "--prompt=hi",
        "--temperature=0.9",
        "--topp=0.8",
        "--seed=42",
    ])
    .unwrap();
    assert_eq!(b.prompt.as_deref(), Some("hi"));
    assert_eq!(f32::from_bits(b.temperature), 0.9);
    assert_eq!(f32::from_bits(b.topp), 0.8);
    assert_eq!(b.seed, Some(42));
}

#[test]
fn quantization_flags_parse() {
    let def = parse(&["m.bin"]).unwrap();
    assert!(!def.quantize);
    assert_eq!(def.group_size, 32);
    assert!(!def.scalar);
    assert!(!def.dotprod);

    let a = parse(&["m.bin", "-q", "--group-size", "64", "--scalar"]).unwrap();
    assert!(a.quantize);
    assert_eq!(a.group_size, 64);
    assert!(a.scalar);

    let d = parse(&["m.bin", "-q", "--dotprod"]).unwrap();
    assert!(d.dotprod);
    assert!(!d.scalar);

    let b = parse(&["m.bin", "--quantize", "--group-size=96"]).unwrap();
    assert!(b.quantize);
    assert_eq!(b.group_size, 96);
}

#[test]
fn convert_flags_parse() {
    let def = parse(&["m.bin"]).unwrap();
    assert!(def.convert.is_none());
    assert!(def.to.is_none());

    let a = parse(&["m.bin", "--convert", "out.bin", "--to", "v1"]).unwrap();
    assert_eq!(a.convert.as_deref(), Some("out.bin"));
    assert_eq!(a.to, Some(Target::V1));

    let b = parse(&["m.bin", "--convert=out.bin", "--to=v2"]).unwrap();
    assert_eq!(b.convert.as_deref(), Some("out.bin"));
    assert_eq!(b.to, Some(Target::V2));

    assert!(matches!(
        parse(&["m.bin", "--convert", "o.bin", "--to", "v3"]),
        Err(HostError::Usage(_))
    ));
}

#[test]
fn bad_steps_value_is_usage_error() {
    assert!(matches!(parse(&["m.bin", "-n", "lots"]), Err(HostError::Usage(_))));
    assert!(matches!(parse(&["m.bin", "--temperature=warm"]), Err(HostError::Usage(_))));
    assert!(matches!(parse(&["m.bin", "--seed=soon"]), Err(HostError::Usage(_))));
    assert!(matches!(parse(&["m.bin", "--topp=most"]), Err(HostError::Usage(_))));
}

#[test]
fn numbers_are_read_to_their_last_digit() {
    assert_eq!(parse(&["m", "--seed=18446744073709551615"]).unwrap().seed, Some(u64::MAX));
    assert!(parse(&["m", "--seed=18446744073709551616"]).is_err());
    assert_eq!(parse(&["m", "-n", "+7"]).unwrap().steps, Some(7));
    assert_eq!(
        usage(parse(&["m", "-n", "-7"])),
        "`-n` expects a non-negative integer, got `-7`"
    );
}

#[test]
fn arguments_that_do_not_go_together_are_refused() {
    assert!(matches!(startup(&parse(&["-h"]).unwrap()), Ok(Startup::Help)));
    let open = startup(&parse(&["m.bin", "-p", "hi"]).unwrap());
    assert!(matches!(open, Ok(Startup::Open(path)) if path == "m.bin"));
    assert_eq!(usage(startup(&parse(&["-q"]).unwrap())), "no model file given");
    assert_eq!(
        usage(startup(&parse(&["m.bin", "--to", "v1"]).unwrap())),
        "`--to` requires `--convert <PATH>`"
    );
    assert_eq!(
        usage(startup(&parse(&["m.bin", "--convert", "o", "-p", "hi"]).unwrap())),
        "`--convert` writes a checkpoint and exits; it cannot be combined with --prompt"
    );
}

#[test]
fn the_head_of_a_file_tells_its_architecture() {
    assert_eq!(architecture("m", b"tis2").unwrap(), Architecture::Seq2Seq);
    assert_eq!(architecture("m", &0x616b_3432u32.to_le_bytes()).unwrap(), Architecture::Llama);
    let mut legacy = Vec::new();
    for v in [288i32, 768, 6, 6, 6, 32000, 256] {
        legacy.extend_from_slice(&v.to_le_bytes());
    }
    assert_eq!(architecture("m", &legacy).unwrap(), Architecture::Llama);
    let mut foreign = b"ZZZZ".to_vec();
    foreign.resize(64, 0);
    let error = architecture("m", &foreign).unwrap_err();
    assert!(error.message().contains("unrecognized"));
    assert!(error.message().starts_with("m: "));
}

#[test]
fn host_errors_read_as_sentences() {
    assert_eq!(HostError::Usage("no".to_string()).message(), "no");
    assert_eq!(HostError::Tokenizer("bad".to_string()).message(), "tokenizer: bad");
    assert_eq!(
        HostError::NotF32Aligned { path: "m.bin".to_string(), len: 7 }.message(),
        "m.bin: file length 7 is not a multiple of 4 bytes, so it is not a valid fp32 checkpoint"
    );
    assert_eq!(
        HostError::Format { path: "m.bin".to_string(), msg: "odd".to_string() }.message(),
        "m.bin: odd"
    );
    let source = tiny_infer::error::EngineError::HeaderTooShort;
    assert_eq!(
        HostError::engine("m.bin".to_string(), source).message(),
        "m.bin: checkpoint is smaller than its config header"
    );
    let error = HostError::io("m.bin".to_string(), std::io::Error::other("gone"));
    assert!(matches!(error, HostError::Io { ref path, .. } if path == "m.bin"));
}

fn stories_like_config() -> Config {
    Config {
        dim: 288,
        hidden_dim: 768,
        n_layers: 6,
        n_heads: 6,
        n_kv_heads: 6,
        vocab_size: 32000,
        seq_len: 256,
        shared_weights: true,
    }
}

#[test]
fn check_group_size_accepts_divisors_rejects_others() {
    let c = stories_like_config();
    assert!(check_group_size(&c, 32).is_ok());
    assert!(check_group_size(&c, 96).is_ok());
    assert!(matches!(check_group_size(&c, 64), Err(HostError::Usage(_))));
    assert!(matches!(check_group_size(&c, 0), Err(HostError::Usage(_))));
    assert_eq!(usage(check_group_size(&c, 64)), "--group-size 64 must divide dim (288)");
    assert_eq!(usage(check_group_size(&c, 0)), "--group-size must be at least 1");
}

#[test]
fn resolve_seed_prefers_an_explicit_seed() {
    assert_eq!(resolve_seed(Some(42)), 42);
    let _ = resolve_seed(None);
}

#[test]
fn seeds_are_drawn_anew() {
    let first = resolve_seed(None);
    assert!((0..8).any(|_| resolve_seed(None) != first));
}

#[test]
fn the_kernel_follows_the_flags() {
    assert_eq!(select_kernel(true, true, true), (Kernel::Scalar, false));
    assert_eq!(select_kernel(false, true, true), (Kernel::Dotprod, false));
    assert_eq!(select_kernel(false, true, false), (Kernel::Simd, true));
    assert_eq!(select_kernel(false, false, true), (Kernel::Simd, false));
}

#[test]
fn a_quantization_is_noted() {
    assert_eq!(
        report_quantization(2048, 256, 1 << 20, 8),
        "[quantized to int8 (group_size 8): 3 KiB weights resident (2 KiB int8 + 1 KiB scales); \
         freed the 1 MiB fp32 checkpoint]"
    );
}

#[test]
fn the_mode_follows_the_arguments() {
    let c = stories_like_config();
    let convert = llama::run::mode(&parse(&["m", "--convert", "o.bin"]).unwrap(), &c);
    assert!(matches!(
        convert,
        Ok(llama::run::Mode::Convert { path, target: Target::V2 }) if path == "o.bin"
    ));
    let bad = parse(&["m", "--convert", "o.bin", "--group-size", "64"]).unwrap();
    assert_eq!(
        usage(llama::run::mode(&bad, &c)),
        "--group-size 64 must divide dim (288)"
    );
    // The group size does not matter in full precision.
    let v1 = ["m", "--convert", "o.bin", "--group-size", "64", "--to", "v1"];
    assert!(llama::run::mode(&parse(&v1).unwrap(), &c).is_ok());
    assert_eq!(
        usage(llama::run::mode(&parse(&["m", "-p", "hi"]).unwrap(), &c)),
        "generation (--prompt) requires a tokenizer (--tokenizer)"
    );
    let generate = llama::run::mode(&parse(&["m", "t", "-p", "hi"]).unwrap(), &c);
    assert!(matches!(
        generate,
        Ok(llama::run::Mode::Generate { prompt, tokenizer }) if prompt == "hi" && tokenizer == "t"
    ));
    let report = llama::run::mode(&parse(&["m"]).unwrap(), &c);
    assert!(matches!(report, Ok(llama::run::Mode::Report { tokenizer: None })));
}

#[test]
fn quantized_checkpoints_are_used_as_they_are() {
    let c = stories_like_config();
    let v2 = ModelFormat::V2 { group_size: 32 };
    let plain = parse(&["m"]).unwrap();
    let quantize = parse(&["m", "-q"]).unwrap();
    let misfit = parse(&["m", "-q", "--group-size=64"]).unwrap();
    let source = |args, format| llama::run::weight_source(args, format, &c);
    assert!(matches!(source(&plain, v2), Ok(WeightSource::Packed { note: None })));
    assert!(matches!(
        source(&misfit, v2),
        Ok(WeightSource::Packed { note: Some(note) })
            if note == "[--quantize: checkpoint is already int8 (v2, group_size 32); flag ignored]"
    ));
    // On a quantized checkpoint neither option changes the run.
    for options in [vec![], vec!["-q"], vec!["--group-size=7"], vec!["-q", "--group-size=0"]] {
        let mut line = vec!["m", "t", "-p", "hi"];
        line.extend(options);
        let args = parse(&line).unwrap();
        assert!(matches!(
            llama::run::mode(&args, &c),
            Ok(llama::run::Mode::Generate { prompt, tokenizer }) if prompt == "hi" && tokenizer == "t"
        ));
        let source = llama::run::weight_source(&args, v2, &c);
        assert!(matches!(source, Ok(WeightSource::Packed { .. })));
    }
    assert!(matches!(source(&plain, ModelFormat::V1), Ok(WeightSource::Full)));
    assert!(matches!(
        source(&quantize, ModelFormat::Legacy),
        Ok(WeightSource::Quantize { group_size: 32 })
    ));
    assert_eq!(
        usage(source(&misfit, ModelFormat::V1)),
        "--group-size 64 must divide dim (288)"
    );
}

/// Run a generation with the tokens that a model would pick.
fn generated(prompt: Vec<usize>, steps: Option<usize>, picks: &[usize]) -> (Vec<usize>, Generation) {
    let mut g = Generation::new(prompt, steps, 8);
    let mut picks = picks.iter();
    let mut out = Vec::new();
    while g.running() {
        let next = match g.replay() {
            Some(next) => next,
            None => *picks.next().unwrap(),
        };
        match g.advance(next) {
            Advance::Emit { next, .. } => out.push(next),
            Advance::Stop => {}
        }
    }
    (out, g)
}

#[test]
fn a_generation_replays_its_prompt_and_samples_on() {
    let (out, g) = generated(vec![1, 20, 30], Some(5), &[40, 50, 60]);
    assert_eq!(out, [20, 30, 40, 50, 60]);
    assert_eq!((g.pos, g.decoded, g.prompt_tokens()), (5, 3, 3));
    // The delimiter ends it.
    let (out, g) = generated(vec![1, 20], Some(5), &[40, 1]);
    assert_eq!(out, [20, 40]);
    assert!(g.stopped);
    assert_eq!((g.pos, g.decoded, g.prompt_tokens()), (3, 2, 2));
    // Steps fewer than the prompt's tokens, and steps beyond the sequence length.
    let (out, g) = generated(vec![1, 20, 30, 40], Some(2), &[]);
    assert_eq!(out, [20, 30]);
    assert_eq!((g.decoded, g.prompt_tokens()), (0, 2));
    let (out, _) = generated(vec![1], None, &[2, 3, 4, 5, 6, 7, 8, 9]);
    assert_eq!(out.len(), 8);
}

fn marian_config() -> seq2seq::config::Config {
    seq2seq::config::Config {
        d_model: 8,
        enc_layers: 1,
        dec_layers: 1,
        enc_heads: 2,
        dec_heads: 2,
        enc_ffn: 16,
        dec_ffn: 24,
        vocab_size: 10,
        max_src: 6,
        max_tgt: 4,
        pad_id: 9,
        eos_id: 0,
        bos_id: 0,
        norm_before: false,
        activation: Activation::Swish,
        scale_embedding: true,
    }
}

#[test]
fn a_source_must_not_be_too_long() {
    let c = marian_config();
    assert!(check_source(6, &c).is_ok());
    assert_eq!(
        usage(check_source(7, &c)),
        "input is 7 tokens but the model's maximum source length is 6"
    );
}

#[test]
fn seq2seq_arguments_are_checked() {
    let c = marian_config();
    assert_eq!(
        usage(seq2seq::run::mode(&parse(&["m", "--convert", "o"]).unwrap())),
        "seq2seq (Marian) checkpoints do not support --convert (no on-disk int8 format yet)"
    );
    assert!(matches!(
        seq2seq::run::mode(&parse(&["m", "-p", "hi"]).unwrap()),
        Ok(seq2seq::run::Mode::Generate { prompt }) if prompt == "hi"
    ));
    assert!(matches!(
        seq2seq::run::mode(&parse(&["m"]).unwrap()),
        Ok(seq2seq::run::Mode::Report)
    ));
    assert!(seq2seq::run::check_group_size(&c, 8).is_ok());
    assert_eq!(
        usage(seq2seq::run::check_group_size(&c, 16)),
        "--group-size 16 must divide d_model (8)"
    );
    assert!(seq2seq::run::check_group_size(&c, 0).is_err());
    let wide = seq2seq::config::Config { d_model: 16, ..c };
    assert_eq!(
        usage(seq2seq::run::check_group_size(&wide, 16)),
        "--group-size 16 must divide dec_ffn (24)"
    );
}

#[test]
fn the_tokenizer_is_the_one_asked_for_or_the_sibling() {
    let asked = parse(&["m", "t.bin"]).unwrap();
    let plain = parse(&["m"]).unwrap();
    let resolve = seq2seq::run::resolve_tokenizer;
    assert_eq!(resolve(&asked, "d/tokenizer.bin", true).unwrap(), "t.bin");
    assert_eq!(resolve(&plain, "d/tokenizer.bin", true).unwrap(), "d/tokenizer.bin");
    assert_eq!(
        usage(resolve(&plain, "d/tokenizer.bin", false)),
        "seq2seq generation needs a tokenizer; pass --tokenizer <path> or place tokenizer.bin \
         next to the model (looked for d/tokenizer.bin)"
    );
}
