//! What to do with a loaded llama2.c checkpoint: convert it, generate from it, or report on
//! it; and where a generation takes its weights from.

use vstd::prelude::*;

use crate::host::args::{Args, Target};
#[allow(unused_imports)]
use crate::host::args::chars_in;
use crate::host::error::HostError;
use crate::host::run::usage;
use crate::llama::config::{Config, ModelFormat};
use crate::llama::generate::check_group_size;
#[allow(unused_imports)]
use crate::llama::generate::group_size_complaint;
use crate::text::push_decimal;
#[allow(unused_imports)]
use crate::text::decimal;

verus! {

/// What to do with a checkpoint.
#[derive(Debug)]
pub enum Mode {
    /// Write it in another format.
    Convert {
        /// Where to.
        path: String,
        /// The format.
        target: Target,
    },
    /// Continue a text.
    Generate {
        /// The text.
        prompt: String,
        /// The tokenizer.
        tokenizer: String,
    },
    /// Say what it is.
    Report {
        /// The tokenizer, if there is one to report on.
        tokenizer: Option<String>,
    },
}

/// The format of a conversion: the one asked for, or the quantized one.
pub open spec fn conversion_target(args: Args) -> Target {
    match args.to {
        Some(t) => t,
        None => Target::V2,
    }
}

/// The complaint about what was asked for, if there is one.
pub open spec fn mode_complaint(args: Args, c: Config) -> Option<Seq<char>> {
    if args.convert is Some {
        if conversion_target(args) == Target::V2 {
            group_size_complaint(c, args.group_size as nat)
        } else {
            None
        }
    } else if args.prompt is Some && args.tokenizer is None {
        Some("generation (--prompt) requires a tokenizer (--tokenizer)"@)
    } else {
        None
    }
}

/// What to do with a checkpoint, as values.
pub enum ModeView {
    /// Write it in another format.
    Convert {
        /// Where to.
        path: Seq<char>,
        /// The format.
        target: Target,
    },
    /// Continue a text.
    Generate {
        /// The text.
        prompt: Seq<char>,
        /// The tokenizer.
        tokenizer: Seq<char>,
    },
    /// Say what it is.
    Report {
        /// The tokenizer, if there is one to report on.
        tokenizer: Option<Seq<char>>,
    },
}

impl View for Mode {
    type V = ModeView;

    open spec fn view(&self) -> ModeView {
        match self {
            Mode::Convert { path, target } => ModeView::Convert { path: path@, target: *target },
            Mode::Generate { prompt, tokenizer } => ModeView::Generate {
                prompt: prompt@,
                tokenizer: tokenizer@,
            },
            Mode::Report { tokenizer } => ModeView::Report { tokenizer: chars_in(*tokenizer) },
        }
    }
}

/// What the arguments ask for: a conversion comes before a prompt, and a prompt needs a
/// tokenizer.
pub open spec fn mode_of(args: Args, c: Config) -> Result<ModeView, Seq<char>> {
    if let Some(msg) = mode_complaint(args, c) {
        Err(msg)
    } else if let Some(path) = args.convert {
        Ok(ModeView::Convert { path: path@, target: conversion_target(args) })
    } else if let Some(prompt) = args.prompt {
        Ok(ModeView::Generate { prompt: prompt@, tokenizer: args.tokenizer->0@ })
    } else {
        Ok(ModeView::Report { tokenizer: chars_in(args.tokenizer) })
    }
}

/// Decide what to do with a checkpoint.
pub fn mode(args: &Args, c: &Config) -> (r: Result<Mode, HostError>)
    requires
        c.valid(),
    ensures
        match r {
            Ok(m) => mode_of(*args, *c) == Ok::<ModeView, Seq<char>>(m@),
            Err(HostError::Usage(msg)) => mode_of(*args, *c) == Err::<ModeView, Seq<char>>(msg@),
            Err(_) => false,
        },
{
    if let Some(path) = &args.convert {
        let target: Target = match args.to {
            Some(t) => t,
            None => Target::V2,
        };
        if target == Target::V2 {
            check_group_size(c, args.group_size)?;
        }
        return Ok(Mode::Convert { path: path.clone(), target });
    }
    if let Some(prompt) = &args.prompt {
        return match &args.tokenizer {
            Some(tokenizer) => Ok(
                Mode::Generate { prompt: prompt.clone(), tokenizer: tokenizer.clone() },
            ),
            None => Err(usage("generation (--prompt) requires a tokenizer (--tokenizer)")),
        };
    }
    Ok(
        Mode::Report {
            tokenizer: match &args.tokenizer {
                Some(t) => Some(t.clone()),
                None => None,
            },
        },
    )
}

/// Where a generation takes its weights from.
#[derive(Debug)]
pub enum WeightSource {
    /// The quantized tensors of the checkpoint. The note tells of a flag that has no
    /// effect.
    Packed {
        /// The note.
        note: Option<String>,
    },
    /// The checkpoint's weights, to be quantized in groups of this size.
    Quantize {
        /// The group size.
        group_size: usize,
    },
    /// The checkpoint's weights as they are.
    Full,
}

/// The note on quantizing what is quantized.
pub open spec fn already_text(group_size: nat) -> Seq<char> {
    "[--quantize: checkpoint is already int8 (v2, group_size "@ + decimal(group_size)
        + "); flag ignored]"@
}

/// The places that a generation can take its weights from.
pub enum SourceView {
    /// The quantized tensors of the checkpoint.
    Packed,
    /// The checkpoint's weights, to be quantized in groups of this size.
    Quantize {
        /// The group size.
        group_size: usize,
    },
    /// The checkpoint's weights as they are.
    Full,
}

impl WeightSource {
    /// Where the weights come from, whatever is noted.
    pub open spec fn place(self) -> SourceView {
        match self {
            WeightSource::Packed { .. } => SourceView::Packed,
            WeightSource::Quantize { group_size } => SourceView::Quantize {
                group_size,
            },
            WeightSource::Full => SourceView::Full,
        }
    }
}

/// Where the weights come from: a quantized checkpoint is used as it is; one in full
/// precision is quantized if asked for, with a group size that fits.
pub open spec fn source_of(args: Args, format: ModelFormat, c: Config) -> Result<
    SourceView,
    Seq<char>,
> {
    if format is V2 {
        Ok(SourceView::Packed)
    } else if !args.quantize {
        Ok(SourceView::Full)
    } else if let Some(msg) = group_size_complaint(c, args.group_size as nat) {
        Err(msg)
    } else {
        Ok(SourceView::Quantize { group_size: args.group_size })
    }
}

/// Decide where a generation takes its weights from. That a quantized checkpoint was to be
/// quantized is noted.
pub fn weight_source(args: &Args, format: ModelFormat, c: &Config) -> (r: Result<
    WeightSource,
    HostError,
>)
    requires
        c.valid(),
    ensures
        match r {
            Ok(source) => source_of(*args, format, *c) == Ok::<SourceView, Seq<char>>(
                source.place(),
            ),
            Err(HostError::Usage(msg)) => source_of(*args, format, *c) == Err::<
                SourceView,
                Seq<char>,
            >(msg@),
            Err(_) => false,
        },
        r matches Ok(WeightSource::Packed { note }) ==> match format {
            ModelFormat::V2 { group_size } => chars_in(note) == (if args.quantize {
                Some(already_text(group_size as nat))
            } else {
                None
            }),
            _ => false,
        },
{
    match format {
        ModelFormat::V2 { group_size } => {
            if args.quantize {
                let mut text = String::new();
                text.append("[--quantize: checkpoint is already int8 (v2, group_size ");
                push_decimal(&mut text, group_size as u64);
                text.append("); flag ignored]");
                proof {
                    assert(text@ =~= already_text(group_size as nat));
                }
                Ok(WeightSource::Packed { note: Some(text) })
            } else {
                Ok(WeightSource::Packed { note: None })
            }
        },
        _ => {
            if args.quantize {
                check_group_size(c, args.group_size)?;
                Ok(WeightSource::Quantize { group_size: args.group_size })
            } else {
                Ok(WeightSource::Full)
            }
        },
    }
}

/// What a run without a conversion takes from its arguments: what to do, where the weights
/// come from, and how to generate.
pub struct RunView {
    /// What to do.
    pub mode: Result<ModeView, Seq<char>>,
    /// Where the weights come from.
    pub source: Result<SourceView, Seq<char>>,
    /// Most tokens to generate.
    pub steps: Option<usize>,
    /// Sampling temperature.
    pub temperature: u32,
    /// Nucleus threshold.
    pub topp: u32,
    /// Sampling seed.
    pub seed: Option<u64>,
    /// Whether to use the scalar kernels.
    pub scalar: bool,
    /// Whether to use the dot-product kernels.
    pub dotprod: bool,
}

/// What a run takes from its arguments.
pub open spec fn run_of(args: Args, format: ModelFormat, c: Config) -> RunView {
    RunView {
        mode: mode_of(args, c),
        source: source_of(args, format, c),
        steps: args.steps,
        temperature: args.temperature,
        topp: args.topp,
        seed: args.seed,
        scalar: args.scalar,
        dotprod: args.dotprod,
    }
}

/// A quantized checkpoint always runs on its own tensors with its own group size: neither
/// asking for quantization nor a group size changes a run on it, unless it is to be converted.
pub proof fn quantized_checkpoints_ignore_quantization(
    a: Args,
    b: Args,
    format: ModelFormat,
    c: Config,
)
    requires
        format is V2,
        a.convert is None,
        b == (Args { quantize: b.quantize, group_size: b.group_size, ..a }),
    ensures
        run_of(a, format, c) == run_of(b, format, c),
        source_of(a, format, c) == Ok::<SourceView, Seq<char>>(SourceView::Packed),
{
}

} // verus!
