//! What report mode says of an encoder-decoder model: its config and its memory budget.

use vstd::prelude::*;

#[allow(unused_imports)]
use crate::layout::total;
use crate::llama::report::{push_budget_line, push_number_line, report_peak};
#[allow(unused_imports)]
use crate::llama::report::{budget_line, number_line, peak_text, size_line};
use crate::seq2seq::config::{Activation, Config, SEQ2SEQ_HEADER_BYTES};
#[allow(unused_imports)]
use crate::seq2seq::config::parsed_seq2seq_configs_are_valid;
use crate::seq2seq::loader::Seq2SeqModel;
use crate::seq2seq::memory::{arena_floats_checked, MemoryBudget};
#[allow(unused_imports)]
use crate::seq2seq::memory::{arena_len, decoder_cache_len, encoder_len, step_len};
use crate::seq2seq::quantize::{kept_floats, quantized_scale_count, quantized_weight_count};
#[allow(unused_imports)]
use crate::seq2seq::quantize::{
    kept_lens, quantized_and_kept_make_up_the_weights, quantized_lens,
};
#[allow(unused_imports)]
use crate::seq2seq::weights::file_bytes;
use crate::text::{format_size, push_decimal, push_right_aligned, separate_with_commas};
#[allow(unused_imports)]
use crate::text::{decimal, human_size, right_aligned};

verus! {

/// The line on one of the two stacks.
pub open spec fn stack_line(
    label: Seq<char>,
    layers: nat,
    heads: nat,
    head_dim: nat,
    ffn: nat,
) -> Seq<char> {
    label + decimal(layers) + " layers, "@ + decimal(heads) + " heads (head_dim "@ + decimal(
        head_dim,
    ) + "), ffn "@ + decimal(ffn) + "\n"@
}

/// Append the line on one of the two stacks.
fn push_stack_line(
    out: &mut String,
    label: &str,
    layers: usize,
    heads: usize,
    head_dim: usize,
    ffn: usize,
)
    ensures
        final(out)@ == old(out)@ + stack_line(
            label@,
            layers as nat,
            heads as nat,
            head_dim as nat,
            ffn as nat,
        ),
{
    let mut line = String::new();
    line.append(label);
    proof {
        assert(line@ =~= label@);
    }
    push_decimal(&mut line, layers as u64);
    line.append(" layers, ");
    push_decimal(&mut line, heads as u64);
    line.append(" heads (head_dim ");
    push_decimal(&mut line, head_dim as u64);
    line.append("), ffn ");
    push_decimal(&mut line, ffn as u64);
    line.append("\n");
    out.append(line.as_str());
}

/// The lines on the sizes and the special tokens.
pub open spec fn limits_text(c: Config) -> Seq<char> {
    "  vocab_size      "@ + decimal(c.vocab_size as nat) + "\n  max_src/max_tgt "@ + decimal(
        c.max_src as nat,
    ) + " / "@ + decimal(c.max_tgt as nat) + "\n  pad/eos/bos     "@ + decimal(c.pad_id as nat)
        + " / "@ + decimal(c.eos_id as nat) + " / "@ + decimal(c.bos_id as nat)
        + "  (decoder starts at pad)\n"@
}

/// Append the lines on the sizes and the special tokens.
fn push_limits(out: &mut String, c: &Config)
    ensures
        final(out)@ == old(out)@ + limits_text(*c),
{
    let mut text = String::new();
    text.append("  vocab_size      ");
    proof {
        assert(text@ =~= "  vocab_size      "@);
    }
    push_decimal(&mut text, c.vocab_size as u64);
    text.append("\n  max_src/max_tgt ");
    push_decimal(&mut text, c.max_src as u64);
    text.append(" / ");
    push_decimal(&mut text, c.max_tgt as u64);
    text.append("\n  pad/eos/bos     ");
    push_decimal(&mut text, c.pad_id as u64);
    text.append(" / ");
    push_decimal(&mut text, c.eos_id as u64);
    text.append(" / ");
    push_decimal(&mut text, c.bos_id as u64);
    text.append("  (decoder starts at pad)\n");
    out.append(text.as_str());
}

/// The line on where the normalisation stands.
pub open spec fn norm_line(before: bool) -> Seq<char> {
    if before {
        "  norm placement  pre-norm\n"@
    } else {
        "  norm placement  post-norm (Marian default)\n"@
    }
}

/// The line on the activation.
pub open spec fn activation_line(a: Activation) -> Seq<char> {
    match a {
        Activation::Gelu => "  activation      gelu\n"@,
        Activation::Swish => "  activation      swish (SiLU)\n"@,
    }
}

/// The line on whether embeddings are scaled.
pub open spec fn scaling_line(scaled: bool) -> Seq<char> {
    if scaled {
        "  scale_embedding true (embeddings × √d_model)\n"@
    } else {
        "  scale_embedding false\n"@
    }
}

/// The report on a model's config.
pub open spec fn config_text(path: Seq<char>, m: Seq2SeqModel) -> Seq<char> {
    let c = m.config;
    "Model: "@ + path
        + "\n  status          OK (file size matches config)\n  format          tiny-infer seq2seq v1 (Marian encoder-decoder), fp32 weights\n"@
        + number_line("  d_model         "@, c.d_model as nat) + stack_line(
        "  encoder         "@,
        c.enc_layers as nat,
        c.enc_heads as nat,
        c.d_model as nat / c.enc_heads as nat,
        c.enc_ffn as nat,
    ) + stack_line(
        "  decoder         "@,
        c.dec_layers as nat,
        c.dec_heads as nat,
        c.d_model as nat / c.dec_heads as nat,
        c.dec_ffn as nat,
    ) + limits_text(c) + norm_line(c.norm_before) + activation_line(c.activation) + scaling_line(
        c.scale_embedding,
    ) + size_line("  weights         "@, weight_bytes_of(m))
}

/// Bytes of the weights.
pub open spec fn weight_bytes_of(m: Seq2SeqModel) -> nat {
    (m.file_bytes - SEQ2SEQ_HEADER_BYTES) as nat
}

/// Report on a model's config.
fn report_config(path: &str, model: &Seq2SeqModel) -> (r: String)
    requires
        model.wf(),
    ensures
        r@ == config_text(path@, *model),
{
    proof {
        parsed_seq2seq_configs_are_valid(model.file());
    }
    let c = &model.config;
    let weights: usize = model.weight_bytes();
    let mut line = String::new();
    line.append("  weights         ");
    line.append(format_size(weights).as_str());
    line.append(" (");
    line.append(separate_with_commas(weights).as_str());
    line.append(")\n");
    proof {
        assert(line@ =~= size_line("  weights         "@, weights as nat));
    }
    let mut out = String::new();
    out.append("Model: ");
    proof {
        assert(out@ =~= "Model: "@);
    }
    out.append(path);
    out.append(
        "\n  status          OK (file size matches config)\n  format          tiny-infer seq2seq v1 (Marian encoder-decoder), fp32 weights\n",
    );
    push_number_line(&mut out, "  d_model         ", c.d_model);
    push_stack_line(
        &mut out,
        "  encoder         ",
        c.enc_layers,
        c.enc_heads,
        c.enc_head_dim(),
        c.enc_ffn,
    );
    push_stack_line(
        &mut out,
        "  decoder         ",
        c.dec_layers,
        c.dec_heads,
        c.dec_head_dim(),
        c.dec_ffn,
    );
    push_limits(&mut out, c);
    out.append(
        if c.norm_before {
            "  norm placement  pre-norm\n"
        } else {
            "  norm placement  post-norm (Marian default)\n"
        },
    );
    out.append(
        match c.activation {
            Activation::Gelu => "  activation      gelu\n",
            Activation::Swish => "  activation      swish (SiLU)\n",
        },
    );
    out.append(
        if c.scale_embedding {
            "  scale_embedding true (embeddings × √d_model)\n"
        } else {
            "  scale_embedding false\n"
        },
    );
    out.append(line.as_str());
    out
}

/// Whether groups of this size divide every row of the weights.
pub open spec fn group_fits(c: Config, group_size: nat) -> bool {
    c.d_model as nat % group_size == 0 && c.enc_ffn as nat % group_size == 0 && c.dec_ffn as nat
        % group_size == 0
}

/// A group size to report with: the largest of a few common ones that fits.
pub open spec fn reported_group_size(c: Config) -> Option<usize> {
    if group_fits(c, 64) {
        Some(64)
    } else if group_fits(c, 32) {
        Some(32)
    } else if group_fits(c, 16) {
        Some(16)
    } else if group_fits(c, 8) {
        Some(8)
    } else {
        None
    }
}

/// A group size to report with: the largest of 64, 32, 16 and 8 that divides the row
/// lengths, if any does.
pub fn quant_group_size(c: &Config) -> (r: Option<usize>)
    ensures
        r == reported_group_size(*c),
{
    let (d, e, f): (usize, usize, usize) = (c.d_model, c.enc_ffn, c.dec_ffn);
    if d % 64 == 0 && e % 64 == 0 && f % 64 == 0 {
        Some(64)
    } else if d % 32 == 0 && e % 32 == 0 && f % 32 == 0 {
        Some(32)
    } else if d % 16 == 0 && e % 16 == 0 && f % 16 == 0 {
        Some(16)
    } else if d % 8 == 0 && e % 8 == 0 && f % 8 == 0 {
        Some(8)
    } else {
        None
    }
}

/// Bytes of the weights when quantized.
pub open spec fn int8_bytes(c: Config, group_size: nat) -> nat {
    total(quantized_lens(c)) + (total(quantized_lens(c)) / group_size + total(kept_lens(c))) * 4
}

/// Bytes of the working arena at the longest lengths.
pub open spec fn arena_bytes(c: Config) -> nat {
    arena_len(c, c.max_src, c.max_tgt) * 4
}

/// Whether every size of a report fits the machine.
pub open spec fn sizes_fit(m: Seq2SeqModel) -> bool {
    weight_bytes_of(m) + arena_bytes(m.config) <= usize::MAX
}

/// Whether every size of a report fits the machine.
pub fn check_sizes(model: &Seq2SeqModel) -> (r: bool)
    requires
        model.wf(),
    ensures
        r == sizes_fit(*model),
{
    let c = &model.config;
    let all = arena_floats_checked(c, c.max_src, c.max_tgt).mul_value(4).add_value(
        model.weight_bytes(),
    );
    all.to_option().is_some()
}

/// Weights take less room quantized than in full precision.
pub proof fn quantizing_saves_room(m: Seq2SeqModel)
    requires
        m.wf(),
        reported_group_size(m.config) is Some,
    ensures
        int8_bytes(m.config, reported_group_size(m.config).unwrap() as nat) <= weight_bytes_of(m),
{
    let c = m.config;
    quantized_and_kept_make_up_the_weights(c);
    let n = total(quantized_lens(c));
    let gs = reported_group_size(c).unwrap() as nat;
    assert(n + (n / gs) * 4 <= 4 * n) by {
        if gs == 64 {
            assert(n / 64 <= n);
        } else if gs == 32 {
            assert(n / 32 <= n);
        } else if gs == 16 {
            assert(n / 16 <= n);
        } else {
            assert(n / 8 <= n);
        }
    }
}

/// The group size to report with and the bytes of the weights when quantized, where that is
/// possible.
pub fn int8_size(model: &Seq2SeqModel) -> (r: Option<(usize, usize)>)
    requires
        model.wf(),
    ensures
        match r {
            Some((gs, bytes)) => reported_group_size(model.config) == Some(gs) && bytes
                == int8_bytes(model.config, gs as nat),
            None => reported_group_size(model.config) is None,
        },
{
    let c = &model.config;
    match quant_group_size(c) {
        Some(gs) => {
            proof {
                quantizing_saves_room(*model);
                quantized_and_kept_make_up_the_weights(*c);
            }
            let values: usize = quantized_weight_count(c);
            let scales: usize = quantized_scale_count(c, gs);
            let kept: usize = kept_floats(c);
            Some((gs, values + (scales + kept) * 4))
        },
        None => None,
    }
}

/// The heading of the memory budget.
pub open spec fn memory_heading(c: Config) -> Seq<char> {
    "\nMemory budget (working arena at max_src="@ + decimal(c.max_src as nat) + " / max_tgt="@
        + decimal(c.max_tgt as nat) + "):\n"@
}

/// The report on a model's memory; `ratio` tells how much smaller the quantized weights
/// are.
pub open spec fn memory_text(m: Seq2SeqModel, ratio: Seq<char>) -> Seq<char> {
    let c = m.config;
    let int8 = match reported_group_size(c) {
        Some(gs) => Some((gs, int8_bytes(c, gs as nat))),
        None => None,
    };
    memory_heading(c) + budget_line("  encoder buffers "@, encoder_len(c, c.max_src as nat))
        + budget_line("  cross-KV cache  "@, decoder_cache_len(c, c.max_src as nat)) + budget_line(
        "  self-KV cache   "@,
        decoder_cache_len(c, c.max_tgt as nat),
    ) + budget_line("  step scratch    "@, step_len(c, c.max_src, c.max_tgt)) + budget_line(
        "  arena total     "@,
        arena_len(c, c.max_src, c.max_tgt),
    ) + "  weights (disk)  "@ + right_aligned(human_size(weight_bytes_of(m)), 10) + "\n"@
        + peak_text(weight_bytes_of(m), int8, arena_bytes(c), ratio)
}

/// Report on a model's memory.
fn report_memory(model: &Seq2SeqModel, ratio: &str) -> (r: String)
    requires
        model.wf(),
        sizes_fit(*model),
    ensures
        r@ == memory_text(*model, ratio@),
{
    let c = &model.config;
    let budget = MemoryBudget::for_config(c, c.max_src, c.max_tgt);
    let weights: usize = model.weight_bytes();
    let int8 = int8_size(model);
    proof {
        if reported_group_size(*c) is Some {
            quantizing_saves_room(*model);
        }
    }
    let peak = report_peak(weights, int8, budget.total_bytes(), ratio);
    let mut out = String::new();
    out.append("\nMemory budget (working arena at max_src=");
    push_decimal(&mut out, c.max_src as u64);
    out.append(" / max_tgt=");
    push_decimal(&mut out, c.max_tgt as u64);
    out.append("):\n");
    proof {
        assert(out@ =~= memory_heading(*c));
    }
    push_budget_line(&mut out, "  encoder buffers ", budget.encoder_floats);
    push_budget_line(&mut out, "  cross-KV cache  ", budget.cross_kv_floats);
    push_budget_line(&mut out, "  self-KV cache   ", budget.self_kv_floats);
    push_budget_line(&mut out, "  step scratch    ", budget.step_floats);
    push_budget_line(&mut out, "  arena total     ", budget.total_floats());
    out.append("  weights (disk)  ");
    push_right_aligned(&mut out, format_size(weights).as_str(), 10);
    out.append("\n");
    out.append(peak.as_str());
    out
}

/// Report on a model: its config, its memory budget at the longest lengths, and the peak in
/// full precision and quantized.
pub fn report_seq2seq(path: &str, model: &Seq2SeqModel, ratio: &str) -> (r: String)
    requires
        model.wf(),
        sizes_fit(*model),
    ensures
        r@ == config_text(path@, *model) + memory_text(*model, ratio@),
{
    let mut out = report_config(path, model);
    out.append(report_memory(model, ratio).as_str());
    out
}

} // verus!
