//! What report mode says of a llama2.c model: its config, its tokenizer, and its memory
//! budget.

use vstd::arithmetic::overflow::CheckedUsize;
use vstd::prelude::*;

#[allow(unused_imports)]
use crate::layout::total;
use crate::llama::config::{Config, ModelFormat};
#[allow(unused_imports)]
use crate::llama::config::{heads_make_up_the_dimension, parsed_configs_are_valid};
use crate::llama::loader::Model;
use crate::llama::memory::{activation_floats_checked, cache_floats_checked, MemoryBudget};
#[allow(unused_imports)]
use crate::llama::memory::{activation_len, cache_len};
use crate::llama::quantize::{
    quantized_scale_count, quantized_weight_count, quantized_weight_count_checked,
};
#[allow(unused_imports)]
use crate::llama::quantize::quantized_lens;
use crate::llama::tokenizer::Vocab;
#[allow(unused_imports)]
use crate::llama::tokenizer::{byte_form, lossy_text, marker_shown};
#[allow(unused_imports)]
use crate::llama::weights::norm_len;
use crate::text::{format_size, push_decimal, push_right_aligned, separate_with_commas};
#[allow(unused_imports)]
use crate::text::{decimal, human_size, right_aligned, with_commas};

verus! {

/// A line of a label and a number.
pub open spec fn number_line(label: Seq<char>, n: nat) -> Seq<char> {
    label + decimal(n) + "\n"@
}

/// Append a line of a label and a number.
pub(crate) fn push_number_line(out: &mut String, label: &str, n: usize)
    ensures
        final(out)@ == old(out)@ + number_line(label@, n as nat),
{
    out.append(label);
    push_decimal(out, n as u64);
    out.append("\n");
    proof {
        assert(out@ =~= old(out)@ + number_line(label@, n as nat));
    }
}

/// The name of a checkpoint format.
pub open spec fn format_name(f: ModelFormat) -> Seq<char> {
    match f {
        ModelFormat::Legacy => "legacy (v0), fp32 weights"@,
        ModelFormat::V1 => "v1, fp32 weights"@,
        ModelFormat::V2 { group_size } => "v2, int8 weights (group_size "@ + decimal(
            group_size as nat,
        ) + ")"@,
    }
}

/// The name of a checkpoint format.
pub fn format_label(f: ModelFormat) -> (r: String)
    ensures
        r@ == format_name(f),
{
    let mut out = String::new();
    match f {
        ModelFormat::Legacy => {
            out.append("legacy (v0), fp32 weights");
        },
        ModelFormat::V1 => {
            out.append("v1, fp32 weights");
        },
        ModelFormat::V2 { group_size } => {
            out.append("v2, int8 weights (group_size ");
            push_decimal(&mut out, group_size as u64);
            out.append(")");
        },
    }
    proof {
        assert(out@ =~= format_name(f));
    }
    out
}

/// The line on whether the classifier shares the embedding.
pub open spec fn sharing_line(shared: bool) -> Seq<char> {
    if shared {
        "  shared_weights true (output projection reuses token embedding)\n"@
    } else {
        "  shared_weights false (output projection is a separate matrix)\n"@
    }
}

/// A line of a size, for people and in digits.
pub open spec fn size_line(label: Seq<char>, n: nat) -> Seq<char> {
    label + human_size(n) + " ("@ + with_commas(n) + ")\n"@
}

/// The report on a model.
pub open spec fn model_text(path: Seq<char>, m: Model) -> Seq<char> {
    let c = m.config;
    "Model: "@ + path + "\n  status         OK (file size matches config)\n  format         "@
        + format_name(m.format) + "\n"@ + number_line("  dim            "@, c.dim as nat)
        + number_line("  hidden_dim     "@, c.hidden_dim as nat) + number_line(
        "  n_layers       "@,
        c.n_layers as nat,
    ) + number_line("  n_heads        "@, c.n_heads as nat) + number_line(
        "  n_kv_heads     "@,
        c.n_kv_heads as nat,
    ) + number_line("  vocab_size     "@, c.vocab_size as nat) + number_line(
        "  seq_len        "@,
        c.seq_len as nat,
    ) + number_line("  head_size      "@, c.head_size_spec()) + number_line(
        "  kv_dim         "@,
        c.kv_dim_spec(),
    ) + number_line("  kv_mul         "@, c.n_heads as nat / c.n_kv_heads as nat) + sharing_line(
        c.shared_weights,
    ) + size_line("  weights        "@, (m.file_bytes - m.format.header_bytes()) as nat)
}

/// Report on a model: its format, every field of its config, and the size of its weights.
pub fn report_model(path: &str, model: &Model) -> (r: String)
    requires
        model.wf(),
    ensures
        r@ == model_text(path@, *model),
{
    proof {
        parsed_configs_are_valid(model.file());
        heads_make_up_the_dimension(model.config);
    }
    let c = &model.config;
    let weights: usize = model.weight_bytes();
    let mut line = String::new();
    line.append("  weights        ");
    line.append(format_size(weights).as_str());
    line.append(" (");
    line.append(separate_with_commas(weights).as_str());
    line.append(")\n");
    proof {
        assert(line@ =~= size_line("  weights        "@, weights as nat));
    }
    let mut out = String::new();
    out.append("Model: ");
    proof {
        assert(out@ =~= "Model: "@);
    }
    out.append(path);
    out.append("\n  status         OK (file size matches config)\n  format         ");
    out.append(format_label(model.format).as_str());
    out.append("\n");
    push_number_line(&mut out, "  dim            ", c.dim);
    push_number_line(&mut out, "  hidden_dim     ", c.hidden_dim);
    push_number_line(&mut out, "  n_layers       ", c.n_layers);
    push_number_line(&mut out, "  n_heads        ", c.n_heads);
    push_number_line(&mut out, "  n_kv_heads     ", c.n_kv_heads);
    push_number_line(&mut out, "  vocab_size     ", c.vocab_size);
    push_number_line(&mut out, "  seq_len        ", c.seq_len);
    push_number_line(&mut out, "  head_size      ", c.head_size());
    push_number_line(&mut out, "  kv_dim         ", c.kv_dim());
    push_number_line(&mut out, "  kv_mul         ", c.kv_mul());
    out.append(
        if c.shared_weights {
            "  shared_weights true (output projection reuses token embedding)\n"
        } else {
            "  shared_weights false (output projection is a separate matrix)\n"
        },
    );
    out.append(line.as_str());
    out
}

/// Text in quotes and with escapes, as `{:?}` shows it.
pub uninterp spec fn quoted_text(s: Seq<char>) -> Seq<char>;

/// `{:?}` of a string slice (`str`'s `Debug`): the text in quotes, with what cannot be
/// shown escaped. It depends on the text alone.
#[verifier::external_body]
fn quoted(s: &str) -> (r: String)
    ensures
        r@ == quoted_text(s@),
{
    format!("{:?}", s)
}

/// The line on one token.
pub open spec fn sample_line(id: nat, score: Seq<char>, bytes: Seq<u8>) -> Seq<char> {
    "    ["@ + right_aligned(decimal(id), 5) + "] score "@ + right_aligned(score, 9) + "  "@
        + quoted_text(marker_shown(lossy_text(bytes))) + "\n"@
}

/// Append the line on one token; `score` is its score with four decimal places.
fn print_sample(out: &mut String, id: usize, score: &str, vocab: &Vocab)
    requires
        id < vocab.tokens@.len(),
    ensures
        final(out)@ == old(out)@ + sample_line(
            id as nat,
            score@,
            vocab.tokens@[id as int].bytes@,
        ),
{
    let mut number = String::new();
    push_decimal(&mut number, id as u64);
    proof {
        assert(number@ =~= decimal(id as nat));
    }
    let shown = vocab.tokens[id].display();
    let mut line = String::new();
    line.append("    [");
    push_right_aligned(&mut line, number.as_str(), 5);
    line.append("] score ");
    push_right_aligned(&mut line, score, 9);
    line.append("  ");
    line.append(quoted(shown.as_str()).as_str());
    line.append("\n");
    proof {
        assert(line@ =~= sample_line(id as nat, score@, vocab.tokens@[id as int].bytes@));
    }
    out.append(line.as_str());
}

/// How many tokens from the front a report shows.
pub open spec fn front_tokens(n: nat) -> nat {
    if n < 4 {
        n
    } else {
        4
    }
}

/// The lines on the first `k` tokens.
pub open spec fn front_lines(vocab: Vocab, scores: Seq<String>, k: nat) -> Seq<char>
    decreases k,
{
    if k == 0 {
        Seq::empty()
    } else {
        front_lines(vocab, scores, (k - 1) as nat) + sample_line(
            (k - 1) as nat,
            scores[k - 1]@,
            vocab.tokens@[k - 1].bytes@,
        )
    }
}

/// Whether token `id` is the first byte-fallback token.
pub open spec fn is_first_fallback(vocab: Vocab, id: int) -> bool {
    &&& 0 <= id < vocab.tokens@.len()
    &&& byte_form(vocab.tokens@[id].bytes@)
    &&& forall|j: int| 0 <= j < id ==> !byte_form((#[trigger] vocab.tokens@[j]).bytes@)
}

/// Find the first byte-fallback token.
pub fn first_fallback(vocab: &Vocab) -> (r: Option<usize>)
    ensures
        match r {
            Some(id) => is_first_fallback(*vocab, id as int),
            None => forall|j: int|
                0 <= j < vocab.tokens@.len() ==> !byte_form((#[trigger] vocab.tokens@[j]).bytes@),
        },
{
    let mut i: usize = 0;
    while i < vocab.tokens.len()
        invariant
            i <= vocab.tokens@.len(),
            forall|j: int| 0 <= j < i ==> !byte_form((#[trigger] vocab.tokens@[j]).bytes@),
        decreases vocab.tokens@.len() - i,
    {
        if vocab.tokens[i].is_byte_fallback() {
            return Some(i);
        }
        i = i + 1;
    }
    None
}

/// What a report says of a tokenizer before the first byte-fallback token.
pub open spec fn tokenizer_text(path: Seq<char>, vocab: Vocab, scores: Seq<String>) -> Seq<char> {
    "\nTokenizer: "@ + path + "\n"@ + number_line(
        "  tokens             "@,
        vocab.tokens@.len(),
    ) + number_line("  max_token_length   "@, vocab.max_token_length as nat)
        + "  sample tokens:\n"@ + front_lines(vocab, scores, front_tokens(vocab.tokens@.len()))
}

/// Report on a tokenizer: its size, the first four tokens, and the first byte-fallback
/// token if there is one.
///
/// The scores come as text with four decimal places: those of the first tokens, and that
/// of the byte-fallback token.
pub fn report_tokenizer(
    path: &str,
    vocab: &Vocab,
    scores: &Vec<String>,
    fallback_score: &str,
) -> (r: String)
    requires
        scores@.len() >= front_tokens(vocab.tokens@.len()),
    ensures
        forall|id: int|
            #[trigger] is_first_fallback(*vocab, id) ==> r@ == tokenizer_text(
                path@,
                *vocab,
                scores@,
            ) + "  first byte-fallback token:\n"@ + sample_line(
                id as nat,
                fallback_score@,
                vocab.tokens@[id].bytes@,
            ),
        (forall|id: int| !#[trigger] is_first_fallback(*vocab, id)) ==> r@ == tokenizer_text(
            path@,
            *vocab,
            scores@,
        ),
{
    let n: usize = vocab.len();
    let front: usize = if n < 4 {
        n
    } else {
        4
    };
    let mut samples = String::new();
    let mut i: usize = 0;
    while i < front
        invariant
            i <= front,
            front <= vocab.tokens@.len(),
            front <= scores@.len(),
            samples@ == front_lines(*vocab, scores@, i as nat),
        decreases front - i,
    {
        print_sample(&mut samples, i, scores[i].as_str(), vocab);
        i = i + 1;
    }
    let mut out = String::new();
    out.append("\nTokenizer: ");
    proof {
        assert(out@ =~= "\nTokenizer: "@);
    }
    out.append(path);
    out.append("\n");
    push_number_line(&mut out, "  tokens             ", n);
    push_number_line(&mut out, "  max_token_length   ", vocab.max_token_length);
    out.append("  sample tokens:\n");
    out.append(samples.as_str());
    proof {
        assert(out@ == tokenizer_text(path@, *vocab, scores@));
    }
    match first_fallback(vocab) {
        Some(id) => {
            out.append("  first byte-fallback token:\n");
            print_sample(&mut out, id, fallback_score, vocab);
            proof {
                assert(is_first_fallback(*vocab, id as int));
                assert forall|other: int| #[trigger] is_first_fallback(*vocab, other) implies other
                    == id by {
                    if other < id {
                        assert(!byte_form(vocab.tokens@[other].bytes@));
                    } else if other > id {
                        assert(!byte_form(vocab.tokens@[id as int].bytes@));
                    }
                }
            }
        },
        None => {},
    }
    out
}

/// Whether groups of this size divide every row of the weights.
pub open spec fn group_fits(c: Config, group_size: nat) -> bool {
    c.dim as nat % group_size == 0 && c.hidden_dim as nat % group_size == 0 && c.kv_dim_spec()
        % group_size == 0
}

/// A group size to report with: the largest of a few common ones that fits.
pub open spec fn reported_group_size(c: Config) -> Option<usize> {
    if group_fits(c, 64) {
        Some(64)
    } else if group_fits(c, 32) {
        Some(32)
    } else if group_fits(c, 16) {
        Some(16)
    } else if group_fits(c, 8) {
        Some(8)
    } else {
        None
    }
}

/// A group size to report with: the largest of 64, 32, 16 and 8 that divides the row
/// lengths, if any does.
pub fn quant_group_size(c: &Config) -> (r: Option<usize>)
    requires
        c.valid(),
    ensures
        r == reported_group_size(*c),
{
    proof {
        heads_make_up_the_dimension(*c);
    }
    let kv: usize = c.kv_dim();
    if c.dim % 64 == 0 && c.hidden_dim % 64 == 0 && kv % 64 == 0 {
        Some(64)
    } else if c.dim % 32 == 0 && c.hidden_dim % 32 == 0 && kv % 32 == 0 {
        Some(32)
    } else if c.dim % 16 == 0 && c.hidden_dim % 16 == 0 && kv % 16 == 0 {
        Some(16)
    } else if c.dim % 8 == 0 && c.hidden_dim % 8 == 0 && kv % 8 == 0 {
        Some(8)
    } else {
        None
    }
}

/// Bytes of the weights in full precision.
pub open spec fn full_bytes(c: Config) -> nat {
    (total(quantized_lens(c)) + norm_len(c)) * 4
}

/// Bytes of the weights when quantized.
pub open spec fn int8_bytes(c: Config, group_size: nat) -> nat {
    total(quantized_lens(c)) + (total(quantized_lens(c)) / group_size) * 4 + norm_len(c) * 4
}

/// Bytes of the working arena.
pub open spec fn arena_bytes(c: Config) -> nat {
    (activation_len(c) + 2 * cache_len(c)) * 4
}

/// Whether every size of a report fits the machine.
pub open spec fn sizes_fit(c: Config) -> bool {
    full_bytes(c) + arena_bytes(c) <= usize::MAX
}

/// Whether every size of a report fits the machine.
pub fn check_sizes(c: &Config) -> (r: bool)
    requires
        c.valid(),
    ensures
        r == sizes_fit(*c),
{
    let weights = quantized_weight_count_checked(c);
    let norms = CheckedUsize::new(2).mul_value(c.n_layers).mul_value(c.dim).add_value(c.dim);
    let cache = cache_floats_checked(c);
    let arena = activation_floats_checked(c).add_checked(&cache).add_checked(&cache).mul_value(4);
    let full = weights.add_checked(&norms).mul_value(4).add_checked(&arena);
    proof {
        assert(full@ == full_bytes(*c) + arena_bytes(*c));
    }
    full.to_option().is_some()
}

/// Weights take less room quantized than in full precision.
pub proof fn quantizing_saves_room(c: Config)
    requires
        reported_group_size(c) is Some,
    ensures
        int8_bytes(c, reported_group_size(c).unwrap() as nat) <= full_bytes(c),
{
    let n = total(quantized_lens(c));
    let gs = reported_group_size(c).unwrap() as nat;
    assert(n + (n / gs) * 4 <= 4 * n) by {
        if gs == 64 {
            assert(n / 64 <= n);
        } else if gs == 32 {
            assert(n / 32 <= n);
        } else if gs == 16 {
            assert(n / 16 <= n);
        } else {
            assert(n / 8 <= n);
        }
    }
}

/// The sizes of a model's weights.
#[derive(Debug, Clone, Copy)]
pub struct WeightSizes {
    /// Bytes in full precision.
    pub fp32: usize,
    /// The group size to report with and the bytes when quantized, where that is possible.
    pub int8: Option<(usize, usize)>,
}

/// The sizes of a model's weights, in full precision and quantized.
pub fn weight_sizes(c: &Config) -> (r: WeightSizes)
    requires
        c.valid(),
        sizes_fit(*c),
    ensures
        r.fp32 == full_bytes(*c),
        match r.int8 {
            Some((gs, bytes)) => reported_group_size(*c) == Some(gs) && bytes == int8_bytes(
                *c,
                gs as nat,
            ),
            None => reported_group_size(*c) is None,
        },
{
    proof {
        let (l, d) = (c.n_layers as int, c.dim as int);
        assert(2 * l * d == 2 * (l * d)) by (nonlinear_arith);
        assert(0 <= l * d) by (nonlinear_arith)
            requires
                0 <= l,
                0 <= d,
        ;
        assert(norm_len(*c) <= usize::MAX);
    }
    let norms: usize = 2 * (c.n_layers * c.dim) + c.dim;
    let values: usize = quantized_weight_count(c);
    let fp32: usize = (values + norms) * 4;
    let int8 = match quant_group_size(c) {
        Some(gs) => {
            proof {
                quantizing_saves_room(*c);
            }
            let scales: usize = quantized_scale_count(c, gs);
            Some((gs, values + scales * 4 + norms * 4))
        },
        None => None,
    };
    WeightSizes { fp32, int8 }
}

/// A line of a size and a count.
pub open spec fn budget_line(label: Seq<char>, floats: nat) -> Seq<char> {
    label + right_aligned(human_size(floats * 4), 10) + "  ("@ + with_commas(floats) + " f32)\n"@
}

/// Append a line of a size and a count.
pub(crate) fn push_budget_line(out: &mut String, label: &str, floats: usize)
    requires
        floats * 4 <= usize::MAX,
    ensures
        final(out)@ == old(out)@ + budget_line(label@, floats as nat),
{
    let mut line = String::new();
    line.append(label);
    push_right_aligned(&mut line, format_size(floats * 4).as_str(), 10);
    line.append("  (");
    line.append(separate_with_commas(floats).as_str());
    line.append(" f32)\n");
    proof {
        assert(line@ =~= budget_line(label@, floats as nat));
    }
    out.append(line.as_str());
}

/// Two sizes side by side.
pub open spec fn two_sizes(label: Seq<char>, a: nat, b: nat) -> Seq<char> {
    label + right_aligned(human_size(a), 11) + "  "@ + right_aligned(human_size(b), 11)
}

/// Append two sizes side by side.
pub(crate) fn push_two_sizes(out: &mut String, label: &str, a: usize, b: usize)
    ensures
        final(out)@ == old(out)@ + two_sizes(label@, a as nat, b as nat),
{
    let mut line = String::new();
    line.append(label);
    push_right_aligned(&mut line, format_size(a).as_str(), 11);
    line.append("  ");
    push_right_aligned(&mut line, format_size(b).as_str(), 11);
    proof {
        assert(line@ =~= two_sizes(label@, a as nat, b as nat));
    }
    out.append(line.as_str());
}

/// The peak memory, in full precision and quantized; `ratio` tells how much smaller the
/// quantized weights are.
pub open spec fn peak_text(
    full: nat,
    int8: Option<(usize, nat)>,
    arena: nat,
    ratio: Seq<char>,
) -> Seq<char> {
    match int8 {
        Some((gs, bytes)) => comparison_heading(gs as nat) + two_sizes("  weights        "@, full, bytes)
            + "   ("@ + ratio + "× smaller)\n"@ + two_sizes(
            "  peak RAM       "@,
            full + arena,
            bytes + arena,
        ) + "   (weights + arena)\n"@,
        None => "  peak RAM       "@ + right_aligned(human_size(full + arena), 10)
            + "  (weights + arena; not int8-quantizable)\n"@,
    }
}

/// The heading of the comparison.
pub open spec fn comparison_heading(group_size: nat) -> Seq<char> {
    "\nWeights + peak RAM (fp32 vs int8, group_size "@ + decimal(group_size)
        + "):\n                      fp32         int8\n"@
}

/// Compare the peak memory in full precision and quantized.
pub(crate) fn report_peak(
    full: usize,
    int8: Option<(usize, usize)>,
    arena: usize,
    ratio: &str,
) -> (r: String)
    requires
        full + arena <= usize::MAX,
        int8 matches Some((_, bytes)) ==> bytes + arena <= usize::MAX,
    ensures
        r@ == peak_text(
            full as nat,
            match int8 {
                Some((gs, bytes)) => Some((gs, bytes as nat)),
                None => None,
            },
            arena as nat,
            ratio@,
        ),
{
    let mut out = String::new();
    match int8 {
        Some((gs, bytes)) => {
            out.append("\nWeights + peak RAM (fp32 vs int8, group_size ");
            push_decimal(&mut out, gs as u64);
            out.append("):\n                      fp32         int8\n");
            proof {
                assert(out@ =~= comparison_heading(gs as nat));
            }
            push_two_sizes(&mut out, "  weights        ", full, bytes);
            out.append("   (");
            out.append(ratio);
            out.append("× smaller)\n");
            push_two_sizes(&mut out, "  peak RAM       ", full + arena, bytes + arena);
            out.append("   (weights + arena)\n");
        },
        None => {
            out.append("  peak RAM       ");
            proof {
                assert(out@ =~= "  peak RAM       "@);
            }
            push_right_aligned(&mut out, format_size(full + arena).as_str(), 10);
            out.append("  (weights + arena; not int8-quantizable)\n");
        },
    }
    out
}

/// The report on a model's memory; `ratio` tells how much smaller the quantized weights
/// are.
pub open spec fn memory_text(m: Model, ratio: Seq<char>) -> Seq<char> {
    let c = m.config;
    let int8 = match reported_group_size(c) {
        Some(gs) => Some((gs, int8_bytes(c, gs as nat))),
        None => None,
    };
    "\nMemory budget (working arena, pre-allocated once):\n"@ + budget_line(
        "  activations    "@,
        activation_len(c),
    ) + budget_line("  KV cache       "@, 2 * cache_len(c)) + budget_line(
        "  arena total    "@,
        activation_len(c) + 2 * cache_len(c),
    ) + "  weights (disk) "@ + right_aligned(
        human_size((m.file_bytes - m.format.header_bytes()) as nat),
        10,
    ) + "\n"@ + peak_text(full_bytes(c), int8, arena_bytes(c), ratio)
}

/// Report on a model's memory: the arena, the weights, and the peak in full precision and
/// quantized.
pub fn report_memory(model: &Model, ratio: &str) -> (r: String)
    requires
        model.wf(),
        sizes_fit(model.config),
    ensures
        r@ == memory_text(*model, ratio@),
{
    proof {
        parsed_configs_are_valid(model.file());
    }
    let c = &model.config;
    let budget = MemoryBudget::for_config(c);
    let sizes = weight_sizes(c);
    proof {
        if reported_group_size(*c) is Some {
            quantizing_saves_room(*c);
        }
    }
    let peak = report_peak(sizes.fp32, sizes.int8, budget.total_bytes(), ratio);
    let mut out = String::new();
    out.append("\nMemory budget (working arena, pre-allocated once):\n");
    proof {
        assert(out@ =~= "\nMemory budget (working arena, pre-allocated once):\n"@);
    }
    push_budget_line(&mut out, "  activations    ", budget.activation_floats);
    push_budget_line(&mut out, "  KV cache       ", budget.kv_cache_floats);
    push_budget_line(&mut out, "  arena total    ", budget.total_floats());
    out.append("  weights (disk) ");
    push_right_aligned(&mut out, format_size(model.weight_bytes()).as_str(), 10);
    out.append("\n");
    out.append(peak.as_str());
    out
}

} // verus!
