//! What to do with an encoder-decoder checkpoint: generate from a prompt, or report on it.

use vstd::prelude::*;

use crate::host::args::Args;
use crate::host::error::HostError;
use crate::host::run::usage;
use crate::llama::generate::undivided;
#[allow(unused_imports)]
use crate::llama::generate::undivided_text;
use crate::seq2seq::config::Config;
#[allow(unused_imports)]
use crate::seq2seq::quantize::divides_tensors;
use crate::text::owned;

verus! {

/// What to do with a checkpoint.
#[derive(Debug)]
pub enum Mode {
    /// Generate an output for a text.
    Generate {
        /// The text.
        prompt: String,
    },
    /// Say what it is.
    Report,
}

/// Decide what to do with a checkpoint. There is no format to convert to.
pub fn mode(args: &Args) -> (r: Result<Mode, HostError>)
    ensures
        match r {
            Ok(Mode::Generate { prompt }) => args.convert is None && args.prompt == Some(prompt),
            Ok(Mode::Report) => args.convert is None && args.prompt is None,
            Err(HostError::Usage(msg)) => args.convert is Some && msg@
                == "seq2seq (Marian) checkpoints do not support --convert (no on-disk int8 format yet)"@,
            Err(_) => false,
        },
{
    if args.convert.is_some() {
        return Err(
            usage(
                "seq2seq (Marian) checkpoints do not support --convert (no on-disk int8 format yet)",
            ),
        );
    }
    match &args.prompt {
        Some(prompt) => Ok(Mode::Generate { prompt: prompt.clone() }),
        None => Ok(Mode::Report),
    }
}

/// The complaint about a group size, if there is one.
pub open spec fn group_size_complaint(c: Config, group_size: nat) -> Option<Seq<char>> {
    if group_size == 0 {
        Some("--group-size must be at least 1"@)
    } else if c.d_model as nat % group_size != 0 {
        Some(undivided_text(group_size, "d_model"@, c.d_model as nat))
    } else if c.enc_ffn as nat % group_size != 0 {
        Some(undivided_text(group_size, "enc_ffn"@, c.enc_ffn as nat))
    } else if c.dec_ffn as nat % group_size != 0 {
        Some(undivided_text(group_size, "dec_ffn"@, c.dec_ffn as nat))
    } else {
        None
    }
}

/// Reject a group size that does not divide the length of every matrix row.
pub fn check_group_size(c: &Config, group_size: usize) -> (r: Result<(), HostError>)
    ensures
        match r {
            Ok(()) => group_size_complaint(*c, group_size as nat) is None,
            Err(HostError::Usage(msg)) => group_size_complaint(*c, group_size as nat) == Some(msg@),
            Err(_) => false,
        },
{
    if group_size == 0 {
        return Err(usage("--group-size must be at least 1"));
    }
    if c.d_model % group_size != 0 {
        return Err(undivided(group_size, "d_model", c.d_model));
    }
    if c.enc_ffn % group_size != 0 {
        return Err(undivided(group_size, "enc_ffn", c.enc_ffn));
    }
    if c.dec_ffn % group_size != 0 {
        return Err(undivided(group_size, "dec_ffn", c.dec_ffn));
    }
    Ok(())
}

/// A group size without a complaint divides every quantized tensor.
pub proof fn fitting_groups_divide_tensors(c: Config, group_size: nat)
    requires
        group_size_complaint(c, group_size) is None,
    ensures
        divides_tensors(c, group_size),
{
    let d = c.d_model as nat;
    let fe = c.enc_ffn as nat;
    let fd = c.dec_ffn as nat;
    multiples_of_rows(c.vocab_size as nat, d, group_size);
    multiples_of_rows(c.enc_layers as nat * d, d, group_size);
    multiples_of_rows(c.enc_layers as nat * fe, d, group_size);
    multiples_of_rows(c.enc_layers as nat * d, fe, group_size);
    multiples_of_rows(c.dec_layers as nat * d, d, group_size);
    multiples_of_rows(c.dec_layers as nat * fd, d, group_size);
    multiples_of_rows(c.dec_layers as nat * d, fd, group_size);
}

/// What divides a row divides rows.
proof fn multiples_of_rows(n: nat, row: nat, group_size: nat)
    requires
        group_size > 0,
        row % group_size == 0,
    ensures
        (n * row) % group_size == 0,
{
    let k = row / group_size;
    assert(row == k * group_size) by (nonlinear_arith)
        requires
            group_size > 0,
            row % group_size == 0,
            k == row / group_size,
    ;
    assert(n * row == (n * k) * group_size) by (nonlinear_arith)
        requires
            row == k * group_size,
    ;
    vstd::arithmetic::div_mod::lemma_mod_multiples_basic((n * k) as int, group_size as int);
}

/// The complaint about a tokenizer that is not there.
pub open spec fn no_tokenizer_text(looked_for: Seq<char>) -> Seq<char> {
    "seq2seq generation needs a tokenizer; pass --tokenizer <path> or place tokenizer.bin next to the model (looked for "@
        + looked_for + ")"@
}

/// Locate the tokenizer: the one asked for, or the one next to the model if it is there.
pub fn resolve_tokenizer(args: &Args, sibling: &str, sibling_exists: bool) -> (r: Result<
    String,
    HostError,
>)
    ensures
        match r {
            Ok(path) => match args.tokenizer {
                Some(t) => path == t,
                None => sibling_exists && path@ == sibling@,
            },
            Err(HostError::Usage(msg)) => args.tokenizer is None && !sibling_exists && msg@
                == no_tokenizer_text(sibling@),
            Err(_) => false,
        },
{
    if let Some(t) = &args.tokenizer {
        return Ok(t.clone());
    }
    if sibling_exists {
        return Ok(owned(sibling));
    }
    let mut msg = String::new();
    msg.append(
        "seq2seq generation needs a tokenizer; pass --tokenizer <path> or place tokenizer.bin next to the model (looked for ",
    );
    msg.append(sibling);
    msg.append(")");
    proof {
        assert(msg@ =~= no_tokenizer_text(sibling@));
    }
    Err(HostError::Usage(msg))
}

} // verus!
