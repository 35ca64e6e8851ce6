//! What the program does with its arguments before a checkpoint is loaded: whether to
//! print help, which file to open, and which architecture the file belongs to.

use vstd::prelude::*;

use crate::host::args::Args;
use crate::host::error::HostError;
use crate::llama::config::is_llama;
#[allow(unused_imports)]
use crate::llama::config::{has_magic, legacy_config};
use crate::seq2seq::config::is_seq2seq;
#[allow(unused_imports)]
use crate::seq2seq::config::has_seq2seq_magic;
use crate::text::owned;

verus! {

/// What to do first.
#[derive(Debug)]
pub enum Startup {
    /// Print the usage text and stop.
    Help,
    /// Open this checkpoint.
    Open(String),
}

/// The complaint about arguments that do not go together, if there is one.
pub open spec fn startup_complaint(args: Args) -> Option<Seq<char>> {
    if args.help {
        None
    } else if args.model is None {
        Some("no model file given"@)
    } else if args.to is Some && args.convert is None {
        Some("`--to` requires `--convert <PATH>`"@)
    } else if args.convert is Some && args.prompt is Some {
        Some(
            "`--convert` writes a checkpoint and exits; it cannot be combined with --prompt"@,
        )
    } else {
        None
    }
}

/// A usage error with a fixed text.
pub(crate) fn usage(text: &str) -> (r: HostError)
    ensures
        r matches HostError::Usage(msg) && msg@ == text@,
{
    HostError::Usage(owned(text))
}

/// Decide what to do first. Help wins over everything; then a model is needed, a target
/// needs a conversion, and a conversion excludes a prompt.
pub fn startup(args: &Args) -> (r: Result<Startup, HostError>)
    ensures
        match r {
            Ok(Startup::Help) => args.help,
            Ok(Startup::Open(path)) => {
                &&& !args.help
                &&& startup_complaint(*args) is None
                &&& args.model == Some(path)
            },
            Err(HostError::Usage(msg)) => startup_complaint(*args) == Some(msg@),
            Err(_) => false,
        },
{
    if args.help {
        return Ok(Startup::Help);
    }
    let path = match &args.model {
        Some(path) => path.clone(),
        None => {
            return Err(usage("no model file given"));
        },
    };
    if args.to.is_some() && args.convert.is_none() {
        return Err(usage("`--to` requires `--convert <PATH>`"));
    }
    if args.convert.is_some() && args.prompt.is_some() {
        return Err(
            usage("`--convert` writes a checkpoint and exits; it cannot be combined with --prompt"),
        );
    }
    Ok(Startup::Open(path))
}

/// A model architecture.
#[derive(Debug, Clone, Copy, PartialEq, Eq, Structural)]
pub enum Architecture {
    /// Decoder-only llama2.c checkpoints.
    Llama,
    /// Encoder-decoder checkpoints.
    Seq2Seq,
}

/// Whether a file's leading bytes look like a llama2.c checkpoint.
pub open spec fn llama_like(head: Seq<u8>) -> bool {
    has_magic(head) || legacy_config(head) is Ok
}

/// Detect the architecture from a checkpoint's leading bytes.
///
/// The format with a magic of its own is tested first: the legacy llama2.c format has none
/// and is recognised by its structure alone.
pub fn architecture(path: &str, head: &[u8]) -> (r: Result<Architecture, HostError>)
    ensures
        match r {
            Ok(Architecture::Seq2Seq) => has_seq2seq_magic(head@),
            Ok(Architecture::Llama) => !has_seq2seq_magic(head@) && llama_like(head@),
            Err(HostError::Format { path: p, msg }) => {
                &&& !has_seq2seq_magic(head@)
                &&& !llama_like(head@)
                &&& p@ == path@
                &&& msg@
                    == "unrecognized checkpoint format (expected a llama2.c .bin or a tiny-infer seq2seq \"tis2\" checkpoint)"@
            },
            Err(_) => false,
        },
{
    if is_seq2seq(head) {
        return Ok(Architecture::Seq2Seq);
    }
    if is_llama(head) {
        return Ok(Architecture::Llama);
    }
    Err(
        HostError::Format {
            path: owned(path),
            msg: owned(
                "unrecognized checkpoint format (expected a llama2.c .bin or a tiny-infer seq2seq \"tis2\" checkpoint)",
            ),
        },
    )
}

} // verus!
