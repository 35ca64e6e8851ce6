//! What a run of the program does with its arguments and its checkpoint.

use vstd::prelude::*;

use crate::host::args::{Args, Target};
use crate::llama::config::{Config, ModelFormat};
use crate::llama::generate::group_size_complaint;
use crate::llama::run::{mode_of, run_of, source_of, ModeView, SourceView};

verus! {

/// A group size is accepted exactly where it is positive and divides the widths of all matrices.
pub proof fn group_sizes_divide_the_widths(c: Config, group_size: nat)
    ensures
        group_size_complaint(c, group_size) is None <==> group_size > 0 && c.dim as nat % group_size
            == 0 && c.hidden_dim as nat % group_size == 0 && c.kv_dim_spec() % group_size == 0,
{
}

/// A conversion is done where one is asked for, to the target, which is version 2 unless another is
/// named; version 2 needs a group size that fits. Without a conversion a prompt is continued, which
/// needs a tokenizer, and without a prompt the checkpoint is reported on.
pub proof fn modes_follow_from_arguments(args: Args, c: Config)
    ensures
        args.convert matches Some(path) ==> {
            &&& args.to == Some(Target::V1) ==> mode_of(args, c) == Ok::<ModeView, Seq<char>>(
                ModeView::Convert { path: path@, target: Target::V1 },
            )
            &&& args.to != Some(Target::V1) && group_size_complaint(c, args.group_size as nat)
                is None ==> mode_of(args, c) == Ok::<ModeView, Seq<char>>(
                ModeView::Convert { path: path@, target: Target::V2 },
            )
            &&& args.to != Some(Target::V1) && group_size_complaint(c, args.group_size as nat)
                is Some ==> mode_of(args, c) is Err
        },
        args.convert is None ==> {
            &&& args.prompt is Some && args.tokenizer is Some
                ==> mode_of(args, c) == Ok::<ModeView, Seq<char>>(
                ModeView::Generate { prompt: args.prompt->0@, tokenizer: args.tokenizer->0@ },
            )
            &&& args.prompt is Some && args.tokenizer is None ==> mode_of(args, c) is Err
            &&& args.prompt is None && args.tokenizer is None ==> mode_of(args, c) == Ok::<
                ModeView,
                Seq<char>,
            >(ModeView::Report { tokenizer: None })
            &&& args.prompt is None && args.tokenizer is Some ==> mode_of(args, c) == Ok::<
                ModeView,
                Seq<char>,
            >(ModeView::Report { tokenizer: Some(args.tokenizer->0@) })
        },
{
    if args.to is Some {
        assert(args.to == Some(Target::V1) || args.to == Some(Target::V2));
    }
}

/// The weights of a quantized checkpoint are used as they are; others are quantized where that is
/// asked for, with a group size that fits, and used in full precision otherwise.
pub proof fn sources_follow_from_arguments(args: Args, format: ModelFormat, c: Config)
    ensures
        format is V2 ==> source_of(args, format, c) == Ok::<SourceView, Seq<char>>(
            SourceView::Packed,
        ),
        !(format is V2) && !args.quantize ==> source_of(args, format, c) == Ok::<
            SourceView,
            Seq<char>,
        >(SourceView::Full),
        !(format is V2) && args.quantize && group_size_complaint(c, args.group_size as nat) is None
            ==> source_of(args, format, c) == Ok::<SourceView, Seq<char>>(
            SourceView::Quantize { group_size: args.group_size },
        ),
        !(format is V2) && args.quantize && group_size_complaint(c, args.group_size as nat) is Some
            ==> source_of(args, format, c) is Err,
        run_of(args, format, c).steps == args.steps,
        run_of(args, format, c).temperature == args.temperature,
        run_of(args, format, c).topp == args.topp,
        run_of(args, format, c).seed == args.seed,
        run_of(args, format, c).scalar == args.scalar,
        run_of(args, format, c).dotprod == args.dotprod,
{
}

} // verus!
