//! What the options mean: which name sets what, that a value may follow its name or an equals sign,
//! and which arguments do not go together.

use vstd::prelude::*;

use crate::host::args::{
    argument_set, arguments_set, assigned_option, assigned_prefix, defaults, long_name,
    named_option, option_set, parsed_args, Arg, Args, Opt, ParseView, Target,
};
use crate::host::run::startup_complaint;
use crate::text::{begins_with, number_value};

verus! {

/// Tell all names of options apart.
proof fn names_differ()
    ensures
        "-h"@ != "--help"@,
        "-h"@ != "-q"@,
        "-h"@ != "--quantize"@,
        "-h"@ != "--scalar"@,
        "-h"@ != "--dotprod"@,
        "-h"@ != "-m"@,
        "-h"@ != "--model"@,
        "-h"@ != "-t"@,
        "-h"@ != "--tokenizer"@,
        "-h"@ != "-p"@,
        "-h"@ != "--prompt"@,
        "-h"@ != "-n"@,
        "-h"@ != "--steps"@,
        "-h"@ != "--temperature"@,
        "-h"@ != "--topp"@,
        "-h"@ != "--seed"@,
        "-h"@ != "--group-size"@,
        "-h"@ != "--convert"@,
        "-h"@ != "--to"@,
        "--help"@ != "-q"@,
        "--help"@ != "--quantize"@,
        "--help"@ != "--scalar"@,
        "--help"@ != "--dotprod"@,
        "--help"@ != "-m"@,
        "--help"@ != "--model"@,
        "--help"@ != "-t"@,
        "--help"@ != "--tokenizer"@,
        "--help"@ != "-p"@,
        "--help"@ != "--prompt"@,
        "--help"@ != "-n"@,
        "--help"@ != "--steps"@,
        "--help"@ != "--temperature"@,
        "--help"@ != "--topp"@,
        "--help"@ != "--seed"@,
        "--help"@ != "--group-size"@,
        "--help"@ != "--convert"@,
        "--help"@ != "--to"@,
        "-q"@ != "--quantize"@,
        "-q"@ != "--scalar"@,
        "-q"@ != "--dotprod"@,
        "-q"@ != "-m"@,
        "-q"@ != "--model"@,
        "-q"@ != "-t"@,
        "-q"@ != "--tokenizer"@,
        "-q"@ != "-p"@,
        "-q"@ != "--prompt"@,
        "-q"@ != "-n"@,
        "-q"@ != "--steps"@,
        "-q"@ != "--temperature"@,
        "-q"@ != "--topp"@,
        "-q"@ != "--seed"@,
        "-q"@ != "--group-size"@,
        "-q"@ != "--convert"@,
        "-q"@ != "--to"@,
        "--quantize"@ != "--scalar"@,
        "--quantize"@ != "--dotprod"@,
        "--quantize"@ != "-m"@,
        "--quantize"@ != "--model"@,
        "--quantize"@ != "-t"@,
        "--quantize"@ != "--tokenizer"@,
        "--quantize"@ != "-p"@,
        "--quantize"@ != "--prompt"@,
        "--quantize"@ != "-n"@,
        "--quantize"@ != "--steps"@,
        "--quantize"@ != "--temperature"@,
        "--quantize"@ != "--topp"@,
        "--quantize"@ != "--seed"@,
        "--quantize"@ != "--group-size"@,
        "--quantize"@ != "--convert"@,
        "--quantize"@ != "--to"@,
        "--scalar"@ != "--dotprod"@,
        "--scalar"@ != "-m"@,
        "--scalar"@ != "--model"@,
        "--scalar"@ != "-t"@,
        "--scalar"@ != "--tokenizer"@,
        "--scalar"@ != "-p"@,
        "--scalar"@ != "--prompt"@,
        "--scalar"@ != "-n"@,
        "--scalar"@ != "--steps"@,
        "--scalar"@ != "--temperature"@,
        "--scalar"@ != "--topp"@,
        "--scalar"@ != "--seed"@,
        "--scalar"@ != "--group-size"@,
        "--scalar"@ != "--convert"@,
        "--scalar"@ != "--to"@,
        "--dotprod"@ != "-m"@,
        "--dotprod"@ != "--model"@,
        "--dotprod"@ != "-t"@,
        "--dotprod"@ != "--tokenizer"@,
        "--dotprod"@ != "-p"@,
        "--dotprod"@ != "--prompt"@,
        "--dotprod"@ != "-n"@,
        "--dotprod"@ != "--steps"@,
        "--dotprod"@ != "--temperature"@,
        "--dotprod"@ != "--topp"@,
        "--dotprod"@ != "--seed"@,
        "--dotprod"@ != "--group-size"@,
        "--dotprod"@ != "--convert"@,
        "--dotprod"@ != "--to"@,
        "-m"@ != "--model"@,
        "-m"@ != "-t"@,
        "-m"@ != "--tokenizer"@,
        "-m"@ != "-p"@,
        "-m"@ != "--prompt"@,
        "-m"@ != "-n"@,
        "-m"@ != "--steps"@,
        "-m"@ != "--temperature"@,
        "-m"@ != "--topp"@,
        "-m"@ != "--seed"@,
        "-m"@ != "--group-size"@,
        "-m"@ != "--convert"@,
        "-m"@ != "--to"@,
        "--model"@ != "-t"@,
        "--model"@ != "--tokenizer"@,
        "--model"@ != "-p"@,
        "--model"@ != "--prompt"@,
        "--model"@ != "-n"@,
        "--model"@ != "--steps"@,
        "--model"@ != "--temperature"@,
        "--model"@ != "--topp"@,
        "--model"@ != "--seed"@,
        "--model"@ != "--group-size"@,
        "--model"@ != "--convert"@,
        "--model"@ != "--to"@,
        "-t"@ != "--tokenizer"@,
        "-t"@ != "-p"@,
        "-t"@ != "--prompt"@,
        "-t"@ != "-n"@,
        "-t"@ != "--steps"@,
        "-t"@ != "--temperature"@,
        "-t"@ != "--topp"@,
        "-t"@ != "--seed"@,
        "-t"@ != "--group-size"@,
        "-t"@ != "--convert"@,
        "-t"@ != "--to"@,
        "--tokenizer"@ != "-p"@,
        "--tokenizer"@ != "--prompt"@,
        "--tokenizer"@ != "-n"@,
        "--tokenizer"@ != "--steps"@,
        "--tokenizer"@ != "--temperature"@,
        "--tokenizer"@ != "--topp"@,
        "--tokenizer"@ != "--seed"@,
        "--tokenizer"@ != "--group-size"@,
        "--tokenizer"@ != "--convert"@,
        "--tokenizer"@ != "--to"@,
        "-p"@ != "--prompt"@,
        "-p"@ != "-n"@,
        "-p"@ != "--steps"@,
        "-p"@ != "--temperature"@,
        "-p"@ != "--topp"@,
        "-p"@ != "--seed"@,
        "-p"@ != "--group-size"@,
        "-p"@ != "--convert"@,
        "-p"@ != "--to"@,
        "--prompt"@ != "-n"@,
        "--prompt"@ != "--steps"@,
        "--prompt"@ != "--temperature"@,
        "--prompt"@ != "--topp"@,
        "--prompt"@ != "--seed"@,
        "--prompt"@ != "--group-size"@,
        "--prompt"@ != "--convert"@,
        "--prompt"@ != "--to"@,
        "-n"@ != "--steps"@,
        "-n"@ != "--temperature"@,
        "-n"@ != "--topp"@,
        "-n"@ != "--seed"@,
        "-n"@ != "--group-size"@,
        "-n"@ != "--convert"@,
        "-n"@ != "--to"@,
        "--steps"@ != "--temperature"@,
        "--steps"@ != "--topp"@,
        "--steps"@ != "--seed"@,
        "--steps"@ != "--group-size"@,
        "--steps"@ != "--convert"@,
        "--steps"@ != "--to"@,
        "--temperature"@ != "--topp"@,
        "--temperature"@ != "--seed"@,
        "--temperature"@ != "--group-size"@,
        "--temperature"@ != "--convert"@,
        "--temperature"@ != "--to"@,
        "--topp"@ != "--seed"@,
        "--topp"@ != "--group-size"@,
        "--topp"@ != "--convert"@,
        "--topp"@ != "--to"@,
        "--seed"@ != "--group-size"@,
        "--seed"@ != "--convert"@,
        "--seed"@ != "--to"@,
        "--group-size"@ != "--convert"@,
        "--group-size"@ != "--to"@,
        "--convert"@ != "--to"@,
{
    reveal_strlit("-h");
    reveal_strlit("--help");
    reveal_strlit("-q");
    reveal_strlit("--quantize");
    reveal_strlit("--scalar");
    reveal_strlit("--dotprod");
    reveal_strlit("-m");
    reveal_strlit("--model");
    reveal_strlit("-t");
    reveal_strlit("--tokenizer");
    reveal_strlit("-p");
    reveal_strlit("--prompt");
    reveal_strlit("-n");
    reveal_strlit("--steps");
    reveal_strlit("--temperature");
    reveal_strlit("--topp");
    reveal_strlit("--seed");
    reveal_strlit("--group-size");
    reveal_strlit("--convert");
    reveal_strlit("--to");
    assert("-h"@.len() != "--help"@.len());
    assert("-h"@[1] != "-q"@[1]);
    assert("-h"@.len() != "--quantize"@.len());
    assert("-h"@.len() != "--scalar"@.len());
    assert("-h"@.len() != "--dotprod"@.len());
    assert("-h"@[1] != "-m"@[1]);
    assert("-h"@.len() != "--model"@.len());
    assert("-h"@[1] != "-t"@[1]);
    assert("-h"@.len() != "--tokenizer"@.len());
    assert("-h"@[1] != "-p"@[1]);
    assert("-h"@.len() != "--prompt"@.len());
    assert("-h"@[1] != "-n"@[1]);
    assert("-h"@.len() != "--steps"@.len());
    assert("-h"@.len() != "--temperature"@.len());
    assert("-h"@.len() != "--topp"@.len());
    assert("-h"@.len() != "--seed"@.len());
    assert("-h"@.len() != "--group-size"@.len());
    assert("-h"@.len() != "--convert"@.len());
    assert("-h"@.len() != "--to"@.len());
    assert("--help"@.len() != "-q"@.len());
    assert("--help"@.len() != "--quantize"@.len());
    assert("--help"@.len() != "--scalar"@.len());
    assert("--help"@.len() != "--dotprod"@.len());
    assert("--help"@.len() != "-m"@.len());
    assert("--help"@.len() != "--model"@.len());
    assert("--help"@.len() != "-t"@.len());
    assert("--help"@.len() != "--tokenizer"@.len());
    assert("--help"@.len() != "-p"@.len());
    assert("--help"@.len() != "--prompt"@.len());
    assert("--help"@.len() != "-n"@.len());
    assert("--help"@.len() != "--steps"@.len());
    assert("--help"@.len() != "--temperature"@.len());
    assert("--help"@[2] != "--topp"@[2]);
    assert("--help"@[2] != "--seed"@[2]);
    assert("--help"@.len() != "--group-size"@.len());
    assert("--help"@.len() != "--convert"@.len());
    assert("--help"@.len() != "--to"@.len());
    assert("-q"@.len() != "--quantize"@.len());
    assert("-q"@.len() != "--scalar"@.len());
    assert("-q"@.len() != "--dotprod"@.len());
    assert("-q"@[1] != "-m"@[1]);
    assert("-q"@.len() != "--model"@.len());
    assert("-q"@[1] != "-t"@[1]);
    assert("-q"@.len() != "--tokenizer"@.len());
    assert("-q"@[1] != "-p"@[1]);
    assert("-q"@.len() != "--prompt"@.len());
    assert("-q"@[1] != "-n"@[1]);
    assert("-q"@.len() != "--steps"@.len());
    assert("-q"@.len() != "--temperature"@.len());
    assert("-q"@.len() != "--topp"@.len());
    assert("-q"@.len() != "--seed"@.len());
    assert("-q"@.len() != "--group-size"@.len());
    assert("-q"@.len() != "--convert"@.len());
    assert("-q"@.len() != "--to"@.len());
    assert("--quantize"@.len() != "--scalar"@.len());
    assert("--quantize"@.len() != "--dotprod"@.len());
    assert("--quantize"@.len() != "-m"@.len());
    assert("--quantize"@.len() != "--model"@.len());
    assert("--quantize"@.len() != "-t"@.len());
    assert("--quantize"@.len() != "--tokenizer"@.len());
    assert("--quantize"@.len() != "-p"@.len());
    assert("--quantize"@.len() != "--prompt"@.len());
    assert("--quantize"@.len() != "-n"@.len());
    assert("--quantize"@.len() != "--steps"@.len());
    assert("--quantize"@.len() != "--temperature"@.len());
    assert("--quantize"@.len() != "--topp"@.len());
    assert("--quantize"@.len() != "--seed"@.len());
    assert("--quantize"@.len() != "--group-size"@.len());
    assert("--quantize"@.len() != "--convert"@.len());
    assert("--quantize"@.len() != "--to"@.len());
    assert("--scalar"@.len() != "--dotprod"@.len());
    assert("--scalar"@.len() != "-m"@.len());
    assert("--scalar"@.len() != "--model"@.len());
    assert("--scalar"@.len() != "-t"@.len());
    assert("--scalar"@.len() != "--tokenizer"@.len());
    assert("--scalar"@.len() != "-p"@.len());
    assert("--scalar"@[2] != "--prompt"@[2]);
    assert("--scalar"@.len() != "-n"@.len());
    assert("--scalar"@.len() != "--steps"@.len());
    assert("--scalar"@.len() != "--temperature"@.len());
    assert("--scalar"@.len() != "--topp"@.len());
    assert("--scalar"@.len() != "--seed"@.len());
    assert("--scalar"@.len() != "--group-size"@.len());
    assert("--scalar"@.len() != "--convert"@.len());
    assert("--scalar"@.len() != "--to"@.len());
    assert("--dotprod"@.len() != "-m"@.len());
    assert("--dotprod"@.len() != "--model"@.len());
    assert("--dotprod"@.len() != "-t"@.len());
    assert("--dotprod"@.len() != "--tokenizer"@.len());
    assert("--dotprod"@.len() != "-p"@.len());
    assert("--dotprod"@.len() != "--prompt"@.len());
    assert("--dotprod"@.len() != "-n"@.len());
    assert("--dotprod"@.len() != "--steps"@.len());
    assert("--dotprod"@.len() != "--temperature"@.len());
    assert("--dotprod"@.len() != "--topp"@.len());
    assert("--dotprod"@.len() != "--seed"@.len());
    assert("--dotprod"@.len() != "--group-size"@.len());
    assert("--dotprod"@[2] != "--convert"@[2]);
    assert("--dotprod"@.len() != "--to"@.len());
    assert("-m"@.len() != "--model"@.len());
    assert("-m"@[1] != "-t"@[1]);
    assert("-m"@.len() != "--tokenizer"@.len());
    assert("-m"@[1] != "-p"@[1]);
    assert("-m"@.len() != "--prompt"@.len());
    assert("-m"@[1] != "-n"@[1]);
    assert("-m"@.len() != "--steps"@.len());
    assert("-m"@.len() != "--temperature"@.len());
    assert("-m"@.len() != "--topp"@.len());
    assert("-m"@.len() != "--seed"@.len());
    assert("-m"@.len() != "--group-size"@.len());
    assert("-m"@.len() != "--convert"@.len());
    assert("-m"@.len() != "--to"@.len());
    assert("--model"@.len() != "-t"@.len());
    assert("--model"@.len() != "--tokenizer"@.len());
    assert("--model"@.len() != "-p"@.len());
    assert("--model"@.len() != "--prompt"@.len());
    assert("--model"@.len() != "-n"@.len());
    assert("--model"@[2] != "--steps"@[2]);
    assert("--model"@.len() != "--temperature"@.len());
    assert("--model"@.len() != "--topp"@.len());
    assert("--model"@.len() != "--seed"@.len());
    assert("--model"@.len() != "--group-size"@.len());
    assert("--model"@.len() != "--convert"@.len());
    assert("--model"@.len() != "--to"@.len());
    assert("-t"@.len() != "--tokenizer"@.len());
    assert("-t"@[1] != "-p"@[1]);
    assert("-t"@.len() != "--prompt"@.len());
    assert("-t"@[1] != "-n"@[1]);
    assert("-t"@.len() != "--steps"@.len());
    assert("-t"@.len() != "--temperature"@.len());
    assert("-t"@.len() != "--topp"@.len());
    assert("-t"@.len() != "--seed"@.len());
    assert("-t"@.len() != "--group-size"@.len());
    assert("-t"@.len() != "--convert"@.len());
    assert("-t"@.len() != "--to"@.len());
    assert("--tokenizer"@.len() != "-p"@.len());
    assert("--tokenizer"@.len() != "--prompt"@.len());
    assert("--tokenizer"@.len() != "-n"@.len());
    assert("--tokenizer"@.len() != "--steps"@.len());
    assert("--tokenizer"@.len() != "--temperature"@.len());
    assert("--tokenizer"@.len() != "--topp"@.len());
    assert("--tokenizer"@.len() != "--seed"@.len());
    assert("--tokenizer"@.len() != "--group-size"@.len());
    assert("--tokenizer"@.len() != "--convert"@.len());
    assert("--tokenizer"@.len() != "--to"@.len());
    assert("-p"@.len() != "--prompt"@.len());
    assert("-p"@[1] != "-n"@[1]);
    assert("-p"@.len() != "--steps"@.len());
    assert("-p"@.len() != "--temperature"@.len());
    assert("-p"@.len() != "--topp"@.len());
    assert("-p"@.len() != "--seed"@.len());
    assert("-p"@.len() != "--group-size"@.len());
    assert("-p"@.len() != "--convert"@.len());
    assert("-p"@.len() != "--to"@.len());
    assert("--prompt"@.len() != "-n"@.len());
    assert("--prompt"@.len() != "--steps"@.len());
    assert("--prompt"@.len() != "--temperature"@.len());
    assert("--prompt"@.len() != "--topp"@.len());
    assert("--prompt"@.len() != "--seed"@.len());
    assert("--prompt"@.len() != "--group-size"@.len());
    assert("--prompt"@.len() != "--convert"@.len());
    assert("--prompt"@.len() != "--to"@.len());
    assert("-n"@.len() != "--steps"@.len());
    assert("-n"@.len() != "--temperature"@.len());
    assert("-n"@.len() != "--topp"@.len());
    assert("-n"@.len() != "--seed"@.len());
    assert("-n"@.len() != "--group-size"@.len());
    assert("-n"@.len() != "--convert"@.len());
    assert("-n"@.len() != "--to"@.len());
    assert("--steps"@.len() != "--temperature"@.len());
    assert("--steps"@.len() != "--topp"@.len());
    assert("--steps"@.len() != "--seed"@.len());
    assert("--steps"@.len() != "--group-size"@.len());
    assert("--steps"@.len() != "--convert"@.len());
    assert("--steps"@.len() != "--to"@.len());
    assert("--temperature"@.len() != "--topp"@.len());
    assert("--temperature"@.len() != "--seed"@.len());
    assert("--temperature"@.len() != "--group-size"@.len());
    assert("--temperature"@.len() != "--convert"@.len());
    assert("--temperature"@.len() != "--to"@.len());
    assert("--topp"@[2] != "--seed"@[2]);
    assert("--topp"@.len() != "--group-size"@.len());
    assert("--topp"@.len() != "--convert"@.len());
    assert("--topp"@.len() != "--to"@.len());
    assert("--seed"@.len() != "--group-size"@.len());
    assert("--seed"@.len() != "--convert"@.len());
    assert("--seed"@.len() != "--to"@.len());
    assert("--group-size"@.len() != "--convert"@.len());
    assert("--group-size"@.len() != "--to"@.len());
    assert("--convert"@.len() != "--to"@.len());
}

/// A switch turns on what it is named after, and nothing else.
pub proof fn switches_turn_on_their_own(args: Seq<Arg>, i: int, st: ParseView)
    requires
        0 <= i < args.len(),
    ensures
        ({
            let s = args[i].text@;
            &&& (s == "-h"@ || s == "--help"@) ==> argument_set(args, i, st) == Ok::<(ParseView, int), Seq<char>>(
                (ParseView { help: true, ..st }, 1),
            )
            &&& (s == "-q"@ || s == "--quantize"@) ==> argument_set(args, i, st) == Ok::<(ParseView, int), Seq<char>>(
                (ParseView { quantize: true, ..st }, 1),
            )
            &&& (s == "--scalar"@) ==> argument_set(args, i, st) == Ok::<(ParseView, int), Seq<char>>(
                (ParseView { scalar: true, ..st }, 1),
            )
            &&& (s == "--dotprod"@) ==> argument_set(args, i, st) == Ok::<(ParseView, int), Seq<char>>(
                (ParseView { dotprod: true, ..st }, 1),
            )
        }),
{
    names_differ();
}

/// An option sets what it is named after to the value that follows it, and nothing else.
pub proof fn options_set_their_own(args: Seq<Arg>, i: int, st: ParseView)
    requires
        0 <= i,
        i + 1 < args.len(),
    ensures
        ({
            let s = args[i].text@;
            let v = args[i + 1].text@;
            let n = number_value(v);
            &&& (s == "-m"@ || s == "--model"@) ==> argument_set(args, i, st) == Ok::<(ParseView, int), Seq<char>>(
                (ParseView { model: Some(v), ..st }, 2),
            )
            &&& (s == "-t"@ || s == "--tokenizer"@) ==> argument_set(args, i, st) == Ok::<(ParseView, int), Seq<char>>(
                (ParseView { tokenizer: Some(v), ..st }, 2),
            )
            &&& (s == "-p"@ || s == "--prompt"@) ==> argument_set(args, i, st) == Ok::<(ParseView, int), Seq<char>>(
                (ParseView { prompt: Some(v), ..st }, 2),
            )
            &&& (s == "-n"@ || s == "--steps"@) && n is Some && n->0 <= usize::MAX ==> argument_set(args, i, st)
                == Ok::<(ParseView, int), Seq<char>>((ParseView { steps: Some(n->0 as usize), ..st }, 2))
            &&& (s == "-n"@ || s == "--steps"@) && (n is None || n->0 > usize::MAX) ==> argument_set(args, i, st) is Err
            &&& (s == "--temperature"@) ==> match args[i + 1].number {
                Some(x) => argument_set(args, i, st) == Ok::<(ParseView, int), Seq<char>>(
                    (ParseView { temperature: x, ..st }, 2),
                ),
                None => argument_set(args, i, st) is Err,
            }
            &&& (s == "--topp"@) ==> match args[i + 1].number {
                Some(x) => argument_set(args, i, st) == Ok::<(ParseView, int), Seq<char>>(
                    (ParseView { topp: x, ..st }, 2),
                ),
                None => argument_set(args, i, st) is Err,
            }
            &&& (s == "--seed"@) && n is Some && n->0 <= u64::MAX ==> argument_set(args, i, st)
                == Ok::<(ParseView, int), Seq<char>>((ParseView { seed: Some(n->0 as u64), ..st }, 2))
            &&& (s == "--seed"@) && (n is None || n->0 > u64::MAX) ==> argument_set(args, i, st) is Err
            &&& (s == "--group-size"@) && n is Some && n->0 <= usize::MAX ==> argument_set(args, i, st)
                == Ok::<(ParseView, int), Seq<char>>((ParseView { group_size: n->0 as usize, ..st }, 2))
            &&& (s == "--group-size"@) && (n is None || n->0 > usize::MAX) ==> argument_set(args, i, st) is Err
            &&& (s == "--convert"@) ==> argument_set(args, i, st) == Ok::<(ParseView, int), Seq<char>>(
                (ParseView { convert: Some(v), ..st }, 2),
            )
            &&& (s == "--to"@) && v == "v1"@ ==> argument_set(args, i, st) == Ok::<
                (ParseView, int),
                Seq<char>,
            >((ParseView { to: Some(Target::V1), ..st }, 2))
            &&& (s == "--to"@) && v == "v2"@ ==> argument_set(args, i, st) == Ok::<
                (ParseView, int),
                Seq<char>,
            >((ParseView { to: Some(Target::V2), ..st }, 2))
            &&& (s == "--to"@) && v != "v1"@ && v != "v2"@ ==> argument_set(args, i, st) is Err
        }),
{
    names_differ();
    reveal_strlit("v1");
    reveal_strlit("v2");
    assert("v1"@[1] != "v2"@[1]);
}

/// The long name of an option.
pub open spec fn name_of(o: Opt) -> Seq<char> {
    match o {
        Opt::Model => "--model"@,
        Opt::Tokenizer => "--tokenizer"@,
        Opt::Prompt => "--prompt"@,
        Opt::Steps => "--steps"@,
        Opt::Temperature => "--temperature"@,
        Opt::Topp => "--topp"@,
        Opt::Seed => "--seed"@,
        Opt::GroupSize => "--group-size"@,
        Opt::Convert => "--convert"@,
        Opt::To => "--to"@,
    }
}

/// Tell the beginnings of assignments apart from the switches and from each other.
proof fn assignments_differ(o: Opt, value: Seq<char>)
    ensures
        ({
            let s = name_of(o) + seq!['='] + value;
            &&& s != "-h"@
            &&& s != "--help"@
            &&& s != "-q"@
            &&& s != "--quantize"@
            &&& s != "--scalar"@
            &&& s != "--dotprod"@
            &&& s != "-m"@
            &&& s != "--model"@
            &&& s != "-t"@
            &&& s != "--tokenizer"@
            &&& s != "-p"@
            &&& s != "--prompt"@
            &&& s != "-n"@
            &&& s != "--steps"@
            &&& s != "--temperature"@
            &&& s != "--topp"@
            &&& s != "--seed"@
            &&& s != "--group-size"@
            &&& s != "--convert"@
            &&& s != "--to"@
            &&& assigned_option(s) == Some(o)
            &&& s.skip(assigned_prefix(o).len() as int) == value
            &&& long_name(o) == name_of(o)
        }),
{
    reveal_strlit("-h");
    reveal_strlit("--help");
    reveal_strlit("-q");
    reveal_strlit("--quantize");
    reveal_strlit("--scalar");
    reveal_strlit("--dotprod");
    reveal_strlit("-m");
    reveal_strlit("--model");
    reveal_strlit("-t");
    reveal_strlit("--tokenizer");
    reveal_strlit("-p");
    reveal_strlit("--prompt");
    reveal_strlit("-n");
    reveal_strlit("--steps");
    reveal_strlit("--temperature");
    reveal_strlit("--topp");
    reveal_strlit("--seed");
    reveal_strlit("--group-size");
    reveal_strlit("--convert");
    reveal_strlit("--to");
    reveal_strlit("--model=");
    reveal_strlit("--tokenizer=");
    reveal_strlit("--prompt=");
    reveal_strlit("--steps=");
    reveal_strlit("--temperature=");
    reveal_strlit("--topp=");
    reveal_strlit("--seed=");
    reveal_strlit("--group-size=");
    reveal_strlit("--convert=");
    reveal_strlit("--to=");
    let s = name_of(o) + seq!['='] + value;
    let p = assigned_prefix(o);
    assert(p =~= name_of(o) + seq!['=']);
    assert(s.subrange(0, p.len() as int) =~= p);
    assert(s.skip(p.len() as int) =~= value);
    match o {
        Opt::Model => {
            assert(s.len() > "-h"@.len());
            assert(s.len() > "--help"@.len());
            assert(s.len() > "-q"@.len());
            assert(s[7] == '=' && "--quantize"@[7] != '=');
            assert(s[7] == '=' && "--scalar"@[7] != '=');
            assert(s[7] == '=' && "--dotprod"@[7] != '=');
            assert(s.len() > "-m"@.len());
            assert(s.len() > "--model"@.len());
            assert(s.len() > "-t"@.len());
            assert(s[7] == '=' && "--tokenizer"@[7] != '=');
            assert(s.len() > "-p"@.len());
            assert(s[7] == '=' && "--prompt"@[7] != '=');
            assert(s.len() > "-n"@.len());
            assert(s.len() > "--steps"@.len());
            assert(s[7] == '=' && "--temperature"@[7] != '=');
            assert(s.len() > "--topp"@.len());
            assert(s.len() > "--seed"@.len());
            assert(s[7] == '=' && "--group-size"@[7] != '=');
            assert(s[7] == '=' && "--convert"@[7] != '=');
            assert(s.len() > "--to"@.len());
        },
        Opt::Tokenizer => {
            assert(s.len() > "-h"@.len());
            assert(s.len() > "--help"@.len());
            assert(s.len() > "-q"@.len());
            assert(s.len() > "--quantize"@.len());
            assert(s.len() > "--scalar"@.len());
            assert(s.len() > "--dotprod"@.len());
            assert(s.len() > "-m"@.len());
            assert(s.len() > "--model"@.len());
            assert(s.len() > "-t"@.len());
            assert(s.len() > "--tokenizer"@.len());
            assert(s.len() > "-p"@.len());
            assert(s.len() > "--prompt"@.len());
            assert(s.len() > "-n"@.len());
            assert(s.len() > "--steps"@.len());
            assert(s[11] == '=' && "--temperature"@[11] != '=');
            assert(s.len() > "--topp"@.len());
            assert(s.len() > "--seed"@.len());
            assert(s[11] == '=' && "--group-size"@[11] != '=');
            assert(s.len() > "--convert"@.len());
            assert(s.len() > "--to"@.len());
            assert(s[2] == "--tokenizer="@[2]);
            assert(!begins_with(s, "--model="@)) by {
                if begins_with(s, "--model="@) {
                    assert(s.subrange(0, "--model="@.len() as int)[2] == s[2]);
                }
            }
        },
        Opt::Prompt => {
            assert(s.len() > "-h"@.len());
            assert(s.len() > "--help"@.len());
            assert(s.len() > "-q"@.len());
            assert(s[8] == '=' && "--quantize"@[8] != '=');
            assert(s.len() > "--scalar"@.len());
            assert(s[8] == '=' && "--dotprod"@[8] != '=');
            assert(s.len() > "-m"@.len());
            assert(s.len() > "--model"@.len());
            assert(s.len() > "-t"@.len());
            assert(s[8] == '=' && "--tokenizer"@[8] != '=');
            assert(s.len() > "-p"@.len());
            assert(s.len() > "--prompt"@.len());
            assert(s.len() > "-n"@.len());
            assert(s.len() > "--steps"@.len());
            assert(s[8] == '=' && "--temperature"@[8] != '=');
            assert(s.len() > "--topp"@.len());
            assert(s.len() > "--seed"@.len());
            assert(s[8] == '=' && "--group-size"@[8] != '=');
            assert(s[8] == '=' && "--convert"@[8] != '=');
            assert(s.len() > "--to"@.len());
            assert(s[2] == "--prompt="@[2]);
            assert(!begins_with(s, "--model="@)) by {
                if begins_with(s, "--model="@) {
                    assert(s.subrange(0, "--model="@.len() as int)[2] == s[2]);
                }
            }
            assert(s[2] == "--prompt="@[2]);
            assert(!begins_with(s, "--tokenizer="@)) by {
                if begins_with(s, "--tokenizer="@) {
                    assert(s.subrange(0, "--tokenizer="@.len() as int)[2] == s[2]);
                }
            }
        },
        Opt::Steps => {
            assert(s.len() > "-h"@.len());
            assert(s.len() > "--help"@.len());
            assert(s.len() > "-q"@.len());
            assert(s[7] == '=' && "--quantize"@[7] != '=');
            assert(s[7] == '=' && "--scalar"@[7] != '=');
            assert(s[7] == '=' && "--dotprod"@[7] != '=');
            assert(s.len() > "-m"@.len());
            assert(s.len() > "--model"@.len());
            assert(s.len() > "-t"@.len());
            assert(s[7] == '=' && "--tokenizer"@[7] != '=');
            assert(s.len() > "-p"@.len());
            assert(s[7] == '=' && "--prompt"@[7] != '=');
            assert(s.len() > "-n"@.len());
            assert(s.len() > "--steps"@.len());
            assert(s[7] == '=' && "--temperature"@[7] != '=');
            assert(s.len() > "--topp"@.len());
            assert(s.len() > "--seed"@.len());
            assert(s[7] == '=' && "--group-size"@[7] != '=');
            assert(s[7] == '=' && "--convert"@[7] != '=');
            assert(s.len() > "--to"@.len());
            assert(s[2] == "--steps="@[2]);
            assert(!begins_with(s, "--model="@)) by {
                if begins_with(s, "--model="@) {
                    assert(s.subrange(0, "--model="@.len() as int)[2] == s[2]);
                }
            }
            assert(s[2] == "--steps="@[2]);
            assert(!begins_with(s, "--tokenizer="@)) by {
                if begins_with(s, "--tokenizer="@) {
                    assert(s.subrange(0, "--tokenizer="@.len() as int)[2] == s[2]);
                }
            }
            assert(s[2] == "--steps="@[2]);
            assert(!begins_with(s, "--prompt="@)) by {
                if begins_with(s, "--prompt="@) {
                    assert(s.subrange(0, "--prompt="@.len() as int)[2] == s[2]);
                }
            }
        },
        Opt::Temperature => {
            assert(s.len() > "-h"@.len());
            assert(s.len() > "--help"@.len());
            assert(s.len() > "-q"@.len());
            assert(s.len() > "--quantize"@.len());
            assert(s.len() > "--scalar"@.len());
            assert(s.len() > "--dotprod"@.len());
            assert(s.len() > "-m"@.len());
            assert(s.len() > "--model"@.len());
            assert(s.len() > "-t"@.len());
            assert(s.len() > "--tokenizer"@.len());
            assert(s.len() > "-p"@.len());
            assert(s.len() > "--prompt"@.len());
            assert(s.len() > "-n"@.len());
            assert(s.len() > "--steps"@.len());
            assert(s.len() > "--temperature"@.len());
            assert(s.len() > "--topp"@.len());
            assert(s.len() > "--seed"@.len());
            assert(s.len() > "--group-size"@.len());
            assert(s.len() > "--convert"@.len());
            assert(s.len() > "--to"@.len());
            assert(s[2] == "--temperature="@[2]);
            assert(!begins_with(s, "--model="@)) by {
                if begins_with(s, "--model="@) {
                    assert(s.subrange(0, "--model="@.len() as int)[2] == s[2]);
                }
            }
            assert(s[3] == "--temperature="@[3]);
            assert(!begins_with(s, "--tokenizer="@)) by {
                if begins_with(s, "--tokenizer="@) {
                    assert(s.subrange(0, "--tokenizer="@.len() as int)[3] == s[3]);
                }
            }
            assert(s[2] == "--temperature="@[2]);
            assert(!begins_with(s, "--prompt="@)) by {
                if begins_with(s, "--prompt="@) {
                    assert(s.subrange(0, "--prompt="@.len() as int)[2] == s[2]);
                }
            }
            assert(s[2] == "--temperature="@[2]);
            assert(!begins_with(s, "--steps="@)) by {
                if begins_with(s, "--steps="@) {
                    assert(s.subrange(0, "--steps="@.len() as int)[2] == s[2]);
                }
            }
        },
        Opt::Topp => {
            assert(s.len() > "-h"@.len());
            assert(s.len() > "--help"@.len());
            assert(s.len() > "-q"@.len());
            assert(s[6] == '=' && "--quantize"@[6] != '=');
            assert(s[6] == '=' && "--scalar"@[6] != '=');
            assert(s[6] == '=' && "--dotprod"@[6] != '=');
            assert(s.len() > "-m"@.len());
            assert(s[6] == '=' && "--model"@[6] != '=');
            assert(s.len() > "-t"@.len());
            assert(s[6] == '=' && "--tokenizer"@[6] != '=');
            assert(s.len() > "-p"@.len());
            assert(s[6] == '=' && "--prompt"@[6] != '=');
            assert(s.len() > "-n"@.len());
            assert(s[6] == '=' && "--steps"@[6] != '=');
            assert(s[6] == '=' && "--temperature"@[6] != '=');
            assert(s.len() > "--topp"@.len());
            assert(s.len() > "--seed"@.len());
            assert(s[6] == '=' && "--group-size"@[6] != '=');
            assert(s[6] == '=' && "--convert"@[6] != '=');
            assert(s.len() > "--to"@.len());
            assert(s[2] == "--topp="@[2]);
            assert(!begins_with(s, "--model="@)) by {
                if begins_with(s, "--model="@) {
                    assert(s.subrange(0, "--model="@.len() as int)[2] == s[2]);
                }
            }
            assert(s[4] == "--topp="@[4]);
            assert(!begins_with(s, "--tokenizer="@)) by {
                if begins_with(s, "--tokenizer="@) {
                    assert(s.subrange(0, "--tokenizer="@.len() as int)[4] == s[4]);
                }
            }
            assert(s[2] == "--topp="@[2]);
            assert(!begins_with(s, "--prompt="@)) by {
                if begins_with(s, "--prompt="@) {
                    assert(s.subrange(0, "--prompt="@.len() as int)[2] == s[2]);
                }
            }
            assert(s[2] == "--topp="@[2]);
            assert(!begins_with(s, "--steps="@)) by {
                if begins_with(s, "--steps="@) {
                    assert(s.subrange(0, "--steps="@.len() as int)[2] == s[2]);
                }
            }
            assert(s[3] == "--topp="@[3]);
            assert(!begins_with(s, "--temperature="@)) by {
                if begins_with(s, "--temperature="@) {
                    assert(s.subrange(0, "--temperature="@.len() as int)[3] == s[3]);
                }
            }
        },
        Opt::Seed => {
            assert(s.len() > "-h"@.len());
            assert(s.len() > "--help"@.len());
            assert(s.len() > "-q"@.len());
            assert(s[6] == '=' && "--quantize"@[6] != '=');
            assert(s[6] == '=' && "--scalar"@[6] != '=');
            assert(s[6] == '=' && "--dotprod"@[6] != '=');
            assert(s.len() > "-m"@.len());
            assert(s[6] == '=' && "--model"@[6] != '=');
            assert(s.len() > "-t"@.len());
            assert(s[6] == '=' && "--tokenizer"@[6] != '=');
            assert(s.len() > "-p"@.len());
            assert(s[6] == '=' && "--prompt"@[6] != '=');
            assert(s.len() > "-n"@.len());
            assert(s[6] == '=' && "--steps"@[6] != '=');
            assert(s[6] == '=' && "--temperature"@[6] != '=');
            assert(s.len() > "--topp"@.len());
            assert(s.len() > "--seed"@.len());
            assert(s[6] == '=' && "--group-size"@[6] != '=');
            assert(s[6] == '=' && "--convert"@[6] != '=');
            assert(s.len() > "--to"@.len());
            assert(s[2] == "--seed="@[2]);
            assert(!begins_with(s, "--model="@)) by {
                if begins_with(s, "--model="@) {
                    assert(s.subrange(0, "--model="@.len() as int)[2] == s[2]);
                }
            }
            assert(s[2] == "--seed="@[2]);
            assert(!begins_with(s, "--tokenizer="@)) by {
                if begins_with(s, "--tokenizer="@) {
                    assert(s.subrange(0, "--tokenizer="@.len() as int)[2] == s[2]);
                }
            }
            assert(s[2] == "--seed="@[2]);
            assert(!begins_with(s, "--prompt="@)) by {
                if begins_with(s, "--prompt="@) {
                    assert(s.subrange(0, "--prompt="@.len() as int)[2] == s[2]);
                }
            }
            assert(s[3] == "--seed="@[3]);
            assert(!begins_with(s, "--steps="@)) by {
                if begins_with(s, "--steps="@) {
                    assert(s.subrange(0, "--steps="@.len() as int)[3] == s[3]);
                }
            }
            assert(s[2] == "--seed="@[2]);
            assert(!begins_with(s, "--temperature="@)) by {
                if begins_with(s, "--temperature="@) {
                    assert(s.subrange(0, "--temperature="@.len() as int)[2] == s[2]);
                }
            }
            assert(s[2] == "--seed="@[2]);
            assert(!begins_with(s, "--topp="@)) by {
                if begins_with(s, "--topp="@) {
                    assert(s.subrange(0, "--topp="@.len() as int)[2] == s[2]);
                }
            }
        },
        Opt::GroupSize => {
            assert(s.len() > "-h"@.len());
            assert(s.len() > "--help"@.len());
            assert(s.len() > "-q"@.len());
            assert(s.len() > "--quantize"@.len());
            assert(s.len() > "--scalar"@.len());
            assert(s.len() > "--dotprod"@.len());
            assert(s.len() > "-m"@.len());
            assert(s.len() > "--model"@.len());
            assert(s.len() > "-t"@.len());
            assert(s.len() > "--tokenizer"@.len());
            assert(s.len() > "-p"@.len());
            assert(s.len() > "--prompt"@.len());
            assert(s.len() > "-n"@.len());
            assert(s.len() > "--steps"@.len());
            assert(s[12] == '=' && "--temperature"@[12] != '=');
            assert(s.len() > "--topp"@.len());
            assert(s.len() > "--seed"@.len());
            assert(s.len() > "--group-size"@.len());
            assert(s.len() > "--convert"@.len());
            assert(s.len() > "--to"@.len());
            assert(s[2] == "--group-size="@[2]);
            assert(!begins_with(s, "--model="@)) by {
                if begins_with(s, "--model="@) {
                    assert(s.subrange(0, "--model="@.len() as int)[2] == s[2]);
                }
            }
            assert(s[2] == "--group-size="@[2]);
            assert(!begins_with(s, "--tokenizer="@)) by {
                if begins_with(s, "--tokenizer="@) {
                    assert(s.subrange(0, "--tokenizer="@.len() as int)[2] == s[2]);
                }
            }
            assert(s[2] == "--group-size="@[2]);
            assert(!begins_with(s, "--prompt="@)) by {
                if begins_with(s, "--prompt="@) {
                    assert(s.subrange(0, "--prompt="@.len() as int)[2] == s[2]);
                }
            }
            assert(s[2] == "--group-size="@[2]);
            assert(!begins_with(s, "--steps="@)) by {
                if begins_with(s, "--steps="@) {
                    assert(s.subrange(0, "--steps="@.len() as int)[2] == s[2]);
                }
            }
            assert(s[2] == "--group-size="@[2]);
            assert(!begins_with(s, "--temperature="@)) by {
                if begins_with(s, "--temperature="@) {
                    assert(s.subrange(0, "--temperature="@.len() as int)[2] == s[2]);
                }
            }
            assert(s[2] == "--group-size="@[2]);
            assert(!begins_with(s, "--topp="@)) by {
                if begins_with(s, "--topp="@) {
                    assert(s.subrange(0, "--topp="@.len() as int)[2] == s[2]);
                }
            }
            assert(s[2] == "--group-size="@[2]);
            assert(!begins_with(s, "--seed="@)) by {
                if begins_with(s, "--seed="@) {
                    assert(s.subrange(0, "--seed="@.len() as int)[2] == s[2]);
                }
            }
        },
        Opt::Convert => {
            assert(s.len() > "-h"@.len());
            assert(s.len() > "--help"@.len());
            assert(s.len() > "-q"@.len());
            assert(s[9] == '=' && "--quantize"@[9] != '=');
            assert(s.len() > "--scalar"@.len());
            assert(s.len() > "--dotprod"@.len());
            assert(s.len() > "-m"@.len());
            assert(s.len() > "--model"@.len());
            assert(s.len() > "-t"@.len());
            assert(s[9] == '=' && "--tokenizer"@[9] != '=');
            assert(s.len() > "-p"@.len());
            assert(s.len() > "--prompt"@.len());
            assert(s.len() > "-n"@.len());
            assert(s.len() > "--steps"@.len());
            assert(s[9] == '=' && "--temperature"@[9] != '=');
            assert(s.len() > "--topp"@.len());
            assert(s.len() > "--seed"@.len());
            assert(s[9] == '=' && "--group-size"@[9] != '=');
            assert(s.len() > "--convert"@.len());
            assert(s.len() > "--to"@.len());
            assert(s[2] == "--convert="@[2]);
            assert(!begins_with(s, "--model="@)) by {
                if begins_with(s, "--model="@) {
                    assert(s.subrange(0, "--model="@.len() as int)[2] == s[2]);
                }
            }
            assert(s[2] == "--convert="@[2]);
            assert(!begins_with(s, "--tokenizer="@)) by {
                if begins_with(s, "--tokenizer="@) {
                    assert(s.subrange(0, "--tokenizer="@.len() as int)[2] == s[2]);
                }
            }
            assert(s[2] == "--convert="@[2]);
            assert(!begins_with(s, "--prompt="@)) by {
                if begins_with(s, "--prompt="@) {
                    assert(s.subrange(0, "--prompt="@.len() as int)[2] == s[2]);
                }
            }
            assert(s[2] == "--convert="@[2]);
            assert(!begins_with(s, "--steps="@)) by {
                if begins_with(s, "--steps="@) {
                    assert(s.subrange(0, "--steps="@.len() as int)[2] == s[2]);
                }
            }
            assert(s[2] == "--convert="@[2]);
            assert(!begins_with(s, "--temperature="@)) by {
                if begins_with(s, "--temperature="@) {
                    assert(s.subrange(0, "--temperature="@.len() as int)[2] == s[2]);
                }
            }
            assert(s[2] == "--convert="@[2]);
            assert(!begins_with(s, "--topp="@)) by {
                if begins_with(s, "--topp="@) {
                    assert(s.subrange(0, "--topp="@.len() as int)[2] == s[2]);
                }
            }
            assert(s[2] == "--convert="@[2]);
            assert(!begins_with(s, "--seed="@)) by {
                if begins_with(s, "--seed="@) {
                    assert(s.subrange(0, "--seed="@.len() as int)[2] == s[2]);
                }
            }
            assert(s[2] == "--convert="@[2]);
            assert(!begins_with(s, "--group-size="@)) by {
                if begins_with(s, "--group-size="@) {
                    assert(s.subrange(0, "--group-size="@.len() as int)[2] == s[2]);
                }
            }
        },
        Opt::To => {
            assert(s.len() > "-h"@.len());
            assert(s[4] == '=' && "--help"@[4] != '=');
            assert(s.len() > "-q"@.len());
            assert(s[4] == '=' && "--quantize"@[4] != '=');
            assert(s[4] == '=' && "--scalar"@[4] != '=');
            assert(s[4] == '=' && "--dotprod"@[4] != '=');
            assert(s.len() > "-m"@.len());
            assert(s[4] == '=' && "--model"@[4] != '=');
            assert(s.len() > "-t"@.len());
            assert(s[4] == '=' && "--tokenizer"@[4] != '=');
            assert(s.len() > "-p"@.len());
            assert(s[4] == '=' && "--prompt"@[4] != '=');
            assert(s.len() > "-n"@.len());
            assert(s[4] == '=' && "--steps"@[4] != '=');
            assert(s[4] == '=' && "--temperature"@[4] != '=');
            assert(s[4] == '=' && "--topp"@[4] != '=');
            assert(s[4] == '=' && "--seed"@[4] != '=');
            assert(s[4] == '=' && "--group-size"@[4] != '=');
            assert(s[4] == '=' && "--convert"@[4] != '=');
            assert(s.len() > "--to"@.len());
            assert(s[2] == "--to="@[2]);
            assert(!begins_with(s, "--model="@)) by {
                if begins_with(s, "--model="@) {
                    assert(s.subrange(0, "--model="@.len() as int)[2] == s[2]);
                }
            }
            assert(s[4] == "--to="@[4]);
            assert(!begins_with(s, "--tokenizer="@)) by {
                if begins_with(s, "--tokenizer="@) {
                    assert(s.subrange(0, "--tokenizer="@.len() as int)[4] == s[4]);
                }
            }
            assert(s[2] == "--to="@[2]);
            assert(!begins_with(s, "--prompt="@)) by {
                if begins_with(s, "--prompt="@) {
                    assert(s.subrange(0, "--prompt="@.len() as int)[2] == s[2]);
                }
            }
            assert(s[2] == "--to="@[2]);
            assert(!begins_with(s, "--steps="@)) by {
                if begins_with(s, "--steps="@) {
                    assert(s.subrange(0, "--steps="@.len() as int)[2] == s[2]);
                }
            }
            assert(s[3] == "--to="@[3]);
            assert(!begins_with(s, "--temperature="@)) by {
                if begins_with(s, "--temperature="@) {
                    assert(s.subrange(0, "--temperature="@.len() as int)[3] == s[3]);
                }
            }
            assert(s[4] == "--to="@[4]);
            assert(!begins_with(s, "--topp="@)) by {
                if begins_with(s, "--topp="@) {
                    assert(s.subrange(0, "--topp="@.len() as int)[4] == s[4]);
                }
            }
            assert(s[2] == "--to="@[2]);
            assert(!begins_with(s, "--seed="@)) by {
                if begins_with(s, "--seed="@) {
                    assert(s.subrange(0, "--seed="@.len() as int)[2] == s[2]);
                }
            }
            assert(s[2] == "--to="@[2]);
            assert(!begins_with(s, "--group-size="@)) by {
                if begins_with(s, "--group-size="@) {
                    assert(s.subrange(0, "--group-size="@.len() as int)[2] == s[2]);
                }
            }
            assert(s[2] == "--to="@[2]);
            assert(!begins_with(s, "--convert="@)) by {
                if begins_with(s, "--convert="@) {
                    assert(s.subrange(0, "--convert="@.len() as int)[2] == s[2]);
                }
            }
        },
    }
}

/// A value may stand behind an equals sign as well as behind the name: `--name=value` sets what
/// `--name value` sets.
pub proof fn values_may_be_assigned(
    apart: Seq<Arg>,
    joined: Seq<Arg>,
    i: int,
    o: Opt,
    st: ParseView,
)
    requires
        0 <= i,
        i + 1 < apart.len(),
        i < joined.len(),
        apart[i].text@ == name_of(o),
        joined[i].text@ == name_of(o) + seq!['='] + apart[i + 1].text@,
        joined[i].value_number == apart[i + 1].number,
    ensures
        match argument_set(apart, i, st) {
            Ok((next, n)) => n == 2 && argument_set(joined, i, st) == Ok::<
                (ParseView, int),
                Seq<char>,
            >((next, 1)),
            Err(msg) => argument_set(joined, i, st) == Err::<(ParseView, int), Seq<char>>(msg),
        },
{
    names_differ();
    let v = apart[i + 1].text@;
    assignments_differ(o, v);
    let s = joined[i].text@;
    assert(named_option(name_of(o)) == Some(o));
    assert(named_option(s) is None);
    assert(argument_set(joined, i, st) == match option_set(
        st,
        o,
        name_of(o),
        v,
        joined[i].value_number,
    ) {
        Ok(next) => Ok::<(ParseView, int), Seq<char>>((next, 1)),
        Err(msg) => Err(msg),
    });
    assert(argument_set(apart, i, st) == match option_set(
        st,
        o,
        name_of(o),
        v,
        apart[i + 1].number,
    ) {
        Ok(next) => Ok::<(ParseView, int), Seq<char>>((next, 2)),
        Err(msg) => Err(msg),
    });
}

/// Arguments are read from left to right, so that of two settings the later one counts; without any,
/// greedy sampling in full precision, in groups of 32 where quantized, is meant.
pub proof fn later_arguments_count(args: Seq<Arg>, i: int, st: ParseView)
    requires
        0 <= i < args.len(),
    ensures
        match argument_set(args, i, st) {
            Ok((next, n)) => (n == 1 || n == 2) && arguments_set(args, i, st) == arguments_set(
                args,
                i + n,
                next,
            ),
            Err(msg) => arguments_set(args, i, st) == Err::<ParseView, Seq<char>>(msg),
        },
        parsed_args(Seq::empty()) == Ok::<ParseView, Seq<char>>(defaults()),
        defaults().temperature == 0,
        defaults().topp == 0,
        defaults().group_size == 32,
        !defaults().quantize && !defaults().scalar && !defaults().dotprod && !defaults().help,
        defaults().model is None && defaults().tokenizer is None && defaults().prompt is None,
        defaults().steps is None && defaults().seed is None && defaults().convert is None
            && defaults().to is None,
{
    assert(defaults().positionals =~= Seq::empty());
}

/// Which arguments go together: help goes with anything; otherwise there must be a model, a target
/// only with a conversion, and no prompt with a conversion.
pub proof fn arguments_that_go_together(args: Args)
    ensures
        startup_complaint(args) is None <==> args.help || args.model is Some && (args.to is Some
            ==> args.convert is Some) && !(args.convert is Some && args.prompt is Some),
{
}

} // verus!
