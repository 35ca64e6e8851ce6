//! Command-line argument parsing.

use vstd::prelude::*;

use crate::host::error::HostError;
#[allow(unused_imports)]
use crate::text::{begins_with, number_value};
use crate::text::{owned, parse_u64, parse_usize, str_eq, strip_prefix};

verus! {

/// Which format a conversion writes.
#[derive(Debug, Clone, Copy, PartialEq, Eq, Structural)]
pub enum Target {
    /// Version 1: fp32, norms first.
    V1,
    /// Version 2: group-wise int8.
    V2,
}

/// One command-line argument as it arrived, together with what it holds as a
/// single-precision number (its bit pattern), if it holds one.
#[derive(Debug, Clone)]
pub struct Arg {
    /// The argument.
    pub text: String,
    /// The whole argument as a number.
    pub number: Option<u32>,
    /// What follows the first `=` as a number.
    pub value_number: Option<u32>,
}

/// Parsed command-line arguments.
#[derive(Debug)]
pub struct Args {
    /// Checkpoint path.
    pub model: Option<String>,
    /// Tokenizer path.
    pub tokenizer: Option<String>,
    /// Prompt text.
    pub prompt: Option<String>,
    /// Most tokens to generate.
    pub steps: Option<usize>,
    /// Sampling temperature, as a bit pattern.
    pub temperature: u32,
    /// Nucleus threshold, as a bit pattern.
    pub topp: u32,
    /// Sampling seed.
    pub seed: Option<u64>,
    /// Whether to quantize the weights.
    pub quantize: bool,
    /// Quantization group size.
    pub group_size: usize,
    /// Whether to use the scalar kernels.
    pub scalar: bool,
    /// Whether to use the dot-product kernels.
    pub dotprod: bool,
    /// Where to write a converted checkpoint.
    pub convert: Option<String>,
    /// Conversion target.
    pub to: Option<Target>,
    /// Whether help was asked for.
    pub help: bool,
}

/// The options that take a value.
#[derive(Debug, Clone, Copy, PartialEq, Eq, Structural)]
pub enum Opt {
    /// `-m`, `--model`.
    Model,
    /// `-t`, `--tokenizer`.
    Tokenizer,
    /// `-p`, `--prompt`.
    Prompt,
    /// `-n`, `--steps`.
    Steps,
    /// `--temperature`.
    Temperature,
    /// `--topp`.
    Topp,
    /// `--seed`.
    Seed,
    /// `--group-size`.
    GroupSize,
    /// `--convert`.
    Convert,
    /// `--to`.
    To,
}

/// The state of the parser as values: the arguments so far, and the positional ones.
pub struct ParseView {
    /// Checkpoint path.
    pub model: Option<Seq<char>>,
    /// Tokenizer path.
    pub tokenizer: Option<Seq<char>>,
    /// Prompt text.
    pub prompt: Option<Seq<char>>,
    /// Most tokens to generate.
    pub steps: Option<usize>,
    /// Sampling temperature.
    pub temperature: u32,
    /// Nucleus threshold.
    pub topp: u32,
    /// Sampling seed.
    pub seed: Option<u64>,
    /// Whether to quantize.
    pub quantize: bool,
    /// Quantization group size.
    pub group_size: usize,
    /// Whether to use the scalar kernels.
    pub scalar: bool,
    /// Whether to use the dot-product kernels.
    pub dotprod: bool,
    /// Where to write a converted checkpoint.
    pub convert: Option<Seq<char>>,
    /// Conversion target.
    pub to: Option<Target>,
    /// Whether help was asked for.
    pub help: bool,
    /// Positional arguments, in order.
    pub positionals: Seq<Seq<char>>,
}

/// An optional string's characters.
pub open spec fn chars_in(s: Option<String>) -> Option<Seq<char>> {
    match s {
        Some(t) => Some(t@),
        None => None,
    }
}

/// The characters of each string.
pub open spec fn texts(v: Seq<String>) -> Seq<Seq<char>> {
    v.map_values(|s: String| s@)
}

impl Args {
    /// The arguments as values, together with positional ones.
    pub open spec fn with_positionals(self, positionals: Seq<Seq<char>>) -> ParseView {
        ParseView {
            model: chars_in(self.model),
            tokenizer: chars_in(self.tokenizer),
            prompt: chars_in(self.prompt),
            steps: self.steps,
            temperature: self.temperature,
            topp: self.topp,
            seed: self.seed,
            quantize: self.quantize,
            group_size: self.group_size,
            scalar: self.scalar,
            dotprod: self.dotprod,
            convert: chars_in(self.convert),
            to: self.to,
            help: self.help,
            positionals,
        }
    }
}

/// What holds before any argument: everything off, and groups of 32.
pub open spec fn defaults() -> ParseView {
    ParseView {
        model: None,
        tokenizer: None,
        prompt: None,
        steps: None,
        temperature: 0,
        topp: 0,
        seed: None,
        quantize: false,
        group_size: 32,
        scalar: false,
        dotprod: false,
        convert: None,
        to: None,
        help: false,
        positionals: Seq::empty(),
    }
}

/// The option that an argument names, its value to follow.
pub open spec fn named_option(s: Seq<char>) -> Option<Opt> {
    if s == "-m"@ || s == "--model"@ {
        Some(Opt::Model)
    } else if s == "-t"@ || s == "--tokenizer"@ {
        Some(Opt::Tokenizer)
    } else if s == "-p"@ || s == "--prompt"@ {
        Some(Opt::Prompt)
    } else if s == "-n"@ || s == "--steps"@ {
        Some(Opt::Steps)
    } else if s == "--temperature"@ {
        Some(Opt::Temperature)
    } else if s == "--topp"@ {
        Some(Opt::Topp)
    } else if s == "--seed"@ {
        Some(Opt::Seed)
    } else if s == "--group-size"@ {
        Some(Opt::GroupSize)
    } else if s == "--convert"@ {
        Some(Opt::Convert)
    } else if s == "--to"@ {
        Some(Opt::To)
    } else {
        None
    }
}

/// How an option is written with its value behind an equals sign.
pub open spec fn assigned_prefix(o: Opt) -> Seq<char> {
    match o {
        Opt::Model => "--model="@,
        Opt::Tokenizer => "--tokenizer="@,
        Opt::Prompt => "--prompt="@,
        Opt::Steps => "--steps="@,
        Opt::Temperature => "--temperature="@,
        Opt::Topp => "--topp="@,
        Opt::Seed => "--seed="@,
        Opt::GroupSize => "--group-size="@,
        Opt::Convert => "--convert="@,
        Opt::To => "--to="@,
    }
}

/// The long name of an option, for diagnostics.
pub open spec fn long_name(o: Opt) -> Seq<char> {
    match o {
        Opt::Model => "--model"@,
        Opt::Tokenizer => "--tokenizer"@,
        Opt::Prompt => "--prompt"@,
        Opt::Steps => "--steps"@,
        Opt::Temperature => "--temperature"@,
        Opt::Topp => "--topp"@,
        Opt::Seed => "--seed"@,
        Opt::GroupSize => "--group-size"@,
        Opt::Convert => "--convert"@,
        Opt::To => "--to"@,
    }
}

/// The option that an argument assigns with an equals sign: the first that fits.
pub open spec fn assigned_option(s: Seq<char>) -> Option<Opt> {
    if begins_with(s, "--model="@) {
        Some(Opt::Model)
    } else if begins_with(s, "--tokenizer="@) {
        Some(Opt::Tokenizer)
    } else if begins_with(s, "--prompt="@) {
        Some(Opt::Prompt)
    } else if begins_with(s, "--steps="@) {
        Some(Opt::Steps)
    } else if begins_with(s, "--temperature="@) {
        Some(Opt::Temperature)
    } else if begins_with(s, "--topp="@) {
        Some(Opt::Topp)
    } else if begins_with(s, "--seed="@) {
        Some(Opt::Seed)
    } else if begins_with(s, "--group-size="@) {
        Some(Opt::GroupSize)
    } else if begins_with(s, "--convert="@) {
        Some(Opt::Convert)
    } else if begins_with(s, "--to="@) {
        Some(Opt::To)
    } else {
        None
    }
}

/// The diagnostic for a value that is no unsigned integer in range.
pub open spec fn bad_integer(flag: Seq<char>, value: Seq<char>) -> Seq<char> {
    "`"@ + flag + "` expects a non-negative integer, got `"@ + value + "`"@
}

/// What an option does with its value; `number` is the value as a single-precision
/// number. An unusable value is a usage error.
pub open spec fn option_set(
    st: ParseView,
    o: Opt,
    flag: Seq<char>,
    value: Seq<char>,
    number: Option<u32>,
) -> Result<ParseView, Seq<char>> {
    match o {
        Opt::Model => Ok(ParseView { model: Some(value), ..st }),
        Opt::Tokenizer => Ok(ParseView { tokenizer: Some(value), ..st }),
        Opt::Prompt => Ok(ParseView { prompt: Some(value), ..st }),
        Opt::Convert => Ok(ParseView { convert: Some(value), ..st }),
        Opt::Steps => match number_value(value) {
            Some(v) => if v <= usize::MAX {
                Ok(ParseView { steps: Some(v as usize), ..st })
            } else {
                Err(bad_integer(flag, value))
            },
            None => Err(bad_integer(flag, value)),
        },
        Opt::GroupSize => match number_value(value) {
            Some(v) => if v <= usize::MAX {
                Ok(ParseView { group_size: v as usize, ..st })
            } else {
                Err(bad_integer(flag, value))
            },
            None => Err(bad_integer(flag, value)),
        },
        Opt::Seed => match number_value(value) {
            Some(v) => if v <= u64::MAX {
                Ok(ParseView { seed: Some(v as u64), ..st })
            } else {
                Err(bad_integer(flag, value))
            },
            None => Err(bad_integer(flag, value)),
        },
        Opt::Temperature => match number {
            Some(v) => Ok(ParseView { temperature: v, ..st }),
            None => Err("`"@ + flag + "` expects a number, got `"@ + value + "`"@),
        },
        Opt::Topp => match number {
            Some(v) => Ok(ParseView { topp: v, ..st }),
            None => Err("`"@ + flag + "` expects a number, got `"@ + value + "`"@),
        },
        Opt::To => if value == "v1"@ {
            Ok(ParseView { to: Some(Target::V1), ..st })
        } else if value == "v2"@ {
            Ok(ParseView { to: Some(Target::V2), ..st })
        } else {
            Err("`--to` expects `v1` or `v2`, got `"@ + value + "`"@)
        },
    }
}

/// What the argument at `i` does, and how many arguments it takes up.
pub open spec fn argument_set(args: Seq<Arg>, i: int, st: ParseView) -> Result<
    (ParseView, int),
    Seq<char>,
> {
    let s = args[i].text@;
    if s == "-h"@ || s == "--help"@ {
        Ok((ParseView { help: true, ..st }, 1))
    } else if s == "-q"@ || s == "--quantize"@ {
        Ok((ParseView { quantize: true, ..st }, 1))
    } else if s == "--scalar"@ {
        Ok((ParseView { scalar: true, ..st }, 1))
    } else if s == "--dotprod"@ {
        Ok((ParseView { dotprod: true, ..st }, 1))
    } else if let Some(o) = named_option(s) {
        if i + 1 < args.len() {
            match option_set(st, o, s, args[i + 1].text@, args[i + 1].number) {
                Ok(next) => Ok((next, 2)),
                Err(msg) => Err(msg),
            }
        } else {
            Err("`"@ + s + "` expects a value"@)
        }
    } else if let Some(o) = assigned_option(s) {
        match option_set(
            st,
            o,
            long_name(o),
            s.skip(assigned_prefix(o).len() as int),
            args[i].value_number,
        ) {
            Ok(next) => Ok((next, 1)),
            Err(msg) => Err(msg),
        }
    } else if s.len() > 0 && s[0] == '-' && s != "-"@ {
        Err("unknown option `"@ + s + "`"@)
    } else {
        Ok((ParseView { positionals: st.positionals.push(s), ..st }, 1))
    }
}

/// The state after all arguments from `i` on, or the first error.
pub open spec fn arguments_set(args: Seq<Arg>, i: int, st: ParseView) -> Result<
    ParseView,
    Seq<char>,
>
    decreases args.len() - i,
{
    if i >= args.len() {
        Ok(st)
    } else {
        match argument_set(args, i, st) {
            Err(msg) => Err(msg),
            Ok((next, n)) => if n == 2 {
                arguments_set(args, i + 2, next)
            } else {
                arguments_set(args, i + 1, next)
            },
        }
    }
}

/// Positional arguments fill in the model, then the tokenizer, where no option gave them;
/// any further one is an error.
pub open spec fn positionals_placed(st: ParseView) -> Result<ParseView, Seq<char>> {
    let p = st.positionals;
    let m = if st.model is None && p.len() > 0 {
        1int
    } else {
        0int
    };
    let t = if st.tokenizer is None && p.len() > m {
        1int
    } else {
        0int
    };
    if p.len() > m + t {
        Err("unexpected argument `"@ + p[m + t] + "`"@)
    } else {
        Ok(
            ParseView {
                model: if m == 1 {
                    Some(p[0])
                } else {
                    st.model
                },
                tokenizer: if t == 1 {
                    Some(p[m])
                } else {
                    st.tokenizer
                },
                ..st
            },
        )
    }
}

/// What a whole command line means.
pub open spec fn parsed_args(args: Seq<Arg>) -> Result<ParseView, Seq<char>> {
    match arguments_set(args, 0, defaults()) {
        Ok(st) => positionals_placed(st),
        Err(msg) => Err(msg),
    }
}

/// The option that an argument names, its value to follow.
fn option_named(s: &str) -> (r: Option<Opt>)
    ensures
        r == named_option(s@),
{
    if str_eq(s, "-m") || str_eq(s, "--model") {
        Some(Opt::Model)
    } else if str_eq(s, "-t") || str_eq(s, "--tokenizer") {
        Some(Opt::Tokenizer)
    } else if str_eq(s, "-p") || str_eq(s, "--prompt") {
        Some(Opt::Prompt)
    } else if str_eq(s, "-n") || str_eq(s, "--steps") {
        Some(Opt::Steps)
    } else if str_eq(s, "--temperature") {
        Some(Opt::Temperature)
    } else if str_eq(s, "--topp") {
        Some(Opt::Topp)
    } else if str_eq(s, "--seed") {
        Some(Opt::Seed)
    } else if str_eq(s, "--group-size") {
        Some(Opt::GroupSize)
    } else if str_eq(s, "--convert") {
        Some(Opt::Convert)
    } else if str_eq(s, "--to") {
        Some(Opt::To)
    } else {
        None
    }
}

/// The option that an argument assigns with an equals sign, and the value.
fn option_assigned(s: &str) -> (r: Option<(Opt, String)>)
    ensures
        match r {
            Some((o, value)) => {
                &&& assigned_option(s@) == Some(o)
                &&& value@ == s@.skip(assigned_prefix(o).len() as int)
            },
            None => assigned_option(s@) is None,
        },
{
    if let Some(v) = strip_prefix(s, "--model=") {
        Some((Opt::Model, v))
    } else if let Some(v) = strip_prefix(s, "--tokenizer=") {
        Some((Opt::Tokenizer, v))
    } else if let Some(v) = strip_prefix(s, "--prompt=") {
        Some((Opt::Prompt, v))
    } else if let Some(v) = strip_prefix(s, "--steps=") {
        Some((Opt::Steps, v))
    } else if let Some(v) = strip_prefix(s, "--temperature=") {
        Some((Opt::Temperature, v))
    } else if let Some(v) = strip_prefix(s, "--topp=") {
        Some((Opt::Topp, v))
    } else if let Some(v) = strip_prefix(s, "--seed=") {
        Some((Opt::Seed, v))
    } else if let Some(v) = strip_prefix(s, "--group-size=") {
        Some((Opt::GroupSize, v))
    } else if let Some(v) = strip_prefix(s, "--convert=") {
        Some((Opt::Convert, v))
    } else if let Some(v) = strip_prefix(s, "--to=") {
        Some((Opt::To, v))
    } else {
        None
    }
}

/// The long name of an option, for diagnostics.
fn name_of(o: Opt) -> (r: &'static str)
    ensures
        r@ == long_name(o),
{
    match o {
        Opt::Model => "--model",
        Opt::Tokenizer => "--tokenizer",
        Opt::Prompt => "--prompt",
        Opt::Steps => "--steps",
        Opt::Temperature => "--temperature",
        Opt::Topp => "--topp",
        Opt::Seed => "--seed",
        Opt::GroupSize => "--group-size",
        Opt::Convert => "--convert",
        Opt::To => "--to",
    }
}

/// A usage error made of text around two values.
fn usage_about(a: &str, flag: &str, b: &str, value: &str, c: &str) -> (r: HostError)
    ensures
        r matches HostError::Usage(msg) && msg@ == a@ + flag@ + b@ + value@ + c@,
{
    let mut msg = String::new();
    msg.append(a);
    msg.append(flag);
    msg.append(b);
    msg.append(value);
    msg.append(c);
    proof {
        assert(msg@ =~= a@ + flag@ + b@ + value@ + c@);
    }
    HostError::Usage(msg)
}

/// A usage error made of text around one value.
fn usage_with(a: &str, value: &str, b: &str) -> (r: HostError)
    ensures
        r matches HostError::Usage(msg) && msg@ == a@ + value@ + b@,
{
    let mut msg = String::new();
    msg.append(a);
    msg.append(value);
    msg.append(b);
    proof {
        assert(msg@ =~= a@ + value@ + b@);
    }
    HostError::Usage(msg)
}

/// Parse a conversion target.
fn parse_target(s: &str) -> (r: Result<Target, HostError>)
    ensures
        match r {
            Ok(t) => (t == Target::V1 && s@ == "v1"@) || (t == Target::V2 && s@ == "v2"@ && s@
                != "v1"@),
            Err(e) => {
                &&& s@ != "v1"@ && s@ != "v2"@
                &&& e matches HostError::Usage(msg) && msg@
                    == "`--to` expects `v1` or `v2`, got `"@ + s@ + "`"@
            },
        },
{
    if str_eq(s, "v1") {
        Ok(Target::V1)
    } else if str_eq(s, "v2") {
        Ok(Target::V2)
    } else {
        Err(usage_with("`--to` expects `v1` or `v2`, got `", s, "`"))
    }
}

/// Apply an option's value.
fn set_option(
    st: &mut Args,
    o: Opt,
    flag: &str,
    value: &str,
    number: Option<u32>,
    Ghost(positionals): Ghost<Seq<Seq<char>>>,
) -> (r: Result<(), HostError>)
    ensures
        match r {
            Ok(_) => option_set(old(st).with_positionals(positionals), o, flag@, value@, number)
                == Ok::<ParseView, Seq<char>>(final(st).with_positionals(positionals)),
            Err(e) => e matches HostError::Usage(msg) && option_set(
                old(st).with_positionals(positionals),
                o,
                flag@,
                value@,
                number,
            ) == Err::<ParseView, Seq<char>>(msg@),
        },
{
    match o {
        Opt::Model => {
            st.model = Some(owned(value));
        },
        Opt::Tokenizer => {
            st.tokenizer = Some(owned(value));
        },
        Opt::Prompt => {
            st.prompt = Some(owned(value));
        },
        Opt::Convert => {
            st.convert = Some(owned(value));
        },
        Opt::Steps => match parse_usize(value) {
            Some(v) => {
                st.steps = Some(v);
            },
            None => {
                return Err(
                    usage_about("`", flag, "` expects a non-negative integer, got `", value, "`"),
                );
            },
        },
        Opt::GroupSize => match parse_usize(value) {
            Some(v) => {
                st.group_size = v;
            },
            None => {
                return Err(
                    usage_about("`", flag, "` expects a non-negative integer, got `", value, "`"),
                );
            },
        },
        Opt::Seed => match parse_u64(value) {
            Some(v) => {
                st.seed = Some(v);
            },
            None => {
                return Err(
                    usage_about("`", flag, "` expects a non-negative integer, got `", value, "`"),
                );
            },
        },
        Opt::Temperature => match number {
            Some(v) => {
                st.temperature = v;
            },
            None => {
                return Err(usage_about("`", flag, "` expects a number, got `", value, "`"));
            },
        },
        Opt::Topp => match number {
            Some(v) => {
                st.topp = v;
            },
            None => {
                return Err(usage_about("`", flag, "` expects a number, got `", value, "`"));
            },
        },
        Opt::To => match parse_target(value) {
            Ok(t) => {
                st.to = Some(t);
            },
            Err(e) => {
                return Err(e);
            },
        },
    }
    Ok(())
}

impl Args {
    /// Parse a command line (without the program's name).
    ///
    /// Options may stand anywhere; the last of a kind wins. What is left fills in the
    /// model and then the tokenizer, and never overrides an option.
    pub fn parse(args: &Vec<Arg>) -> (r: Result<Args, HostError>)
        ensures
            match r {
                Ok(a) => parsed_args(args@) matches Ok(st) && a.with_positionals(st.positionals)
                    == st,
                Err(e) => e matches HostError::Usage(msg) && parsed_args(args@) == Err::<
                    ParseView,
                    Seq<char>,
                >(msg@),
            },
    {
        let mut st = Args {
            model: None,
            tokenizer: None,
            prompt: None,
            steps: None,
            temperature: 0,
            topp: 0,
            seed: None,
            quantize: false,
            group_size: 32,
            scalar: false,
            dotprod: false,
            convert: None,
            to: None,
            help: false,
        };
        let mut positionals: Vec<String> = Vec::new();
        proof {
            assert(texts(positionals@) =~= Seq::<Seq<char>>::empty());
        }
        let mut i: usize = 0;
        while i < args.len()
            invariant
                i <= args@.len(),
                arguments_set(args@, 0, defaults()) == arguments_set(
                    args@,
                    i as int,
                    st.with_positionals(texts(positionals@)),
                ),
            decreases args@.len() - i,
        {
            let s = args[i].text.as_str();
            let ghost before = st.with_positionals(texts(positionals@));
            if str_eq(s, "-h") || str_eq(s, "--help") {
                st.help = true;
                i = i + 1;
            } else if str_eq(s, "-q") || str_eq(s, "--quantize") {
                st.quantize = true;
                i = i + 1;
            } else if str_eq(s, "--scalar") {
                st.scalar = true;
                i = i + 1;
            } else if str_eq(s, "--dotprod") {
                st.dotprod = true;
                i = i + 1;
            } else if let Some(o) = option_named(s) {
                if i + 1 < args.len() {
                    let value = args[i + 1].text.as_str();
                    match set_option(
                        &mut st,
                        o,
                        s,
                        value,
                        args[i + 1].number,
                        Ghost(texts(positionals@)),
                    ) {
                        Ok(_) => {},
                        Err(e) => {
                            return Err(e);
                        },
                    }
                    i = i + 2;
                } else {
                    return Err(usage_with("`", s, "` expects a value"));
                }
            } else if let Some((o, value)) = option_assigned(s) {
                match set_option(
                    &mut st,
                    o,
                    name_of(o),
                    value.as_str(),
                    args[i].value_number,
                    Ghost(texts(positionals@)),
                ) {
                    Ok(_) => {},
                    Err(e) => {
                        return Err(e);
                    },
                }
                i = i + 1;
            } else if s.unicode_len() > 0 && s.get_char(0) == '-' && !str_eq(s, "-") {
                return Err(usage_with("unknown option `", s, "`"));
            } else {
                let ghost old_texts = texts(positionals@);
                positionals.push(owned(s));
                proof {
                    assert(texts(positionals@) =~= old_texts.push(s@));
                }
                i = i + 1;
            }
        }
        let ghost state = st.with_positionals(texts(positionals@));
        let mut taken: usize = 0;
        if st.model.is_none() && positionals.len() > 0 {
            st.model = Some(owned(positionals[0].as_str()));
            taken = 1;
        }
        if st.tokenizer.is_none() && positionals.len() > taken {
            st.tokenizer = Some(owned(positionals[taken].as_str()));
            taken = taken + 1;
        }
        if positionals.len() > taken {
            let extra = positionals[taken].as_str();
            proof {
                assert(texts(positionals@)[taken as int] == extra@);
            }
            return Err(usage_with("unexpected argument `", extra, "`"));
        }
        proof {
            if texts(positionals@).len() > 0 {
                assert(texts(positionals@)[0] == positionals@[0]@);
            }
            if texts(positionals@).len() > 1 {
                assert(texts(positionals@)[1] == positionals@[1]@);
            }
        }
        Ok(st)
    }
}

/// Positional arguments never override options.
pub proof fn options_win_over_positionals(st: ParseView)
    ensures
        positionals_placed(st) matches Ok(r) ==> {
            &&& st.model is Some ==> r.model == st.model
            &&& st.tokenizer is Some ==> r.tokenizer == st.tokenizer
        },
{
}

/// Two bare arguments are the model and the tokenizer.
pub proof fn bare_arguments_are_model_and_tokenizer(model: Seq<char>, tokenizer: Seq<char>)
    ensures
        ({
            let st = ParseView { positionals: seq![model, tokenizer], ..defaults() };
            positionals_placed(st) matches Ok(r) && r.model == Some(model) && r.tokenizer == Some(
                tokenizer,
            )
        }),
{
}

} // verus!
