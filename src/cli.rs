//! The run's configuration and its parsing from an argument list.
use crate::fasta::line_views;
use vstd::prelude::*;

verus! {

/// Configuration of a run.
#[derive(Debug, Clone)]
pub struct Args {
    /// Path to the input FASTA file.
    pub sequences: String,
    /// Path to the output GFA file.
    pub output: String,
    /// Number of worker threads; reserved, not consulted by the encoder.
    pub threads: usize,
    /// Minimum match length; reserved, not consulted by the encoder.
    pub min_match_length: usize,
}

/// Why an argument list gives no configuration.
#[derive(Debug, Clone, Copy, PartialEq, Eq)]
pub enum ArgsError {
    /// No input path was given.
    MissingSequences,
    /// No output path was given.
    MissingOutput,
}

impl ArgsError {
    /// The message shown for the error.
    pub fn message(&self) -> (r: String)
        ensures
            r@ == error_message(*self),
    {
        match self {
            ArgsError::MissingSequences => String::from_str("input FASTA required"),
            ArgsError::MissingOutput => String::from_str("output file required"),
        }
    }
}

/// The message of each error.
pub open spec fn error_message(e: ArgsError) -> Seq<char> {
    match e {
        ArgsError::MissingSequences => "input FASTA required"@,
        ArgsError::MissingOutput => "output file required"@,
    }
}

/// Whether `c` is an ASCII decimal digit.
pub open spec fn is_digit(c: char) -> bool {
    '0' <= c <= '9'
}

/// The value of a string of decimal digits.
pub open spec fn digits_value(s: Seq<char>) -> nat
    decreases s.len(),
{
    if s.len() == 0 {
        0
    } else {
        digits_value(s.drop_last()) * 10 + (s.last() as int - '0' as int) as nat
    }
}

/// The number that `s` writes in decimal, with an optional leading `+`, where
/// it fits in a `usize`.
pub open spec fn decimal_usize(s: Seq<char>) -> Option<usize> {
    let d = if s.len() > 0 && s[0] == '+' {
        s.drop_first()
    } else {
        s
    };
    if d.len() > 0 && (forall|k: int| 0 <= k < d.len() ==> is_digit(#[trigger] d[k]))
        && digits_value(d) <= usize::MAX {
        Some(digits_value(d) as usize)
    } else {
        None
    }
}

/// Relies on `usize`'s `FromStr`: decimal digits with an optional leading
/// `+`, refused when empty, holding another character, or out of range.
#[verifier::external_body]
fn parse_usize(s: &str) -> (r: Option<usize>)
    ensures
        r == decimal_usize(s@),
{
    s.parse::<usize>().ok()
}

/// The configuration gathered so far while scanning arguments.
pub struct ArgScan {
    pub sequences: Option<Seq<char>>,
    pub output: Option<Seq<char>>,
    pub threads: usize,
    pub min_match_length: usize,
}

/// Whether `a` is one of the two spellings of a flag.
pub open spec fn is_flag(a: Seq<char>, short: Seq<char>, long: Seq<char>) -> bool {
    a == short || a == long
}

/// The value that follows a flag at the head of `args`, if any.
pub open spec fn flag_value(args: Seq<Seq<char>>) -> Option<Seq<char>> {
    if args.len() > 1 {
        Some(args[1])
    } else {
        None
    }
}

/// A numeric setting after a flag at the head of `args`: the value that
/// follows, where it parses, else the setting as it was.
pub open spec fn numeric_value(args: Seq<Seq<char>>, current: usize) -> usize {
    match flag_value(args) {
        Some(v) => match decimal_usize(v) {
            Some(n) => n,
            None => current,
        },
        None => current,
    }
}

/// Scans `args` from `st`: a flag takes the argument after it as its value
/// (a path flag with none left is unset again, a number that does not parse
/// leaves the setting unchanged); any other argument is passed over.
pub open spec fn scan_args(args: Seq<Seq<char>>, st: ArgScan) -> ArgScan
    decreases args.len(),
{
    if args.len() == 0 {
        st
    } else {
        let a = args[0];
        let takes_value = is_flag(a, "-s"@, "--sequences"@) || is_flag(a, "-o"@, "--output"@)
            || is_flag(a, "-t"@, "--threads"@) || is_flag(a, "-k"@, "--min-match-length"@);
        let next = if is_flag(a, "-s"@, "--sequences"@) {
            ArgScan { sequences: flag_value(args), ..st }
        } else if is_flag(a, "-o"@, "--output"@) {
            ArgScan { output: flag_value(args), ..st }
        } else if is_flag(a, "-t"@, "--threads"@) {
            ArgScan { threads: numeric_value(args, st.threads), ..st }
        } else if is_flag(a, "-k"@, "--min-match-length"@) {
            ArgScan { min_match_length: numeric_value(args, st.min_match_length), ..st }
        } else {
            st
        };
        if !takes_value {
            scan_args(args.drop_first(), next)
        } else if args.len() > 1 {
            scan_args(args.subrange(2, args.len() as int), next)
        } else {
            next
        }
    }
}

/// The defaults: no paths, one thread, a minimum match length of 15.
pub open spec fn default_scan() -> ArgScan {
    ArgScan { sequences: None, output: None, threads: 1, min_match_length: 15 }
}

/// The arguments after the program name.
pub open spec fn after_program(args: Seq<Seq<char>>) -> Seq<Seq<char>> {
    if args.len() > 0 {
        args.drop_first()
    } else {
        seq![]
    }
}

/// What an argument list, program name first, configures.
pub open spec fn parse_spec(args: Seq<Seq<char>>) -> Result<
    (Seq<char>, Seq<char>, usize, usize),
    ArgsError,
> {
    let st = scan_args(after_program(args), default_scan());
    match (st.sequences, st.output) {
        (None, _) => Err(ArgsError::MissingSequences),
        (Some(_), None) => Err(ArgsError::MissingOutput),
        (Some(s), Some(o)) => Ok((s, o, st.threads, st.min_match_length)),
    }
}

/// The model of a configuration.
pub open spec fn args_view(a: Args) -> (Seq<char>, Seq<char>, usize, usize) {
    (a.sequences@, a.output@, a.threads, a.min_match_length)
}

fn same_text(a: &String, lit: &str) -> (r: bool)
    ensures
        r == (a@ == lit@),
{
    let b = String::from_str(lit);
    *a == b
}

/// Parses an argument list, program name first, into a configuration.
pub fn parse(args: &Vec<String>) -> (r: Result<Args, ArgsError>)
    ensures
        match (r, parse_spec(line_views(args@))) {
            (Ok(a), Ok(m)) => args_view(a) == m,
            (Err(e), Err(f)) => e == f,
            _ => false,
        },
{
    let ghost all = line_views(args@);
    let ghost rest = after_program(all);
    let mut sequences: Option<String> = None;
    let mut output: Option<String> = None;
    let mut threads: usize = 1;
    let mut min_match_length: usize = 15;
    let mut i: usize = 1;
    proof {
        if all.len() > 0 {
            assert(all.subrange(1, all.len() as int) =~= rest);
        } else {
            assert(all.subrange(0, 0) =~= rest);
        }
    }
    if args.len() == 0 {
        i = 0;
    }
    while i < args.len()
        invariant
            all == line_views(args@),
            rest == after_program(all),
            i <= args.len(),
            scan_args(all.subrange(i as int, all.len() as int), ArgScan {
                sequences: match sequences { Some(s) => Some(s@), None => None },
                output: match output { Some(s) => Some(s@), None => None },
                threads,
                min_match_length,
            }) == scan_args(rest, default_scan()),
        decreases args.len() - i,
    {
        let ghost tail = all.subrange(i as int, all.len() as int);
        assert(tail[0] == args@[i as int]@);
        assert(tail.drop_first() =~= all.subrange(i + 1, all.len() as int));
        let arg = &args[i];
        let has_next = i + 1 < args.len();
        proof {
            if has_next {
                assert(tail[1] == args@[i + 1]@);
                assert(tail.subrange(2, tail.len() as int) =~= all.subrange(i + 2, all.len() as int));
            }
        }
        if same_text(arg, "-s") || same_text(arg, "--sequences") {
            sequences = if has_next { Some(args[i + 1].clone()) } else { None };
            i = if has_next { i + 2 } else { args.len() };
        } else if same_text(arg, "-o") || same_text(arg, "--output") {
            output = if has_next { Some(args[i + 1].clone()) } else { None };
            i = if has_next { i + 2 } else { args.len() };
        } else if same_text(arg, "-t") || same_text(arg, "--threads") {
            if has_next {
                match parse_usize(args[i + 1].as_str()) {
                    Some(v) => { threads = v; },
                    None => {},
                }
            }
            i = if has_next { i + 2 } else { args.len() };
        } else if same_text(arg, "-k") || same_text(arg, "--min-match-length") {
            if has_next {
                match parse_usize(args[i + 1].as_str()) {
                    Some(v) => { min_match_length = v; },
                    None => {},
                }
            }
            i = if has_next { i + 2 } else { args.len() };
        } else {
            i = i + 1;
        }
        proof {
            if i == args.len() {
                assert(all.subrange(i as int, all.len() as int) =~= Seq::<Seq<char>>::empty());
            }
        }
    }
    match sequences {
        None => Err(ArgsError::MissingSequences),
        Some(sequences) => match output {
            None => Err(ArgsError::MissingOutput),
            Some(output) => Ok(Args { sequences, output, threads, min_match_length }),
        },
    }
}

} // verus!
