//! The command line: which command the arguments ask for, the help text, the
//! number-base commands and the reading of the interactive prompts.
use vstd::prelude::*;
use crate::radix::{binary_to_decimal, decimal_to_binary, spec_binary_to_decimal, spec_decimal_to_binary};
use crate::text::{append_str, trim, trimmed_chars};

verus! {

/// What the command line asks for.
#[derive(Clone, Copy, Debug, PartialEq, Eq, Structural)]
pub enum CliCommand {
    /// No arguments: the interactive screen.
    Tui,
    /// Only flags: an error.
    Missing,
    Help,
    /// The interactive addition prompt.
    Add,
    /// The interactive subtraction prompt.
    Sub,
    /// The interactive power prompt.
    Pow,
    /// Decimal to binary.
    Binary,
    /// Binary to decimal.
    FromBinary,
    /// Evaluate the arguments, joined, as an expression.
    Expression,
}

/// The command line taken apart: the command, whether the result is to be
/// copied to the clipboard, and the arguments that are not the copy flag.
pub struct CliRequest {
    pub command: CliCommand,
    pub copy: bool,
    pub positional: Vec<String>,
}

pub open spec fn strings_view(v: Seq<String>) -> Seq<Seq<char>> {
    v.map_values(|s: String| s@)
}

pub open spec fn is_copy_flag(a: Seq<char>) -> bool {
    a == "-c"@ || a == "--copy"@
}

/// The arguments other than the copy flag, in order.
pub open spec fn without_copy_flags(args: Seq<Seq<char>>) -> Seq<Seq<char>>
    decreases args.len(),
{
    if args.len() == 0 {
        args
    } else if is_copy_flag(args.last()) {
        without_copy_flags(args.drop_last())
    } else {
        without_copy_flags(args.drop_last()).push(args.last())
    }
}

/// The command that the first argument after the flags names.
pub open spec fn command_of(first: Seq<char>) -> CliCommand {
    if first == "-h"@ || first == "--help"@ {
        CliCommand::Help
    } else if first == "--add"@ || first == "-a"@ {
        CliCommand::Add
    } else if first == "--sub"@ || first == "-s"@ {
        CliCommand::Sub
    } else if first == "--pow"@ || first == "-p"@ {
        CliCommand::Pow
    } else if first == "--binary"@ || first == "-b"@ {
        CliCommand::Binary
    } else if first == "--from-binary"@ || first == "-fb"@ {
        CliCommand::FromBinary
    } else {
        CliCommand::Expression
    }
}

/// The request that the program's arguments (the program's name first) make.
pub open spec fn spec_parse_cli(args: Seq<Seq<char>>) -> (CliCommand, bool, Seq<Seq<char>>) {
    if args.len() < 2 {
        (CliCommand::Tui, false, Seq::empty())
    } else {
        let rest = args.subrange(1, args.len() as int);
        let positional = without_copy_flags(rest);
        let copy = exists|k: int| 0 <= k < rest.len() && is_copy_flag(#[trigger] rest[k]);
        if positional.len() == 0 {
            (CliCommand::Missing, copy, positional)
        } else {
            (command_of(positional[0]), copy, positional)
        }
    }
}

/// The texts joined.
pub open spec fn concat(v: Seq<Seq<char>>) -> Seq<char>
    decreases v.len(),
{
    if v.len() == 0 {
        Seq::empty()
    } else {
        concat(v.drop_last()) + v.last()
    }
}

/// The long and the short name of each command select the same command:
/// `-h`/`--help`, `-a`/`--add`, `-s`/`--sub`, `-p`/`--pow`, `-b`/`--binary`
/// and `-fb`/`--from-binary`; `-c` and `--copy` are both the copy flag.
pub proof fn lemma_long_and_short_names_agree()
    ensures
        command_of("-h"@) == CliCommand::Help && command_of("--help"@) == CliCommand::Help,
        command_of("-a"@) == CliCommand::Add && command_of("--add"@) == CliCommand::Add,
        command_of("-s"@) == CliCommand::Sub && command_of("--sub"@) == CliCommand::Sub,
        command_of("-p"@) == CliCommand::Pow && command_of("--pow"@) == CliCommand::Pow,
        command_of("-b"@) == CliCommand::Binary && command_of("--binary"@) == CliCommand::Binary,
        command_of("-fb"@) == CliCommand::FromBinary && command_of("--from-binary"@)
            == CliCommand::FromBinary,
        is_copy_flag("-c"@) && is_copy_flag("--copy"@),
{
    reveal_strlit("-h");
    reveal_strlit("--help");
    reveal_strlit("-a");
    reveal_strlit("--add");
    reveal_strlit("-s");
    reveal_strlit("--sub");
    reveal_strlit("-p");
    reveal_strlit("--pow");
    reveal_strlit("-b");
    reveal_strlit("--binary");
    reveal_strlit("-fb");
    reveal_strlit("--from-binary");
    assert("-a"@[1] != "-h"@[1]);
    assert("-s"@[1] != "-h"@[1]);
    assert("-s"@[1] != "-a"@[1]);
    assert("-p"@[1] != "-h"@[1]);
    assert("-p"@[1] != "-a"@[1]);
    assert("-p"@[1] != "-s"@[1]);
    assert("-b"@[1] != "-h"@[1]);
    assert("-b"@[1] != "-a"@[1]);
    assert("-b"@[1] != "-s"@[1]);
    assert("-b"@[1] != "-p"@[1]);
    assert("--add"@[2] != "--sub"@[2]);
    assert("--add"@[2] != "--pow"@[2]);
    assert("--sub"@[2] != "--pow"@[2]);
    assert("--help"@.len() != "--add"@.len());
    assert("-fb"@.len() == 3);
    assert("--from-binary"@.len() == 13);
    assert("--binary"@.len() == 8);
    assert("-fb"@ != "-h"@ && "-fb"@ != "-a"@ && "-fb"@ != "-s"@ && "-fb"@ != "-p"@);
    assert("-fb"@ != "-b"@ && "-fb"@ != "--help"@ && "-fb"@ != "--add"@);
    assert("-fb"@ != "--sub"@ && "-fb"@ != "--pow"@ && "-fb"@ != "--binary"@);
    assert("--from-binary"@ != "-h"@ && "--from-binary"@ != "-a"@);
    assert("--from-binary"@ != "-s"@ && "--from-binary"@ != "-p"@);
    assert("--from-binary"@ != "-b"@ && "--from-binary"@ != "--help"@);
    assert("--from-binary"@ != "--add"@ && "--from-binary"@ != "--sub"@);
    assert("--from-binary"@ != "--pow"@ && "--from-binary"@ != "--binary"@);
}

/// Whether `s` spells `lit`.
fn str_eq(s: &str, lit: &str) -> (r: bool)
    ensures
        r == (s@ == lit@),
{
    let n = lit.unicode_len();
    if s.unicode_len() != n {
        return false;
    }
    let mut i: usize = 0;
    while i < n
        invariant
            n == lit@.len(),
            n == s@.len(),
            i <= n,
            forall|k: int| 0 <= k < i ==> s@[k] == lit@[k],
        decreases n - i,
    {
        if s.get_char(i) != lit.get_char(i) {
            return false;
        }
        i = i + 1;
    }
    assert(s@ =~= lit@);
    true
}

fn command_of_exec(first: &str) -> (c: CliCommand)
    ensures
        c == command_of(first@),
{
    if str_eq(first, "-h") || str_eq(first, "--help") {
        CliCommand::Help
    } else if str_eq(first, "--add") || str_eq(first, "-a") {
        CliCommand::Add
    } else if str_eq(first, "--sub") || str_eq(first, "-s") {
        CliCommand::Sub
    } else if str_eq(first, "--pow") || str_eq(first, "-p") {
        CliCommand::Pow
    } else if str_eq(first, "--binary") || str_eq(first, "-b") {
        CliCommand::Binary
    } else if str_eq(first, "--from-binary") || str_eq(first, "-fb") {
        CliCommand::FromBinary
    } else {
        CliCommand::Expression
    }
}

/// Takes the program's arguments (its name first) apart.
pub fn parse_cli(args: &[String]) -> (r: CliRequest)
    ensures
        (r.command, r.copy, strings_view(r.positional@)) == spec_parse_cli(strings_view(args@)),
{
    let ghost all = strings_view(args@);
    if args.len() < 2 {
        let r = CliRequest { command: CliCommand::Tui, copy: false, positional: Vec::new() };
        assert(strings_view(r.positional@) =~= Seq::<Seq<char>>::empty());
        return r;
    }
    let ghost rest = all.subrange(1, all.len() as int);
    let mut copy = false;
    let mut positional: Vec<String> = Vec::new();
    let mut i: usize = 1;
    while i < args.len()
        invariant
            1 <= i <= args@.len(),
            all == strings_view(args@),
            rest == all.subrange(1, all.len() as int),
            strings_view(positional@) == without_copy_flags(rest.subrange(0, i - 1)),
            copy == exists|k: int| 0 <= k < i - 1 && is_copy_flag(#[trigger] rest[k]),
        decreases args@.len() - i,
    {
        let a = &args[i];
        let ghost pre = rest.subrange(0, i - 1);
        let ghost post = rest.subrange(0, i as int);
        assert(post.drop_last() =~= pre);
        assert(post.last() == a@);
        if str_eq(a.as_str(), "-c") || str_eq(a.as_str(), "--copy") {
            copy = true;
            assert(is_copy_flag(rest[i - 1]));
        } else {
            let ghost before = positional@;
            positional.push(a.clone());
            assert(strings_view(positional@) =~= strings_view(before).push(a@));
            assert forall|k: int| 0 <= k < i && is_copy_flag(#[trigger] rest[k]) implies k < i
                - 1 by {
                if k == i - 1 {
                    assert(rest[k] == a@);
                }
            }
        }
        i = i + 1;
    }
    assert(rest.subrange(0, rest.len() as int) =~= rest);
    let command = if positional.len() == 0 {
        CliCommand::Missing
    } else {
        command_of_exec(positional[0].as_str())
    };
    CliRequest { command, copy, positional }
}

/// The arguments joined into one expression.
pub fn concat_arguments(args: &[String]) -> (s: String)
    ensures
        s@ == concat(strings_view(args@)),
{
    let mut s = String::new();
    let mut i: usize = 0;
    while i < args.len()
        invariant
            i <= args@.len(),
            s@ == concat(strings_view(args@).subrange(0, i as int)),
        decreases args@.len() - i,
    {
        let ghost pre = strings_view(args@).subrange(0, i as int);
        append_str(&mut s, args[i].as_str());
        i = i + 1;
        assert(strings_view(args@).subrange(0, i as int).drop_last() =~= pre);
    }
    assert(strings_view(args@).subrange(0, args@.len() as int) =~= strings_view(args@));
    s
}

/// The usage of the decimal-to-binary command.
pub open spec fn binary_usage() -> Seq<char> {
    "Usage: vical --binary <decimal_integer>"@
}

/// The usage of the binary-to-decimal command.
pub open spec fn from_binary_usage() -> Seq<char> {
    "Usage: vical --from-binary <binary_integer>"@
}

/// The output of the decimal-to-binary command, given the arguments after
/// the flags (the command's own name first).
pub fn binary_mode_output(args: &[String]) -> (r: Result<String, String>)
    ensures
        args@.len() != 2 ==> (r matches Err(m) && m@ == binary_usage()),
        args@.len() == 2 ==> match r {
            Ok(out) => spec_decimal_to_binary(args@[1]@) == Ok::<Seq<char>, Seq<char>>(out@),
            Err(m) => spec_decimal_to_binary(args@[1]@) == Err::<Seq<char>, Seq<char>>(m@),
        },
{
    if args.len() != 2 {
        return Err(String::from_str("Usage: vical --binary <decimal_integer>"));
    }
    decimal_to_binary(args[1].as_str())
}

/// The output of the binary-to-decimal command, given the arguments after
/// the flags (the command's own name first).
pub fn from_binary_mode_output(args: &[String]) -> (r: Result<String, String>)
    ensures
        args@.len() != 2 ==> (r matches Err(m) && m@ == from_binary_usage()),
        args@.len() == 2 ==> match r {
            Ok(out) => spec_binary_to_decimal(args@[1]@) == Ok::<Seq<char>, Seq<char>>(out@),
            Err(m) => spec_binary_to_decimal(args@[1]@) == Err::<Seq<char>, Seq<char>>(m@),
        },
{
    if args.len() != 2 {
        return Err(String::from_str("Usage: vical --from-binary <binary_integer>"));
    }
    binary_to_decimal(args[1].as_str())
}

/// A line typed at an interactive prompt.
#[derive(Debug)]
pub enum PromptInput {
    /// `q` or `Q`: leave the prompt.
    Quit,
    /// Anything else, trimmed, to be read as a number.
    Operand(String),
}

/// Reads a line typed at an interactive prompt: the line trimmed is `q` in
/// either case to leave, and otherwise the operand.
pub fn prompt_input(line: &str) -> (r: PromptInput)
    ensures
        match r {
            PromptInput::Quit => trim(line@) == "q"@ || trim(line@) == "Q"@,
            PromptInput::Operand(t) => t@ == trim(line@) && trim(line@) != "q"@ && trim(line@)
                != "Q"@,
        },
{
    let t = trimmed_chars(line);
    let text = crate::text::string_from_chars(t.as_slice(), 0, t.len());
    assert(t@.subrange(0, t@.len() as int) =~= t@);
    if str_eq(text.as_str(), "q") || str_eq(text.as_str(), "Q") {
        PromptInput::Quit
    } else {
        PromptInput::Operand(text)
    }
}

/// The text of `--help`.
pub fn cli_help_text() -> (s: &'static str)
    ensures
        s@ == "vical - A versatile CLI calculator\n\nUSAGE:\n    vical [OPTIONS] [EXPRESSION]\n\nCOMMANDS:\n    -a, --add           Interactive addition mode\n    -s, --sub           Interactive subtraction mode\n    -p, --pow           Interactive power mode\n                        (Type 'q' to return to shell)\n\n    -b, --binary <DEC>  Decimal to binary conversion\n    -fb, --from-binary  Binary to decimal conversion\n\nOPTIONS:\n    -c, --copy          Copy result to clipboard\n    -h, --help          Show this help message\n"@,
{
    "vical - A versatile CLI calculator\n\nUSAGE:\n    vical [OPTIONS] [EXPRESSION]\n\nCOMMANDS:\n    -a, --add           Interactive addition mode\n    -s, --sub           Interactive subtraction mode\n    -p, --pow           Interactive power mode\n                        (Type 'q' to return to shell)\n\n    -b, --binary <DEC>  Decimal to binary conversion\n    -fb, --from-binary  Binary to decimal conversion\n\nOPTIONS:\n    -c, --copy          Copy result to clipboard\n    -h, --help          Show this help message\n"
}

} // verus!
