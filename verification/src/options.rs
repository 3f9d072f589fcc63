//! Command-line argument parsing.

use vstd::prelude::*;
use vstd::string::StrSliceExecFns;
use vstd::string::StringExecFns;

verus! {

/// What the command line asks for.
#[derive(Debug, PartialEq)]
pub enum Parsed {
    /// Run the command with the reconciled environment.
    RunCommand { command: String, args: Vec<String> },
    /// Write the setup script to standard output.
    ShowScript,
    /// Print the help text.
    ShowHelp,
    /// Print the version.
    ShowVersion,
    /// An argument could not be understood.
    Error(String),
    /// No command was given.
    NoCommand,
}

/// What parsing guarantees, given the argument views `vs` (the first
/// argument is the program name and is ignored).
pub open spec fn parse_result_ok(vs: Seq<Seq<char>>, r: Parsed) -> bool {
    if vs.len() <= 1 {
        r == Parsed::NoCommand
    } else {
        let cmd = vs[1];
        if cmd.len() == 0 || cmd[0] != '-' {
            r matches Parsed::RunCommand { command, args } && command@ == cmd
                && args@.map_values(|s: String| s@) == vs.skip(2)
        } else if cmd == "--help"@ || cmd == "-h"@ {
            r == Parsed::ShowHelp
        } else if cmd == "--version"@ || cmd == "-v"@ {
            r == Parsed::ShowVersion
        } else if cmd == "--script"@ || cmd == "-s"@ {
            r == Parsed::ShowScript
        } else {
            r matches Parsed::Error(m) && m@ == "Unknown argument "@ + cmd
        }
    }
}

/// Parses a command line. The first argument is the program's own name and
/// is skipped; an argument starting with `-` selects an option; anything
/// else is the command to run, with the remaining arguments.
pub fn parse(args: Vec<String>) -> (r: Parsed)
    ensures
        parse_result_ok(args@.map_values(|s: String| s@), r),
{
    let ghost vs = args@.map_values(|s: String| s@);
    let mut args = args;
    if args.len() <= 1 {
        return Parsed::NoCommand;
    }
    let command = args.remove(1);
    proof {
        assert(command@ == vs[1]);
    }
    let dash = {
        let cs = command.as_str();
        cs.unicode_len() >= 1 && cs.get_char(0) == '-'
    };
    if !dash {
        let program = args.remove(0);
        proof {
            assert(args@.map_values(|s: String| s@) =~= vs.skip(2));
        }
        let _ = program;
        return Parsed::RunCommand { command, args };
    }
    if string_is(&command, "--help") || string_is(&command, "-h") {
        Parsed::ShowHelp
    } else if string_is(&command, "--version") || string_is(&command, "-v") {
        Parsed::ShowVersion
    } else if string_is(&command, "--script") || string_is(&command, "-s") {
        Parsed::ShowScript
    } else {
        let message = String::from_str("Unknown argument ").concat(command.as_str());
        Parsed::Error(message)
    }
}

/// True when the string equals the literal.
fn string_is(s: &String, lit: &str) -> (r: bool)
    ensures
        r == (s@ == lit@),
{
    let other = lit.to_owned();
    *s == other
}

/// The help text.
pub fn get_help_text() -> (r: String)
    ensures
        r@ == help_text(),
{
    String::from_str(HELP_TEXT_LITERAL)
}

/// The help text as a sequence of characters.
pub open spec fn help_text() -> Seq<char> {
    HELP_TEXT_LITERAL@
}

/// What `--help` prints.
pub const HELP_TEXT_LITERAL: &'static str = "Usage: snap-out [COMMAND] [ARGUMENTS]...\n       snap-out [OPTION]\n\nRun a command with the environment it would have had outside the snap sandbox\n\nOptions:\n  -h, --help        Print this help message and exit\n  -v, --version     Print the version and exit\n  -s, --script      Generate a script that sets up the environment and write it to stdout\n                    Output consists of lines in the following two formats:\n                      export VARIABLE=VALUE\n                      unset VARIABLE\n\nEnvironment variables:\n  SNAP_OUT_DEBUG    If set, dump debugging information to /tmp/snap-out-debug.log\n";

} // verus!
