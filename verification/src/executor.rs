//! The verified half of command execution: parsing a command line into a
//! program and its arguments, and deciding whether the shell wrapper is
//! needed. Spawning the process stays with the caller.

use vstd::prelude::*;

use crate::models::Platform;
use vstd::string::StrSliceExecFns;

verus! {

/// What preparing a command for execution can fail with.
#[derive(Debug)]
pub enum ExecutionError {
    /// The command line could not be parsed as shell words.
    CommandParse(String),
    /// No command was given.
    EmptyCommand,
    /// The command could not be spawned; the message describes the cause.
    CommandFailed(String, String),
    /// The command exited with a non-zero status.
    NonZeroExitStatus(String),
}

/// What `shlex::split` returns: the shell words of the line, or `None` for
/// erroneous input. The result depends on the line alone.
pub uninterp spec fn shlex_tokens(s: Seq<char>) -> Option<Seq<Seq<char>>>;

/// Splits a command line into shell words.
///
/// Relies on `shlex::split`: quotes and spaces are handled as a POSIX shell
/// would, and erroneous input yields `None`.
#[verifier::external_body]
fn split_shell_words(command_line: &str) -> (r: Option<Vec<String>>)
    ensures
        r.deep_view() == shlex_tokens(command_line@),
{
    shlex::split(command_line)
}

/// Case-insensitive equality of two characters, over ASCII letters.
pub open spec fn spec_char_eq_ci(a: char, b: char) -> bool {
    ||| a == b
    ||| ('A' <= a <= 'Z' && a as u32 + 32 == b as u32)
    ||| ('A' <= b <= 'Z' && b as u32 + 32 == a as u32)
}

/// Case-insensitive equality of two strings, over ASCII letters.
pub open spec fn spec_str_eq_ci(a: Seq<char>, b: Seq<char>) -> bool {
    a.len() == b.len() && forall|i: int| 0 <= i < a.len() ==> spec_char_eq_ci(a[i], #[trigger] b[i])
}

/// Compares two strings ignoring ASCII case.
pub fn eq_ignore_case(a: &str, b: &str) -> (r: bool)
    ensures
        r == spec_str_eq_ci(a@, b@),
{
    let na = a.unicode_len();
    let nb = b.unicode_len();
    if na != nb {
        return false;
    }
    let mut i: usize = 0;
    while i < na
        invariant
            i <= na,
            na == a@.len(),
            nb == b@.len(),
            na == nb,
            forall|j: int| 0 <= j < i ==> spec_char_eq_ci(a@[j], #[trigger] b@[j]),
        decreases na - i,
    {
        let ca = a.get_char(i);
        let cb = b.get_char(i);
        let same = ca == cb || ('A' <= ca && ca <= 'Z' && ca as u32 + 32 == cb as u32) || ('A'
            <= cb && cb <= 'Z' && cb as u32 + 32 == ca as u32);
        if !same {
            return false;
        }
        i += 1;
    }
    true
}

/// The command words that `cmd.exe` treats as builtins.
pub open spec fn spec_is_windows_shell_builtin(s: Seq<char>) -> bool {
    ||| spec_str_eq_ci(s, "start"@)
    ||| spec_str_eq_ci(s, "cd"@)
    ||| spec_str_eq_ci(s, "dir"@)
    ||| spec_str_eq_ci(s, "echo"@)
    ||| spec_str_eq_ci(s, "set"@)
    ||| spec_str_eq_ci(s, "call"@)
    ||| spec_str_eq_ci(s, "pause"@)
    ||| spec_str_eq_ci(s, "cls"@)
    ||| spec_str_eq_ci(s, "copy"@)
    ||| spec_str_eq_ci(s, "del"@)
    ||| spec_str_eq_ci(s, "move"@)
    ||| spec_str_eq_ci(s, "rename"@)
    ||| spec_str_eq_ci(s, "mkdir"@)
}

/// Whether the program is a `cmd.exe` builtin, compared without ASCII case.
pub fn is_windows_shell_builtin(program: &str) -> (r: bool)
    ensures
        r == spec_is_windows_shell_builtin(program@),
{
    eq_ignore_case(program, "start") || eq_ignore_case(program, "cd") || eq_ignore_case(
        program,
        "dir",
    ) || eq_ignore_case(program, "echo") || eq_ignore_case(program, "set") || eq_ignore_case(
        program,
        "call",
    ) || eq_ignore_case(program, "pause") || eq_ignore_case(program, "cls") || eq_ignore_case(
        program,
        "copy",
    ) || eq_ignore_case(program, "del") || eq_ignore_case(program, "move") || eq_ignore_case(
        program,
        "rename",
    ) || eq_ignore_case(program, "mkdir")
}

/// How the caller should spawn a parsed command.
pub struct CommandPlan {
    /// The program to invoke.
    pub program: String,
    /// Its arguments, in order.
    pub args: Vec<String>,
    /// Whether program and arguments must be passed through `cmd /C`,
    /// because the program is a shell builtin on Windows.
    pub use_cmd_wrapper: bool,
}

/// Parses a command line into a plan the caller can spawn.
///
/// Fails with `CommandParse` exactly when the line is not valid shell words,
/// and with `EmptyCommand` exactly when it holds none.
pub fn plan_command(command_line: &str, platform: Platform) -> (r: Result<
    CommandPlan,
    ExecutionError,
>)
    ensures
        ({
            match shlex_tokens(command_line@) {
                None => r matches Err(ExecutionError::CommandParse(l)) && l@ == command_line@,
                Some(toks) => if toks.len() == 0 {
                    r matches Err(ExecutionError::EmptyCommand)
                } else {
                    r matches Ok(plan) && plan.program@ == toks[0] && plan.args.deep_view()
                        == toks.drop_first() && plan.use_cmd_wrapper == (platform
                        == Platform::Windows && spec_is_windows_shell_builtin(toks[0]))
                },
            }
        }),
{
    let parts = match split_shell_words(command_line) {
        None => {
            return Err(ExecutionError::CommandParse(command_line.to_owned()));
        },
        Some(p) => p,
    };
    if parts.len() == 0 {
        return Err(ExecutionError::EmptyCommand);
    }
    let ghost toks = shlex_tokens(command_line@)->0;
    let mut parts = parts;
    let ghost before = parts.deep_view();
    let program = parts.remove(0);
    let args = parts;
    proof {
        assert(program@ == toks[0]);
        assert forall|l: int| 0 <= l < args.deep_view().len() implies args.deep_view()[l]
            == toks.drop_first()[l] by {
            assert(args@[l] == args@[l]);
        }
        assert(args.deep_view() =~= toks.drop_first());
    }
    let wrap = match platform {
        Platform::Windows => is_windows_shell_builtin(program.as_str()),
        _ => false,
    };
    Ok(CommandPlan { program, args, use_cmd_wrapper: wrap })
}

} // verus!
