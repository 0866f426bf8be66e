//! The verified half of the interactive session launcher: assembling the
//! shell's initialization command. Spawning the shell stays with the caller.

use vstd::prelude::*;

use crate::strutil::push_str;

verus! {

/// What launching the interactive shell can fail with.
#[derive(Debug)]
pub enum ShellError {
    /// The system shell could not be located.
    ShellNotFound,
    /// Spawning or waiting failed; the message describes the cause.
    IoError(String),
}

/// The welcome line shown when a session starts.
pub open spec fn spec_welcome(project_name: Seq<char>) -> Seq<char> {
    "echo. && echo --- Sesion de Axes para '"@ + project_name
        + "' iniciada. --- && echo Para salir, escribe 'exit'."@
}

/// The full initialization command: the `at_start` script first when one is
/// configured, then the welcome line.
pub open spec fn spec_shell_init(project_name: Seq<char>, at_start: Option<Seq<char>>) -> Seq<
    char,
> {
    match at_start {
        Some(script) => "call "@ + script + " && "@ + spec_welcome(project_name),
        None => spec_welcome(project_name),
    }
}

/// Builds the command the interactive shell runs on startup.
pub fn shell_init_command(project_name: &str, at_start: Option<&str>) -> (r: String)
    ensures
        r@ == spec_shell_init(project_name@, match at_start {
            Some(s) => Some(s@),
            None => None,
        }),
{
    let mut r = String::new();
    match at_start {
        Some(script) => {
            push_str(&mut r, "call ");
            push_str(&mut r, script);
            push_str(&mut r, " && ");
        },
        None => {},
    }
    push_str(&mut r, "echo. && echo --- Sesion de Axes para '");
    push_str(&mut r, project_name);
    push_str(&mut r, "' iniciada. --- && echo Para salir, escribe 'exit'.");
    proof {
        assert(r@ =~= spec_shell_init(project_name@, match at_start {
            Some(s) => Some(s@),
            None => None,
        }));
    }
    r
}

} // verus!
