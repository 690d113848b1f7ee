//! The process launcher's decision logic: which shell invocation the
//! host platform takes, and how the outcome of a spawn attempt is
//! reported. The spawn itself is performed by the surrounding program.

use vstd::prelude::*;
use vstd::string::StringExecFns;

use crate::command::CommandError;

verus! {

/// The family of the host operating system, as far as shell selection is
/// concerned.
#[derive(Clone, Copy, PartialEq, Eq, Structural)]
pub enum Platform {
    /// The Windows family: commands run through the system command
    /// interpreter.
    Windows,
    /// Everything else: commands run through a Bourne-compatible shell.
    Posix,
}

/// A fully determined shell invocation: the program to start and its
/// arguments, with the resolved command string last.
pub struct ShellInvocation {
    pub program: String,
    pub args: Vec<String>,
}

/// Selects the shell invocation for `command` on `platform`: the Windows
/// command interpreter with its run-one-command flag there, a
/// Bourne-compatible shell with its command-string flag everywhere else.
/// The resolved command is passed through verbatim, unquoted.
pub fn shell_invocation(platform: Platform, command: &str) -> (r: ShellInvocation)
    ensures
        r.args@.len() == 2,
        platform is Windows ==> r.program@ == "cmd"@ && r.args@[0]@ == "/C"@,
        platform is Posix ==> r.program@ == "sh"@ && r.args@[0]@ == "-c"@,
        r.args@[1]@ == command@,
{
    let mut args: Vec<String> = Vec::new();
    match platform {
        Platform::Windows => {
            args.push(String::from_str("/C"));
            args.push(command.to_owned());
            ShellInvocation { program: String::from_str("cmd"), args }
        },
        Platform::Posix => {
            args.push(String::from_str("-c"));
            args.push(command.to_owned());
            ShellInvocation { program: String::from_str("sh"), args }
        },
    }
}

/// Turns a spawn attempt's outcome into this library's report: success
/// exactly when the process was started, and otherwise the startup
/// error naming the attempted command — distinct from the spawned
/// command itself failing, which the launcher never inspects.
pub fn spawn_outcome(command: &str, spawned: bool) -> (r: Result<(), CommandError>)
    ensures
        spawned ==> r == Ok::<(), CommandError>(()),
        !spawned ==> (r matches Err(CommandError::SpawnFailed { command: c }) && c@ == command@),
{
    if spawned {
        Ok(())
    } else {
        Err(CommandError::SpawnFailed { command: command.to_owned() })
    }
}

} // verus!
