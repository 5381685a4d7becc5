//! The decision: run the target directly, or through `cmd.exe` or PowerShell.

use vstd::prelude::*;
use crate::classify::{executable_path, is_executable};
use crate::cmd::{cmd_invocation_args, comspec_or_default, process_with_cmd};
use crate::powershell::{process_with_powershell, ps_invocation_args};
use crate::shebang::{detect_shebang, interpreter_for};
use crate::text::views;

verus! {

/// The interpreter that runs a command that needs a shell.
#[derive(Debug, Clone, Copy, PartialEq, Eq, Structural)]
pub enum ShellType {
    /// `cmd.exe`, the traditional command interpreter.
    Cmd,
    /// Windows PowerShell.
    PowerShell,
}

impl Default for ShellType {
    fn default() -> (r: Self)
        ensures
            r == ShellType::Cmd,
    {
        ShellType::Cmd
    }
}

/// The command and arguments once a script's interpreter directive, read from
/// `first_line`, has been applied: the interpreter runs the script, which
/// becomes its first argument.
pub open spec fn resolved(command: Seq<char>, args: Seq<Seq<char>>, first_line: Option<String>) -> (
    Seq<char>,
    Seq<Seq<char>>,
) {
    match interpreter_for(first_line) {
        Some(i) => (i, seq![command] + args),
        None => (command, args),
    }
}

/// Whether the resolved command has to go through a shell: the caller forces
/// it, or the command is not a native executable.
pub open spec fn needs_shell(command: Seq<char>, force_shell: bool) -> bool {
    force_shell || !executable_path(command)
}

/// What runs, and with which arguments, for a command that goes through a shell.
pub open spec fn shell_invocation(
    command: Seq<char>,
    args: Seq<Seq<char>>,
    shell_type: ShellType,
    comspec: Option<String>,
) -> (Seq<char>, Seq<Seq<char>>) {
    match shell_type {
        ShellType::Cmd => (comspec_or_default(comspec), cmd_invocation_args(command, args)),
        ShellType::PowerShell => ("powershell.exe"@, ps_invocation_args(command, args)),
    }
}

/// What runs, and with which arguments: the resolved command as it is where
/// no shell is needed, else the chosen shell running it.
pub open spec fn launch(
    command: Seq<char>,
    args: Seq<Seq<char>>,
    force_shell: bool,
    shell_type: ShellType,
    first_line: Option<String>,
    comspec: Option<String>,
) -> (Seq<char>, Seq<Seq<char>>) {
    let (c, a) = resolved(command, args, first_line);
    if needs_shell(c, force_shell) {
        shell_invocation(c, a, shell_type, comspec)
    } else {
        (c, a)
    }
}

/// What runs under PowerShell Core, and with which arguments.
pub open spec fn launch_core(
    command: Seq<char>,
    args: Seq<Seq<char>>,
    force_shell: bool,
    first_line: Option<String>,
) -> (Seq<char>, Seq<Seq<char>>) {
    let (c, a) = resolved(command, args, first_line);
    if needs_shell(c, force_shell) {
        ("pwsh.exe"@, ps_invocation_args(c, a))
    } else {
        (c, a)
    }
}

/// Decides how to start `command` with `args`, through `cmd.exe` where a
/// shell is needed. `first_line` is the first line of the file that `command`
/// names, where it could be read; `comspec` is the value of `COMSPEC`, where it
/// is set.
pub fn parse_non_shell(
    command: String,
    args: Vec<String>,
    force_shell: bool,
    first_line: Option<String>,
    comspec: Option<String>,
) -> (r: (String, Vec<String>))
    ensures
        (r.0@, views(r.1@)) == launch(command@, views(args@), force_shell, ShellType::Cmd, first_line, comspec),
{
    parse_shell_with_type(command, args, force_shell, ShellType::Cmd, first_line, comspec)
}

/// Decides how to start `command` with `args`, through the shell that
/// `shell_type` names where a shell is needed.
pub fn parse_shell_with_type(
    command: String,
    args: Vec<String>,
    force_shell: bool,
    shell_type: ShellType,
    first_line: Option<String>,
    comspec: Option<String>,
) -> (r: (String, Vec<String>))
    ensures
        (r.0@, views(r.1@)) == launch(command@, views(args@), force_shell, shell_type, first_line, comspec),
{
    let mut args = args;
    let command_file = detect_shebang(command.as_str(), &first_line, &mut args);
    if !force_shell && is_executable(command_file.as_str()) {
        return (command_file, args);
    }
    match shell_type {
        ShellType::Cmd => process_with_cmd(command_file.as_str(), &args, comspec),
        ShellType::PowerShell => process_with_powershell("powershell.exe", command_file.as_str(), &args),
    }
}

/// Decides how to start `command` with `args`, through PowerShell Core
/// (`pwsh.exe`) where a shell is needed.
pub fn parse_powershell_core(
    command: String,
    args: Vec<String>,
    force_shell: bool,
    first_line: Option<String>,
) -> (r: (String, Vec<String>))
    ensures
        (r.0@, views(r.1@)) == launch_core(command@, views(args@), force_shell, first_line),
{
    let mut args = args;
    let command_file = detect_shebang(command.as_str(), &first_line, &mut args);
    if !force_shell && is_executable(command_file.as_str()) {
        return (command_file, args);
    }
    process_with_powershell("pwsh.exe", command_file.as_str(), &args)
}

} // verus!
