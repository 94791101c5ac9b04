//! How the `shell` module of the Lua scripting API runs a command line.
use vstd::prelude::*;

verus! {

/// A program and its arguments.
#[derive(Debug, Clone)]
pub struct ShellInvocation {
    /// The program to start.
    pub program: String,
    /// Its arguments.
    pub args: Vec<String>,
}

/// The invocation that runs `cmd` with the shell `shell`: `shell /C cmd` on
/// Windows, `shell -c cmd` elsewhere.
pub fn build_shell_command(cmd: &str, shell: &str, windows: bool) -> (r: ShellInvocation)
    ensures
        r.program@ == shell@,
        r.args@.len() == 2,
        r.args@[0]@ == if windows {
            "/C"@
        } else {
            "-c"@
        },
        r.args@[1]@ == cmd@,
{
    let flag = if windows {
        "/C"
    } else {
        "-c"
    };
    let mut args: Vec<String> = Vec::new();
    args.push(flag.to_owned());
    args.push(cmd.to_owned());
    ShellInvocation { program: shell.to_owned(), args }
}

} // verus!
