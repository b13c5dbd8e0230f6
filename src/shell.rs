use vstd::prelude::*;
use vstd::string::StringExecFns;

verus! {

/// The family of platform that a shell is chosen for.
#[derive(PartialEq, Eq, Structural, Clone, Copy, Debug)]
pub enum Platform {
    /// Console-subsystem platforms, whose shells are found by probing.
    Windows,
    /// Platforms whose shell is declared by the environment.
    Posix,
}

/// The window size of a terminal, in character cells.
#[derive(PartialEq, Eq, Structural, Clone, Copy, Debug)]
pub struct TermSize {
    pub cols: u16,
    pub rows: u16,
}

/// What is needed to start a shell: the program, its arguments, and the
/// working directory, if one was asked for.
#[derive(Debug, Clone, PartialEq, Eq)]
pub struct ShellCommand {
    pub program: String,
    pub args: Vec<String>,
    pub cwd: Option<String>,
}

/// The texts of a sequence of strings.
pub open spec fn texts(v: Seq<String>) -> Seq<Seq<char>> {
    v.map_values(|s: String| s@)
}

/// Whether `pat` occurs in `s` as a contiguous run.
pub open spec fn has_infix(s: Seq<char>, pat: Seq<char>) -> bool {
    exists|i: int| 0 <= i && i + pat.len() <= s.len() && #[trigger] s.subrange(i, i + pat.len()) == pat
}

/// Relies on `str::contains`: whether the pattern matches a sub-slice.
#[verifier::external_body]
fn text_contains(s: &str, pat: &str) -> (r: bool)
    ensures
        r == has_infix(s@, pat@),
{
    s.contains(pat)
}

/// The size asked for, with 80 columns and 24 rows where none was given.
pub fn term_size(cols: Option<u16>, rows: Option<u16>) -> (r: TermSize)
    ensures
        r.cols == (match cols {
            Some(c) => c,
            None => 80u16,
        }),
        r.rows == (match rows {
            Some(n) => n,
            None => 24u16,
        }),
{
    let cols = match cols {
        Some(c) => c,
        None => 80,
    };
    let rows = match rows {
        Some(n) => n,
        None => 24,
    };
    TermSize { cols, rows }
}

/// The shell that a POSIX platform uses: the one the environment declares, or
/// `/bin/bash`.
pub open spec fn posix_shell_spec(env_shell: Option<Seq<char>>) -> Seq<char> {
    match env_shell {
        Some(s) => s,
        None => "/bin/bash"@,
    }
}

/// The shell for a POSIX platform, from the declared shell if there is one.
pub fn posix_shell(env_shell: Option<String>) -> (r: String)
    ensures
        r@ == posix_shell_spec(
            match env_shell {
                Some(s) => Some(s@),
                None => None,
            },
        ),
{
    match env_shell {
        Some(s) => s,
        None => String::from_str("/bin/bash"),
    }
}

/// The shell that a Windows platform uses: PowerShell Core where it answered
/// its version query, else Windows PowerShell where that one did, else the
/// declared command interpreter, else `cmd.exe`.
pub open spec fn windows_shell_spec(
    pwsh_found: bool,
    powershell_found: bool,
    comspec: Option<Seq<char>>,
) -> Seq<char> {
    if pwsh_found {
        "pwsh"@
    } else if powershell_found {
        "powershell"@
    } else {
        match comspec {
            Some(c) => c,
            None => "cmd.exe"@,
        }
    }
}

/// The shell for a Windows platform, from the outcome of the two probes and
/// the declared command interpreter.
pub fn windows_shell(pwsh_found: bool, powershell_found: bool, comspec: Option<String>) -> (r:
    String)
    ensures
        r@ == windows_shell_spec(
            pwsh_found,
            powershell_found,
            match comspec {
                Some(c) => Some(c@),
                None => None,
            },
        ),
{
    if pwsh_found {
        String::from_str("pwsh")
    } else if powershell_found {
        String::from_str("powershell")
    } else {
        match comspec {
            Some(c) => c,
            None => String::from_str("cmd.exe"),
        }
    }
}

/// The arguments that `shell` is started with. On Windows, PowerShell is
/// started without its banner and kept open. On POSIX, a login shell is asked
/// for; zsh is also told not to mark partial lines.
pub open spec fn shell_args_spec(shell: Seq<char>, platform: Platform) -> Seq<Seq<char>> {
    match platform {
        Platform::Windows => if has_infix(shell, "pwsh"@) || has_infix(shell, "powershell"@) {
            seq!["-NoLogo"@, "-NoExit"@]
        } else {
            Seq::empty()
        },
        Platform::Posix => if has_infix(shell, "zsh"@) {
            seq!["-o"@, "no_prompt_sp"@, "-l"@]
        } else {
            seq!["-l"@]
        },
    }
}

/// The arguments that `shell` is started with on `platform`.
pub fn shell_args(shell: &String, platform: Platform) -> (r: Vec<String>)
    ensures
        texts(r@) == shell_args_spec(shell@, platform),
{
    let mut args: Vec<String> = Vec::new();
    match platform {
        Platform::Windows => {
            if text_contains(shell.as_str(), "pwsh") || text_contains(shell.as_str(), "powershell") {
                args.push(String::from_str("-NoLogo"));
                args.push(String::from_str("-NoExit"));
            }
        },
        Platform::Posix => {
            if text_contains(shell.as_str(), "zsh") {
                args.push(String::from_str("-o"));
                args.push(String::from_str("no_prompt_sp"));
            }
            args.push(String::from_str("-l"));
        },
    }
    assert(texts(args@) =~= shell_args_spec(shell@, platform));
    args
}

/// The command that starts `shell` on `platform`, in `cwd` where one is given.
pub fn build_command(shell: String, cwd: Option<String>, platform: Platform) -> (r: ShellCommand)
    ensures
        r.program@ == shell@,
        texts(r.args@) == shell_args_spec(shell@, platform),
        r.cwd == cwd,
{
    let args = shell_args(&shell, platform);
    ShellCommand { program: shell, args, cwd }
}

} // verus!
