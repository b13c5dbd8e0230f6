use pty_sessions::shell::{
    build_command, posix_shell, shell_args, term_size, windows_shell, Platform, TermSize,
};

fn strs(v: &[&str]) -> Vec<String> {
    v.iter().map(|s| s.to_string()).collect()
}

#[test]
fn size_defaults_to_80_by_24() {
    assert_eq!(term_size(None, None), TermSize { cols: 80, rows: 24 });
    assert_eq!(term_size(Some(100), None), TermSize { cols: 100, rows: 24 });
    assert_eq!(term_size(None, Some(30)), TermSize { cols: 80, rows: 30 });
}

#[test]
fn posix_shell_falls_back_to_bash() {
    assert_eq!(posix_shell(None), "/bin/bash");
    assert_eq!(posix_shell(Some("/usr/bin/fish".to_string())), "/usr/bin/fish");
}

#[test]
fn windows_shell_probe_order() {
    assert_eq!(windows_shell(true, true, None), "pwsh");
    assert_eq!(windows_shell(false, true, None), "powershell");
    assert_eq!(
        windows_shell(false, false, Some("C:\\Windows\\system32\\cmd.exe".to_string())),
        "C:\\Windows\\system32\\cmd.exe"
    );
    assert_eq!(windows_shell(false, false, None), "cmd.exe");
}

#[test]
fn posix_shells_are_login_shells() {
    assert_eq!(shell_args(&"/bin/bash".to_string(), Platform::Posix), strs(&["-l"]));
    assert_eq!(
        shell_args(&"/usr/bin/zsh".to_string(), Platform::Posix),
        strs(&["-o", "no_prompt_sp", "-l"])
    );
}

#[test]
fn powershell_gets_no_logo() {
    assert_eq!(shell_args(&"pwsh".to_string(), Platform::Windows), strs(&["-NoLogo", "-NoExit"]));
    assert_eq!(
        shell_args(&"powershell".to_string(), Platform::Windows),
        strs(&["-NoLogo", "-NoExit"])
    );
    assert_eq!(shell_args(&"cmd.exe".to_string(), Platform::Windows), strs(&[]));
}

#[test]
fn spawn_in_tmp_uses_login_shell() {
    let size = term_size(Some(100), Some(30));
    assert_eq!(size, TermSize { cols: 100, rows: 30 });
    let shell = posix_shell(Some("/bin/bash".to_string()));
    let cmd = build_command(shell, Some("/tmp".to_string()), Platform::Posix);
    assert_eq!(cmd.program, "/bin/bash");
    assert_eq!(cmd.args, strs(&["-l"]));
    assert_eq!(cmd.cwd, Some("/tmp".to_string()));
}
