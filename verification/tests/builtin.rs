use std::path::Path;

use octoterm::launcher::builtin::{default_command, discover_unix, discover_windows, stem};

fn discover() -> Vec<octoterm::launcher::Launcher> {
    discover_unix(None)
}

#[test]
fn discover_is_never_empty_and_ids_are_prefixed() {
    let out = discover();
    assert!(!out.is_empty());
    for l in &out {
        assert!(l.id.starts_with("builtin:"), "{}", l.id);
        assert!(!l.command.is_empty());
        assert!(!l.name.is_empty());
    }
}

#[test]
fn default_command_program_is_usable() {
    let argv = default_command(&discover());
    assert!(!argv.is_empty());
    let program = Path::new(&argv[0]);
    assert!(
        program.is_absolute() && program.exists(),
        "默认 shell 必须是存在的绝对路径,实际是 {argv:?}"
    );
}

#[test]
fn default_command_matches_first_menu_entry() {
    assert_eq!(default_command(&discover()), discover()[0].command);
}

#[test]
fn stem_takes_the_program_name() {
    assert_eq!(stem("/bin/zsh"), "zsh");
}

#[test]
fn stem_edge_cases() {
    assert_eq!(stem("/usr/local/bin/fish.sh"), "fish");
    assert_eq!(stem("/home/u/.bashrc"), ".bashrc");
    assert_eq!(stem("/bin/zsh/"), "zsh");
    assert_eq!(stem("a.b.c"), "a.b");
    assert_eq!(stem("/"), "/");
    assert_eq!(stem("/usr/.."), "/usr/..");
}

#[test]
fn unset_shell_falls_back_to_bin_sh() {
    let out = discover_unix(None);
    assert_eq!(out.len(), 1);
    assert_eq!(out[0].id, "builtin:default");
    assert_eq!(out[0].name, "sh");
    assert_eq!(out[0].command, ["/bin/sh"]);
    assert_eq!(default_command(&[]), ["/bin/sh"]);
}

#[test]
fn windows_builtins_prefer_absolute_paths() {
    let exists = |p: &str| p == r"C:\Windows\System32\WindowsPowerShell\v1.0\powershell.exe";
    let out = discover_windows(Some(r"C:\Windows".into()), Some(r"D:\missing\cmd.exe".into()), &exists);
    assert_eq!(out.len(), 2);
    assert_eq!(out[0].id, "builtin:powershell");
    assert_eq!(
        out[0].command,
        [r"C:\Windows\System32\WindowsPowerShell\v1.0\powershell.exe", "-NoLogo"]
    );
    assert_eq!(out[1].id, "builtin:cmd");
    assert_eq!(out[1].name, "cmd");
    assert_eq!(out[1].command, [r"C:\Windows\System32\cmd.exe"]);
    let none = discover_windows(None, None, &|_: &str| false);
    assert_eq!(none.len(), 1);
    assert_eq!(none[0].command, [r"C:\Windows\System32\cmd.exe"]);
}
