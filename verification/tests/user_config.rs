use std::path::Path;

use octoterm::config::LauncherSpec;
use octoterm::launcher::user_config::build;

fn spec(name: &str, command: &[&str], cwd: Option<&str>) -> LauncherSpec {
    LauncherSpec {
        name: name.into(),
        command: command.iter().map(|s| s.to_string()).collect(),
        cwd: cwd.map(|s| s.into()),
    }
}

#[test]
fn builds_launchers_with_tilde_expanded_cwd() {
    let out = build(&[spec("prod ssh", &["ssh", "prod01"], Some("~/work"))], Path::new("/home/h").to_str());
    assert_eq!(out.len(), 1);
    assert_eq!(out[0].id, "config:prod ssh");
    assert_eq!(out[0].name, "prod ssh");
    assert_eq!(out[0].command, ["ssh", "prod01"]);
    assert_eq!(out[0].cwd.as_deref(), Some("/home/h/work"));
    assert_eq!(out[0].detail, "ssh prod01");
}

#[test]
fn empty_command_is_skipped_not_fatal() {
    let out = build(
        &[spec("坏的", &[], None), spec("好的", &["sh"], None), spec("也坏", &[" "], None)],
        None,
    );
    assert_eq!(out.len(), 1);
    assert_eq!(out[0].name, "好的");
}

#[test]
fn blank_name_falls_back_to_the_program() {
    let out = build(&[spec("  ", &["htop"], None)], None);
    assert_eq!(out[0].name, "htop");
    assert_eq!(out[0].id, "config:htop");
}

#[test]
fn cwd_without_home_is_kept_as_written() {
    let out = build(&[spec("w", &["sh"], Some("~/work"))], None);
    assert_eq!(out[0].cwd.as_deref(), Some("~/work"));
}
