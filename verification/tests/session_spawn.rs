use octoterm::launcher::builtin::discover_unix;
use octoterm::session::spawn::{cwd_candidates, pick_default_cwd, plan_spawn, Launch, SpawnError};

fn never(_: &str) -> bool {
    false
}

#[test]
fn empty_command_is_rejected() {
    let launch = Launch { command: Some(vec![]), cwd: None };
    let err = plan_spawn(launch, &[], false, &never, &never, None, true).err().expect("empty command should fail");
    assert_eq!(err, SpawnError::EmptyCommand);
    assert!(err.message().contains("empty command"));
    let launch = Launch { command: Some(vec![String::new(), "-l".into()]), cwd: None };
    assert!(plan_spawn(launch, &[], false, &never, &never, None, true).is_err());
}

#[test]
fn nonexistent_cwd_falls_back_instead_of_failing() {
    let launch = Launch { command: None, cwd: Some("/definitely/not/a/real/dir/for/octoterm".into()) };
    let plan = plan_spawn(launch, &discover_unix(Some("/bin/zsh".into())), false, &never, &never, Some("/home/u".into()), true)
        .expect("spawn should survive a bad cwd");
    assert_eq!(plan.cwd.as_deref(), Some("/home/u"));
    assert_eq!(plan.argv, vec!["/bin/zsh".to_string()]);
}

#[test]
fn an_existing_cwd_is_kept() {
    let launch = Launch { command: Some(vec!["vim".into()]), cwd: Some("/work".into()) };
    let plan = plan_spawn(launch, &[], false, &never, &|p: &str| p == "/work", Some("/home/u".into()), true).unwrap();
    assert_eq!(plan.cwd.as_deref(), Some("/work"));
    assert_eq!(plan.argv, vec!["vim".to_string()]);
    assert_eq!(
        plan.env,
        vec![
            ("TERM".to_string(), "xterm-256color".to_string()),
            ("COLORTERM".to_string(), "truecolor".to_string())
        ]
    );
}

#[test]
fn no_default_shell_falls_back_to_bin_sh() {
    let plan = plan_spawn(Launch::default(), &[], false, &never, &never, None, true).unwrap();
    assert_eq!(plan.argv, vec!["/bin/sh".to_string()]);
    assert_eq!(plan.cwd, None);
}

#[test]
fn spawn_glues_unquoted_git_bash_path() {
    let bash = r"C:\Program Files\Git\bin\bash.exe";
    let launch = Launch {
        command: Some(vec![r"C:\Program".into(), r"Files\Git\bin\bash.exe".into(), "-lc".into(), "exit 0".into()]),
        cwd: None,
    };
    let plan = plan_spawn(launch, &[], true, &|p: &str| p == bash, &never, Some(r"C:\Users\u".into()), false).unwrap();
    assert_eq!(plan.argv, vec![bash.to_string(), "-lc".to_string(), "exit 0".to_string()]);
    assert_eq!(plan.env[0], ("HOME".to_string(), r"C:\Users\u".to_string()));
    assert_eq!(plan.env.len(), 3);
}

#[test]
fn default_cwd_is_existing_dir() {
    let cands = cwd_candidates(true, Some(r"C:\Users\gone".into()), Some("C:".into()), Some(r"\Users\u".into()), Some("/c/Users/u".into()), None);
    assert_eq!(cands, vec![r"C:\Users\gone".to_string(), r"C:\Users\u".to_string(), "/c/Users/u".to_string()]);
    let dirs = [r"C:\Users\u", r"D:\cur"];
    let is_dir = |p: &str| dirs.contains(&p);
    assert_eq!(pick_default_cwd(&cands, Some(r"D:\cur".into()), &is_dir).as_deref(), Some(r"C:\Users\u"));
    assert_eq!(pick_default_cwd(&vec![], Some(r"D:\cur".into()), &is_dir).as_deref(), Some(r"D:\cur"));
    assert_eq!(pick_default_cwd(&vec![], Some("/nope".into()), &is_dir), None);
    let unix = cwd_candidates(false, Some("x".into()), Some("C:".into()), Some("y".into()), Some("/home/u".into()), Some("/home/u".into()));
    assert_eq!(unix, vec!["/home/u".to_string(), "/home/u".to_string()]);
}
