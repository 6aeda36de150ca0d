use octoterm::launcher::cmdline::{
    env_var_names, expand_tilde, expand_windows_env, expand_windows_env_with,
    glue_unquoted_windows_exe, join_with_spaces, split_posix, split_windows,
};

#[test]
fn posix_quotes_and_escapes() {
    assert_eq!(split_posix("ssh prod01"), ["ssh", "prod01"]);
    assert_eq!(split_posix("  ssh   prod01  "), ["ssh", "prod01"]);
    assert_eq!(split_posix(""), Vec::<String>::new());
    assert_eq!(
        split_posix(r#"/bin/zsh -c 'echo "hi there"'"#),
        ["/bin/zsh", "-c", r#"echo "hi there""#]
    );
    assert_eq!(split_posix(r"ls /My\ Documents"), ["ls", "/My Documents"]);
    assert_eq!(split_posix(r#"say "a\"b""#), ["say", r#"a"b"#]);
    assert_eq!(split_posix(r#"cmd "" x"#), ["cmd", "", "x"]);
}

#[test]
fn posix_backslash_in_double_quotes_is_literal_before_ordinary_chars() {
    assert_eq!(split_posix(r#""a\nb""#), [r"a\nb"]);
    assert_eq!(split_posix(r#""\$HOME""#), ["$HOME"]);
    assert_eq!(split_posix(r"trailing\"), ["trailing"]);
    assert_eq!(split_posix("'unterminated"), ["unterminated"]);
}

#[test]
fn windows_argv0_does_not_treat_backslash_as_escape() {
    assert_eq!(
        split_windows(r#""C:\Program Files\PowerShell\7\pwsh.exe" -NoLogo"#),
        [r"C:\Program Files\PowerShell\7\pwsh.exe", "-NoLogo"]
    );
    assert_eq!(
        split_windows(r"C:\Windows\System32\cmd.exe /k echo hi"),
        [r"C:\Windows\System32\cmd.exe", "/k", "echo", "hi"]
    );
}

#[test]
fn windows_backslash_quote_rules() {
    assert_eq!(split_windows(r#"a b\\"c d""#), ["a", r"b\c d"]);
    assert_eq!(split_windows(r#"a b\"c"#), ["a", r#"b"c"#]);
    assert_eq!(split_windows(r"a b\c\d"), ["a", r"b\c\d"]);
    assert_eq!(split_windows(""), Vec::<String>::new());
}

#[test]
fn windows_empty_quoted_argument_and_unterminated_argv0() {
    assert_eq!(split_windows(r#"a "" b"#), ["a", "", "b"]);
    assert_eq!(split_windows(r#""C:\x y"#), [r"C:\x y"]);
    assert_eq!(split_windows(r#""" rest"#), ["rest"]);
}

#[test]
fn windows_env_expansion() {
    let env = |k: &str| match k {
        "SystemRoot" => Some(r"C:\Windows".to_string()),
        _ => None,
    };
    assert_eq!(
        expand_windows_env(r"%SystemRoot%\System32\cmd.exe", &env),
        r"C:\Windows\System32\cmd.exe"
    );
    assert_eq!(expand_windows_env("%NOPE%\\x", &env), "%NOPE%\\x");
    assert_eq!(expand_windows_env("100% sure", &env), "100% sure");
    assert_eq!(expand_windows_env("", &env), "");
}

#[test]
fn env_names_and_expansion_with_given_values() {
    assert_eq!(env_var_names("%A%x%%%B%"), ["A", "B"]);
    assert_eq!(
        expand_windows_env_with("%A%x%%%B%", &vec![Some("1".to_string()), None]),
        "1x%%%B%"
    );
}

#[test]
fn tilde_expansion_only_at_the_front() {
    let home = "/Users/hiro";
    assert_eq!(expand_tilde("~", Some(home)), "/Users/hiro");
    assert_eq!(expand_tilde("~/work", Some(home)), "/Users/hiro/work");
    assert_eq!(expand_tilde("/a/~/b", Some(home)), "/a/~/b");
    assert_eq!(expand_tilde("~work", Some(home)), "~work");
    assert_eq!(expand_tilde("~/work", None), "~/work");
}

#[test]
fn tilde_join_follows_unix_path_rules() {
    assert_eq!(expand_tilde("~/w", Some("/h/")), "/h/w");
    assert_eq!(expand_tilde("~//abs", Some("/h")), "/abs");
    assert_eq!(expand_tilde("~/", Some("/h")), "/h/");
}

fn exists_only(want: &'static str) -> impl Fn(&str) -> bool {
    move |p| p.eq_ignore_ascii_case(want)
}

#[test]
fn glue_reassembles_unquoted_program_files_git_bash() {
    let split = split_windows(r"C:\Program Files\Git\bin\bash.exe -li");
    assert_eq!(split, [r"C:\Program", r"Files\Git\bin\bash.exe", "-li"]);
    assert_eq!(
        glue_unquoted_windows_exe(split, &exists_only(r"C:\Program Files\Git\bin\bash.exe")),
        [r"C:\Program Files\Git\bin\bash.exe", "-li"]
    );
}

#[test]
fn glue_keeps_already_quoted_paths() {
    let split = split_windows(r#""C:\Program Files\Git\bin\bash.exe" -li"#);
    assert_eq!(
        glue_unquoted_windows_exe(split, &exists_only(r"C:\Program Files\Git\bin\bash.exe")),
        [r"C:\Program Files\Git\bin\bash.exe", "-li"]
    );
}

#[test]
fn glue_leaves_argv_alone_when_no_file_matches() {
    let split = split_windows(r"C:\Program Files\Git\bin\bash.exe -li");
    assert_eq!(glue_unquoted_windows_exe(split.clone(), &|_| false), split);
}

#[test]
fn glue_does_not_touch_bare_program_names() {
    let argv = vec!["wsl.exe".into(), "-d".into(), "Ubuntu".into()];
    assert_eq!(
        glue_unquoted_windows_exe(argv, &|p| p == "wsl.exe -d"),
        ["wsl.exe", "-d", "Ubuntu"]
    );
}

#[test]
fn glue_appends_exe_like_createprocess() {
    let split = split_windows(r"C:\Program Files\Git\bin\bash -li");
    assert_eq!(
        glue_unquoted_windows_exe(split, &exists_only(r"C:\Program Files\Git\bin\bash.exe")),
        [r"C:\Program Files\Git\bin\bash.exe", "-li"]
    );
}

#[test]
fn glue_stops_at_the_first_existing_file() {
    let argv = vec![r"C:\Windows\System32\cmd.exe".into(), "/c".into(), "echo".into()];
    assert_eq!(
        glue_unquoted_windows_exe(argv, &exists_only(r"C:\Windows\System32\cmd.exe")),
        [r"C:\Windows\System32\cmd.exe", "/c", "echo"]
    );
}

#[test]
fn glue_of_an_empty_argv_is_empty() {
    assert!(glue_unquoted_windows_exe(Vec::new(), &|_| true).is_empty());
}

#[test]
fn join_with_spaces_matches_join() {
    let w = vec!["a".to_string(), "b c".to_string(), "".to_string()];
    assert_eq!(join_with_spaces(&w), "a b c ");
    assert_eq!(join_with_spaces(&[]), "");
}

#[test]
fn lines_without_quotes_split_at_whitespace() {
    let s = r"  C:\tools\x.exe  -a\b   c$d*  ";
    let ws: Vec<String> = s.split_whitespace().map(String::from).collect();
    assert_eq!(split_windows(s), ws);
    let s = "  ls   -la $HOME   a*b|c ";
    let ws: Vec<String> = s.split_whitespace().map(String::from).collect();
    assert_eq!(split_posix(s), ws);
}

#[test]
fn the_shortest_prefix_naming_a_file_wins() {
    let argv: Vec<String> = vec![r"C:\Program".into(), r"Files\Git\bin\bash".into(), "-li".into()];
    let is_file = |p: &str| p == r"C:\Program Files\Git\bin\bash.exe" || p == r"C:\Program Files\Git\bin\bash -li.exe";
    assert_eq!(
        glue_unquoted_windows_exe(argv, &is_file),
        vec![r"C:\Program Files\Git\bin\bash.exe".to_string(), "-li".to_string()]
    );
}
