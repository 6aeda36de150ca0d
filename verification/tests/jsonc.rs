use octoterm::launcher::jsonc::strip;

#[test]
fn plain_json_passes_through_unchanged() {
    let src = r#"{"a":[1,2],"b":"c"}"#;
    assert_eq!(strip(src), src);
}

#[test]
fn removes_line_and_block_comments() {
    let out = strip("{\n // c\n \"a\": 1, /* b */\n \"b\": 2\n}");
    assert_eq!(out, "{\n \n \"a\": 1,  \n \"b\": 2\n}");
}

#[test]
fn removes_trailing_commas_in_objects_and_arrays() {
    assert_eq!(strip(r#"{ "list": [1, 2, 3,], "x": 1, }"#), r#"{ "list": [1, 2, 3], "x": 1 }"#);
}

#[test]
fn does_not_touch_comment_like_text_inside_strings() {
    let src = r#"{ "cmd": "wsl.exe -d Ubuntu // not a comment", "u": "http://x/*y*/" }"#;
    assert_eq!(strip(src), src);
}

#[test]
fn escaped_quotes_and_backslashes_do_not_break_string_tracking() {
    assert_eq!(
        strip(r#"{ "p": "C:\\path\\", "q": "he said \"hi\"" } // x"#),
        r#"{ "p": "C:\\path\\", "q": "he said \"hi\"" } "#
    );
}

#[test]
fn commas_inside_strings_survive() {
    assert_eq!(strip(r#"{ "a": "x,]" }"#), r#"{ "a": "x,]" }"#);
}

#[test]
fn a_block_comment_becomes_a_space_and_keeps_its_newlines() {
    assert_eq!(strip("1/*x*/2"), "1 2");
    assert_eq!(strip("1/*a\nb*/2"), "1\n 2");
    assert_eq!(strip("1/* unterminated"), "1 ");
}

#[test]
fn line_count_is_preserved() {
    let src = "{\n// a\n\"x\": 1, /* b\n c */\n}\n";
    let out = strip(src);
    assert_eq!(out.matches('\n').count(), src.matches('\n').count());
}
