use octoterm::agent::hook_cli::{request_head, should_forward};
use octoterm::agent::claude_transcript::parse_ts;
use octoterm::agent::transcript::flatten_tool_input;
use octoterm::json::Json;
use octoterm::agent::hook_cli::{response_body, split_url};

#[test]
fn epoch_and_a_known_date_round_trip() {
    assert_eq!(parse_ts("1970-01-01T00:00:00.000Z"), Some(0));
    assert_eq!(parse_ts("2026-08-21T00:00:00.000Z"), Some(1_787_270_400));
    assert_eq!(parse_ts("not a timestamp"), None);
}

#[test]
fn extracts_body_from_a_normal_response() {
    let raw = b"HTTP/1.1 200 OK\r\nContent-Length: 2\r\n\r\n{}";
    assert_eq!(response_body(raw), b"{}");
}

#[test]
fn non_2xx_yields_no_output() {
    let raw = b"HTTP/1.1 401 Unauthorized\r\nContent-Length: 12\r\n\r\nunauthorized";
    assert!(response_body(raw).is_empty());
}

#[test]
fn truncated_response_yields_no_output() {
    assert!(response_body(b"HTTP/1.1 200 OK").is_empty());
}

#[test]
fn only_loopback_urls_are_accepted() {
    assert!(split_url("http://127.0.0.1:7683/hook/codex/stop").is_some());
    for bad in [
        "https://127.0.0.1:7683/hook/codex/stop",
        "http://10.0.0.1:7683/hook/codex/stop",
        "http://127.0.0.1:notaport/hook/codex/stop",
        "http://127.0.0.1:7683",
    ] {
        assert!(split_url(bad).is_none(), "不该接受: {bad}");
    }
}

#[test]
fn split_url_gives_address_and_path() {
    assert_eq!(
        split_url("http://127.0.0.1:7683/hook/codex/stop"),
        Some(("127.0.0.1:7683".to_string(), "/hook/codex/stop".to_string()))
    );
    assert_eq!(split_url("http://127.0.0.1:70000/x"), None);
    assert_eq!(split_url("http://127.0.0.1:1/"), Some(("127.0.0.1:1".to_string(), "/".to_string())));
}

#[test]
fn response_body_keeps_bytes_after_the_head() {
    let raw = b"HTTP/1.1 204 No Content\r\nA: b\r\n\r\nx\r\n\r\ny";
    assert_eq!(response_body(raw), b"x\r\n\r\ny");
    assert!(response_body(b"HTTP/1.1 300 Multiple\r\n\r\nbody").is_empty());
    assert!(response_body(b"garbage\r\n\r\nbody").is_empty());
}

#[test]
fn timestamps_are_checked_field_by_field() {
    assert_eq!(parse_ts("2000-02-29T12:34:56Z"), Some(951_827_696));
    assert_eq!(parse_ts("1969-12-31T23:59:59Z"), None);
}

use octoterm::agent::transcript::{clamp_text, MAX_BLOCK_BYTES};

#[test]
fn short_text_is_untouched() {
    assert_eq!(clamp_text("hi".into()), "hi");
}

#[test]
fn long_text_is_truncated_and_marked() {
    let out = clamp_text("x".repeat(MAX_BLOCK_BYTES * 2));
    assert!(out.len() < MAX_BLOCK_BYTES + 64);
    assert!(out.ends_with("(已截断)"));
}

#[test]
fn truncation_respects_char_boundaries() {
    let out = clamp_text("中".repeat(MAX_BLOCK_BYTES));
    assert!(out.is_char_boundary(0));
    let _ = out.chars().count();
}

#[test]
fn the_cut_lands_on_the_last_boundary_that_fits() {
    let out = clamp_text("中".repeat(MAX_BLOCK_BYTES));
    assert_eq!(out, "中".repeat(MAX_BLOCK_BYTES / 3) + "\n…(已截断)");
    let exact = "x".repeat(MAX_BLOCK_BYTES);
    assert_eq!(clamp_text(exact.clone()), exact);
}

fn obj(members: Vec<(&str, Json)>) -> Json {
    Json::Object(members.into_iter().map(|(k, v)| (k.to_string(), v)).collect())
}

fn s(t: &str) -> Json {
    Json::Str(t.to_string())
}

#[test]
fn tool_input_prefers_the_human_readable_field() {
    let v = obj(vec![("command", s("ls -la")), ("description", s("列目录"))]);
    assert_eq!(flatten_tool_input(&v), "ls -la");
    let v = obj(vec![("file_path", s("/etc/hosts"))]);
    assert_eq!(flatten_tool_input(&v), "/etc/hosts");
}

#[test]
fn unknown_shape_falls_back_to_compact_json() {
    let v = obj(vec![(
        "weird",
        Json::Array(vec![Json::Number("1".to_string()), Json::Number("2".to_string())]),
    )]);
    assert_eq!(flatten_tool_input(&v), r#"{"weird":[1,2]}"#);
}

#[test]
fn a_plain_string_input_is_taken_as_it_is() {
    assert_eq!(flatten_tool_input(&s("echo hi")), "echo hi");
}

#[test]
fn a_non_string_readable_field_is_passed_over() {
    let v = obj(vec![("command", Json::Bool(true)), ("path", s("/tmp"))]);
    assert_eq!(flatten_tool_input(&v), "/tmp");
}

#[test]
fn the_hook_client_posts_a_fixed_request_head() {
    assert_eq!(
        request_head("/hook/codex/stop", "127.0.0.1:7683", "k", "42", 2),
        "POST /hook/codex/stop HTTP/1.1\r\nHost: 127.0.0.1:7683\r\nAuthorization: Bearer k\r\nX-Octoterm-Session: 42\r\nContent-Type: application/json\r\nContent-Length: 2\r\nConnection: close\r\n\r\n"
    );
    assert!(should_forward(Some("42"), Some("k")));
    assert!(!should_forward(None, Some("k")));
    assert!(!should_forward(Some(""), Some("k")));
    assert!(!should_forward(Some("42"), None));
}
