use octoterm::agent::edit::{
    apply_to_json, event_of_slug, is_ours, is_ours_any_port, slug_of_event, EditError, EditOp,
};
use octoterm::json::Json;

#[test]
fn slug_roundtrips() {
    for e in ["SessionStart", "PermissionRequest", "Stop", "PreToolUse"] {
        assert_eq!(event_of_slug(&slug_of_event(e)), e, "转写必须是双射");
    }
}

#[test]
fn slugs_are_lowercase_with_dashes() {
    assert_eq!(slug_of_event("SessionStart"), "session-start");
    assert_eq!(slug_of_event("PreToolUse"), "pre-tool-use");
    assert_eq!(event_of_slug("user-prompt-submit"), "UserPromptSubmit");
    assert_eq!(event_of_slug("a--b"), "AB");
}


fn from_value(v: &serde_json::Value) -> Json {
    match v {
        serde_json::Value::Null => Json::Null,
        serde_json::Value::Bool(b) => Json::Bool(*b),
        serde_json::Value::Number(n) => Json::Number(n.to_string()),
        serde_json::Value::String(s) => Json::Str(s.clone()),
        serde_json::Value::Array(a) => Json::Array(a.iter().map(from_value).collect()),
        serde_json::Value::Object(o) => Json::Object(o.iter().map(|(k, x)| (k.clone(), from_value(x))).collect()),
    }
}

fn to_value(j: &Json) -> serde_json::Value {
    match j {
        Json::Null => serde_json::Value::Null,
        Json::Bool(b) => serde_json::Value::Bool(*b),
        Json::Number(n) => serde_json::Value::Number(n.parse().unwrap()),
        Json::Str(s) => serde_json::Value::String(s.clone()),
        Json::Array(a) => serde_json::Value::Array(a.iter().map(to_value).collect()),
        Json::Object(o) => serde_json::Value::Object(o.iter().map(|(k, x)| (k.clone(), to_value(x))).collect()),
    }
}

fn json(text: &str) -> Json {
    from_value(&serde_json::from_str(text).unwrap())
}

fn compact(j: &Json) -> String {
    serde_json::to_string(&to_value(j)).unwrap()
}

fn ours(port: u16) -> Json {
    json(&format!(
        r#"{{"type":"http","url":"http://127.0.0.1:{port}/hook/codex/stop","timeout":5}}"#
    ))
}

#[test]
fn only_our_exact_url_shape_is_ours() {
    assert!(is_ours(&ours(7683), 7683));
    assert!(!is_ours(&ours(7683), 9000));
    assert!(is_ours_any_port(&ours(9000)));
    for bad in [
        r#"{"type":"command","url":"http://127.0.0.1:7683/hook/codex/stop"}"#,
        r#"{"type":"http","url":"http://127.0.0.1:7683/hook/codex/stop?x=1"}"#,
        r#"{"type":"http","url":"http://localhost:7683/hook/codex/stop"}"#,
        r#"{"type":"http","url":"http://127.0.0.1:7683/hook/Codex/stop"}"#,
        r#"{"type":"http","url":"http://127.0.0.1:7683/hook/codex/stop/extra"}"#,
        r#"{"type":"http","url":"http://127.0.0.1:7683/approve/codex/stop"}"#,
        r#"{"type":"http"}"#,
    ] {
        assert!(!is_ours_any_port(&json(bad)), "{bad}");
    }
}

#[test]
fn ensure_keeps_the_users_entries_and_adds_one_group() {
    let mut doc = json(
        r#"{"theme":"dark","hooks":{"Stop":[{"matcher":"","hooks":[{"type":"command","command":"notify"}]}]}}"#,
    );
    let op = EditOp::EnsureHook { event: "Stop".into(), spec: ours(7683) };
    apply_to_json(&mut doc, &op).unwrap();
    let want = json(&format!(
        r#"{{"theme":"dark","hooks":{{"Stop":[{{"matcher":"","hooks":[{{"type":"command","command":"notify"}}]}},{{"matcher":"","hooks":[{}]}}]}}}}"#,
        r#"{"type":"http","url":"http://127.0.0.1:7683/hook/codex/stop","timeout":5}"#
    ));
    assert_eq!(doc, want);
    let once = want;
    apply_to_json(&mut doc, &op).unwrap();
    assert_eq!(doc, once, "applying twice converges");
}

#[test]
fn removing_leaves_no_trace_and_keeps_user_groups() {
    let mut doc = json(r#"{"a":1}"#);
    let install = EditOp::EnsureHook { event: "Stop".into(), spec: ours(7683) };
    apply_to_json(&mut doc, &install).unwrap();
    assert_ne!(doc, json(r#"{"a":1}"#));
    apply_to_json(&mut doc, &EditOp::RemoveOurs { event: "Stop".into() }).unwrap();
    assert_eq!(doc, json(r#"{"a":1}"#));

    let mut doc = json(r#"{"hooks":{"Stop":[{"matcher":"","hooks":[]}]}}"#);
    apply_to_json(&mut doc, &EditOp::RemoveOurs { event: "Stop".into() }).unwrap();
    assert_eq!(doc, json(r#"{"hooks":{"Stop":[{"matcher":"","hooks":[]}]}}"#));
}

#[test]
fn old_ports_are_removed_too() {
    let mut doc = json(&format!(
        r#"{{"hooks":{{"Stop":[{{"matcher":"","hooks":[{}]}}]}}}}"#,
        r#"{"type":"http","url":"http://127.0.0.1:1111/hook/codex/stop"}"#
    ));
    apply_to_json(&mut doc, &EditOp::RemoveOurs { event: "Stop".into() }).unwrap();
    assert_eq!(doc, json("{}"));
}

#[test]
fn malformed_configs_are_reported() {
    let op = EditOp::EnsureHook { event: "Stop".into(), spec: ours(7683) };
    let mut doc = json("[]");
    assert_eq!(apply_to_json(&mut doc, &op), Err(EditError::RootNotObject));
    let mut doc = json(r#"{"hooks":[]}"#);
    assert_eq!(apply_to_json(&mut doc, &op), Err(EditError::HooksNotObject));
    let mut doc = json(r#"{"hooks":{"Stop":{}}}"#);
    assert_eq!(
        apply_to_json(&mut doc, &op),
        Err(EditError::EventNotArray { event: "Stop".into() })
    );
    assert_eq!(EditError::HooksNotObject.message(), "`hooks` 不是 JSON 对象");
}

fn ensure_op() -> EditOp {
    EditOp::EnsureHook { event: "Stop".into(), spec: ours(7683) }
}

fn remove_op() -> EditOp {
    EditOp::RemoveOurs { event: "Stop".into() }
}

#[test]
fn uninstall_after_install_restores_the_document() {
    let original =
        r#"{"x":1,"hooks":{"Stop":[{"matcher":"","hooks":[{"type":"command","command":"theirs"}]}],"Other":[]}}"#;
    let mut d = json(original);
    apply_to_json(&mut d, &ensure_op()).unwrap();
    apply_to_json(&mut d, &remove_op()).unwrap();
    assert_eq!(compact(&d), original);
    let mut e = json(r#"{"x":1}"#);
    apply_to_json(&mut e, &ensure_op()).unwrap();
    apply_to_json(&mut e, &remove_op()).unwrap();
    assert_eq!(compact(&e), r#"{"x":1}"#);
}

#[test]
fn installing_twice_is_installing_once_on_the_json() {
    for original in [r#"{"x":1}"#, r#"{"hooks":{"Stop":[{"hooks":[{"type":"command","command":"theirs"}]}]},"x":1}"#] {
        let mut once = json(original);
        apply_to_json(&mut once, &ensure_op()).unwrap();
        let mut twice = json(&compact(&once));
        apply_to_json(&mut twice, &ensure_op()).unwrap();
        assert_eq!(compact(&twice), compact(&once));
    }
}

#[test]
fn an_empty_hooks_object_moves_to_the_end_once() {
    // the one shape where a second install differs: the user's empty `hooks` is
    // removed with our entry and recreated at the end; a third install changes nothing
    let mut d = json(r#"{"hooks":{},"x":1}"#);
    apply_to_json(&mut d, &ensure_op()).unwrap();
    let first = compact(&d);
    assert!(first.starts_with(r#"{"hooks""#));
    apply_to_json(&mut d, &ensure_op()).unwrap();
    let second = compact(&d);
    assert!(second.starts_with(r#"{"x":1,"hooks""#));
    apply_to_json(&mut d, &ensure_op()).unwrap();
    assert_eq!(compact(&d), second);
}
