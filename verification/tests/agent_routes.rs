use octoterm::agent::codex::{detect, has_entries_besides};
use octoterm::agent::Confidence;
use octoterm::agent::apply::{distinct_paths, plan_file, render, ApplyError};
use octoterm::agent::codex::{
    command_for, hook_spec, hooks_path, integration, is_blocking, parse, plan_install, plan_uninstall,
    render as render_decision, state_of,
};
use octoterm::agent::edit::{ConfigEdit, EditOp, InstallCtx};
use octoterm::agent::routes::{
    admit_hook, answer_status, apply_reply, decision_of, describe, include_blocking_for, log_due, open_pending,
    pending_request, plan_reply, wants_blocking, AnswerBody, HookAdmission, Ignored,
};
use octoterm::agent::apply::Outcome;
use octoterm::agent::store::{AnswerResult, Decision};
use octoterm::agent::{find, is_known_agent, registry, AgentAdapter, Integration};
use octoterm::json::Json;
use octoterm::protocol::messages::AgentState;


fn from_value(v: &serde_json::Value) -> Json {
    match v {
        serde_json::Value::Null => Json::Null,
        serde_json::Value::Bool(b) => Json::Bool(*b),
        serde_json::Value::Number(n) => Json::Number(n.to_string()),
        serde_json::Value::String(s) => Json::Str(s.clone()),
        serde_json::Value::Array(a) => Json::Array(a.iter().map(from_value).collect()),
        serde_json::Value::Object(o) => Json::Object(o.iter().map(|(k, x)| (k.clone(), from_value(x))).collect()),
    }
}

fn to_value(j: &Json) -> serde_json::Value {
    match j {
        Json::Null => serde_json::Value::Null,
        Json::Bool(b) => serde_json::Value::Bool(*b),
        Json::Number(n) => serde_json::Value::Number(n.parse().unwrap()),
        Json::Str(s) => serde_json::Value::String(s.clone()),
        Json::Array(a) => serde_json::Value::Array(a.iter().map(to_value).collect()),
        Json::Object(o) => serde_json::Value::Object(o.iter().map(|(k, x)| (k.clone(), to_value(x))).collect()),
    }
}

fn json(text: &str) -> Json {
    from_value(&serde_json::from_str(text).unwrap())
}

fn compact(j: &Json) -> String {
    serde_json::to_string(&to_value(j)).unwrap()
}

fn call(loopback: bool, auth: Option<&str>, session: Option<&str>, agent: &str, body: &[u8]) -> HookAdmission {
    admit_hook(loopback, auth, "k3y", session, agent, "pre-tool-use", body)
}

#[test]
fn a_hook_call_from_another_host_is_forbidden() {
    assert!(matches!(call(false, Some("Bearer k3y"), Some("1"), "codex", b"{}"), HookAdmission::Forbidden));
}

#[test]
fn unrecognised_hook_calls_are_quietly_ignored() {
    assert!(matches!(call(true, None, Some("1"), "codex", b"{}"), HookAdmission::Ignored(Ignored::NoOrBadToken)));
    assert!(matches!(
        call(true, Some("Bearer nope"), Some("1"), "codex", b"{}"),
        HookAdmission::Ignored(Ignored::NoOrBadToken)
    ));
    assert!(matches!(call(true, Some("k3y"), Some("1"), "codex", b"{}"), HookAdmission::Ignored(Ignored::NoOrBadToken)));
    assert!(matches!(call(true, Some("Bearer k3y"), None, "codex", b"{}"), HookAdmission::Ignored(Ignored::NoSessionHeader)));
    assert!(matches!(
        call(true, Some("Bearer k3y"), Some("x1"), "codex", b"{}"),
        HookAdmission::Ignored(Ignored::NoSessionHeader)
    ));
    assert!(matches!(call(true, Some("Bearer k3y"), Some("1"), "grok", b"{}"), HookAdmission::Ignored(Ignored::UnknownAgent)));
    assert!(matches!(call(true, Some("Bearer k3y"), Some("1"), "codex", b"{oops"), HookAdmission::Ignored(Ignored::BadJson)));
}

#[test]
fn an_admitted_call_carries_its_session_event_and_agent_session() {
    match call(true, Some("Bearer k3y"), Some("42"), "codex", br#"{"session_id":"abc","tool_name":"Bash"}"#) {
        HookAdmission::Admitted { session, event, agent_session_id, payload } => {
            assert_eq!(session, 42);
            assert_eq!(event, "PreToolUse");
            assert_eq!(agent_session_id, "abc");
            assert_eq!(compact(&payload), r#"{"session_id":"abc","tool_name":"Bash"}"#);
        }
        _ => panic!("expected the call to be admitted"),
    }
}

#[test]
fn an_empty_body_is_an_empty_object_with_the_default_session() {
    match call(true, Some("Bearer k3y"), Some("+7"), "codex", b"") {
        HookAdmission::Admitted { session, agent_session_id, payload, .. } => {
            assert_eq!(session, 7);
            assert_eq!(agent_session_id, "default");
            assert_eq!(compact(&payload), "{}");
        }
        _ => panic!("expected the call to be admitted"),
    }
}

#[test]
fn answers_map_to_decisions_and_unknown_words_are_refused() {
    let body = |d: &str| AnswerBody { pending_id: "p1".into(), decision: d.into(), message: Some("m".into()) };
    assert_eq!(
        decision_of(body("allow")),
        Ok(Decision::Allow { message: Some("m".into()), updated_input: None })
    );
    assert_eq!(decision_of(body("deny")), Ok(Decision::Deny { message: Some("m".into()) }));
    assert_eq!(decision_of(body("maybe")), Err("unknown decision: maybe".to_string()));
}

#[test]
fn answer_outcomes_have_distinct_statuses() {
    assert_eq!(answer_status(AnswerResult::Recorded), 200);
    assert_eq!(answer_status(AnswerResult::NotFound), 404);
    assert_eq!(answer_status(AnswerResult::AlreadyAnswered), 409);
}

#[test]
fn ignored_calls_are_logged_once_a_minute() {
    assert!(log_due(100, 0));
    assert!(!log_due(100, 41));
    assert!(log_due(101, 41));
    assert!(!log_due(5, 10));
}

#[test]
fn blocking_hooks_are_installed_only_without_conflicts_unless_asked() {
    assert!(wants_blocking(None, "codex", &vec![]));
    assert!(!wants_blocking(None, "codex", &vec!["x".to_string()]));
    assert!(!wants_blocking(None, "grok", &vec![]));
    assert!(wants_blocking(Some(true), "grok", &vec!["x".to_string()]));
    assert!(!wants_blocking(Some(false), "codex", &vec![]));
}

#[test]
fn only_codex_is_known() {
    assert!(is_known_agent("codex"));
    assert!(!is_known_agent("Codex"));
    assert!(find("codex").is_some());
    assert!(find("grok").is_none());
}

#[test]
fn codex_maps_events_to_states() {
    assert_eq!(state_of("SessionStart"), Some(AgentState::Idle));
    assert_eq!(state_of("SessionEnd"), Some(AgentState::Done));
    assert_eq!(state_of("UserPromptSubmit"), Some(AgentState::Thinking));
    assert_eq!(state_of("PostToolUse"), Some(AgentState::Working));
    assert_eq!(state_of("Stop"), Some(AgentState::Idle));
    assert_eq!(state_of("PermissionRequest"), None);
    assert!(is_blocking("PermissionRequest"));
    assert!(!is_blocking("Stop"));
}

#[test]
fn codex_parse_takes_the_tool_name_only_on_tool_events() {
    let body = json(r#"{"tool_name":"Bash","cwd":"/w"}"#);
    let u = parse("PreToolUse", &body).unwrap();
    assert_eq!(u.state, Some(AgentState::Working));
    assert_eq!(u.detail.as_deref(), Some("Bash"));
    assert_eq!(u.cwd.as_deref(), Some("/w"));
    assert_eq!(u.title, None);
    let u = parse("Stop", &body).unwrap();
    assert_eq!(u.detail, None);
    assert!(parse("Whatever", &body).is_none());
}

#[test]
fn codex_renders_decisions_in_the_permission_envelope() {
    assert_eq!(compact(&render_decision(&Decision::NoDecision)), "{}");
    assert_eq!(
        compact(&render_decision(&Decision::Allow { message: Some("ok".into()), updated_input: Some(json(r#"{"a":1}"#)) })),
        r#"{"hookSpecificOutput":{"hookEventName":"PermissionRequest","decision":{"behavior":"allow","message":"ok","updatedInput":{"a":1}}}}"#
    );
    assert_eq!(
        compact(&render_decision(&Decision::Deny { message: None })),
        r#"{"hookSpecificOutput":{"hookEventName":"PermissionRequest","decision":{"behavior":"deny"}}}"#
    );
}

fn ctx(include_blocking: bool) -> InstallCtx {
    InstallCtx { home: "/home/u".into(), exe: "/opt/octoterm".into(), port: 7683, include_blocking }
}

#[test]
fn codex_hooks_run_this_binary_with_the_hook_url() {
    assert_eq!(
        command_for("/opt/octoterm", 7683, "PreToolUse"),
        "\"/opt/octoterm\" hook http://127.0.0.1:7683/hook/codex/pre-tool-use"
    );
    assert_eq!(hooks_path("/home/u"), "/home/u/.codex/hooks.json");
    assert_eq!(hooks_path("/home/u/"), "/home/u/.codex/hooks.json");
    assert_eq!(
        compact(&hook_spec("/x", 1, "Stop", false)),
        r#"{"type":"command","command":"\"/x\" hook http://127.0.0.1:1/hook/codex/stop","timeout":30}"#
    );
    assert_eq!(
        compact(&hook_spec("/x", 1, "PermissionRequest", true)),
        r#"{"type":"command","command":"\"/x\" hook http://127.0.0.1:1/hook/codex/permission-request","timeout":600}"#
    );
}

#[test]
fn codex_plans_cover_the_managed_events() {
    let plan = plan_install(&ctx(false));
    assert_eq!(plan.len(), 5);
    let plan = plan_install(&ctx(true));
    assert_eq!(plan.len(), 6);
    match &plan[5].op {
        EditOp::EnsureHook { event, .. } => assert_eq!(event, "PermissionRequest"),
        _ => panic!("expected an install"),
    }
    assert!(plan.iter().all(|e| e.path == "/home/u/.codex/hooks.json"));
    let un = plan_uninstall(&ctx(false));
    assert_eq!(un.len(), 6);
    assert!(un.iter().all(|e| matches!(e.op, EditOp::RemoveOurs { .. })));
}

#[test]
fn codex_integration_reads_the_hook_file() {
    assert_eq!(integration(7683, None), (Integration::NotInstalled, vec![]));
    let stale = json(
        r#"{"hooks":{"Stop":[{"hooks":[{"type":"command","command":"\"/x\" hook http://127.0.0.1:9/hook/codex/stop"}]}]}}"#,
    );
    assert_eq!(integration(7683, Some(&stale)).0, Integration::StalePort);
    let ours = json(r#"{"hooks":{"Stop":[{"hooks":[{"type":"http","url":"http://127.0.0.1:7683/hook/codex/stop"}]}]}}"#);
    assert_eq!(integration(7683, Some(&ours)).0, Integration::Installed);
    let foreign = json(r#"{"hooks":{"PermissionRequest":[{"hooks":[{"type":"command","command":"other"}]}]}}"#);
    assert_eq!(
        integration(7683, Some(&foreign)),
        (Integration::NotInstalled, vec!["PermissionRequest 上已有别的程序的 hook".to_string()])
    );
}

#[test]
fn describe_projects_an_edit_for_clients() {
    let e = ConfigEdit { path: "/p".into(), op: EditOp::RemoveOurs { event: "Stop".into() } };
    assert_eq!(compact(&describe(&e)), r#"{"path":"/p","action":"remove","event":"Stop","spec":null}"#);
    let e = ConfigEdit { path: "/p".into(), op: EditOp::EnsureHook { event: "Stop".into(), spec: json("[1]") } };
    assert_eq!(compact(&describe(&e)), r#"{"path":"/p","action":"ensure","event":"Stop","spec":[1]}"#);
}

fn ensure_edit(path: &str) -> ConfigEdit {
    ConfigEdit {
        path: path.into(),
        op: EditOp::EnsureHook {
            event: "Stop".into(),
            spec: json(r#"{"type":"http","url":"http://127.0.0.1:7683/hook/codex/stop"}"#),
        },
    }
}

#[test]
fn distinct_paths_keep_first_appearance_order() {
    let edits = vec![ensure_edit("/b"), ensure_edit("/a"), ensure_edit("/b")];
    assert_eq!(distinct_paths(&edits), vec!["/b".to_string(), "/a".to_string()]);
}

#[test]
fn a_missing_file_is_created_and_a_second_install_changes_nothing() {
    let edits = vec![ensure_edit("/f"), ensure_edit("/other")];
    let first = plan_file("/f", None, &edits).unwrap().unwrap();
    assert!(first.ends_with("}\n"));
    assert_eq!(
        first,
        "{\n  \"hooks\": {\n    \"Stop\": [\n      {\n        \"matcher\": \"\",\n        \"hooks\": [\n          {\n            \"type\": \"http\",\n            \"url\": \"http://127.0.0.1:7683/hook/codex/stop\"\n          }\n        ]\n      }\n    ]\n  }\n}\n"
    );
    assert_eq!(plan_file("/f", Some(&first), &edits).unwrap(), None);
}

#[test]
fn a_blank_file_counts_as_an_empty_object() {
    let out = plan_file("/f", Some("  \n"), &[]).unwrap();
    assert_eq!(out.as_deref(), Some("{}\n"));
}

#[test]
fn a_file_that_is_not_json_is_left_alone() {
    match plan_file("/f", Some("{oops"), &[ensure_edit("/f")]) {
        Err(ApplyError::Invalid { path, .. }) => assert_eq!(path, "/f"),
        _ => panic!("expected the file to be refused"),
    }
    match plan_file("/f", Some("[]"), &[ensure_edit("/f")]) {
        Err(e) => {
            assert_eq!(e.status(), 409);
            assert_eq!(e.message(), "/f 不是合法 JSON,拒绝改写:配置根不是 JSON 对象");
        }
        _ => panic!("expected the edit to fail"),
    }
}

#[test]
fn apply_errors_have_their_statuses() {
    assert_eq!(ApplyError::Disabled.status(), 403);
    assert_eq!(ApplyError::Io { path: "/p".into(), detail: "d".into() }.status(), 500);
    assert_eq!(ApplyError::Io { path: "/p".into(), detail: "d".into() }.message(), "读写 /p 失败:d");
}

#[test]
fn rendering_indents_by_two_and_ends_with_a_newline() {
    assert_eq!(render(&json(r#"{"a":[1]}"#)), "{\n  \"a\": [\n    1\n  ]\n}\n");
}

#[test]
fn codex_detection_prefers_its_own_config_file() {
    let d = detect("/home/u", true, Some("/usr/bin/codex".into()), true);
    assert!(d.installed);
    assert_eq!(d.confidence, Confidence::High);
    assert_eq!(d.reason, "config-file");
    assert_eq!(d.detail, "/home/u/.codex/config.toml 存在");
    assert_eq!(d.config_path.as_deref(), Some("/home/u/.codex/hooks.json"));
    let d = detect("/home/u", false, Some("/usr/bin/codex".into()), true);
    assert_eq!(d.reason, "cli-path");
    assert_eq!(d.detail, "PATH 上找到 /usr/bin/codex");
    let d = detect("/home/u", false, None, true);
    assert_eq!((d.reason.as_str(), d.confidence), ("parent-dir", Confidence::Medium));
    let d = detect("/home/u", false, None, false);
    assert!(!d.installed);
    assert_eq!(d.config_path, None);
    let ignore = vec!["hooks.json".to_string()];
    assert!(!has_entries_besides(&vec!["hooks.json".into(), ".DS_Store".into()], &ignore));
    assert!(has_entries_besides(&vec!["hooks.json".into(), "sessions".into()], &ignore));
}

#[test]
fn the_client_token_comes_as_a_bearer_header() {
    assert!(octoterm::agent::routes::bearer_ok(Some("Bearer s3cret"), "s3cret"));
    assert!(!octoterm::agent::routes::bearer_ok(Some("bearer s3cret"), "s3cret"));
    assert!(!octoterm::agent::routes::bearer_ok(None, "s3cret"));
}

#[test]
fn a_blocking_call_opens_a_pending_request_with_the_tool() {
    let payload = json(r#"{"tool_name":"Bash","tool_input":{"command":"ls"},"session_id":"a"}"#);
    let p = pending_request("p1".to_string(), "codex", "a", 7, &payload, 1000, 590);
    assert_eq!(p.id, "p1");
    assert_eq!(p.agent_id, "codex");
    assert_eq!(p.agent_session_id, "a");
    assert_eq!(p.session, Some(7));
    assert_eq!(p.tool_name.as_deref(), Some("Bash"));
    assert_eq!(compact(&p.tool_input), r#"{"command":"ls"}"#);
    assert_eq!(p.created_at, 1000);
    assert_eq!(p.expires_at, 1590);
}

#[test]
fn a_pending_request_without_tool_has_a_null_input() {
    let p = pending_request("p2".to_string(), "codex", "default", 1, &json("{}"), 5, 10);
    assert_eq!(p.tool_name, None);
    assert_eq!(compact(&p.tool_input), "null");
    assert_eq!(p.expires_at, 15);
}

#[test]
fn opened_pending_requests_get_fresh_hex_ids() {
    let a = open_pending("codex", "s", 1, &json("{}"), 0, 1);
    let b = open_pending("codex", "s", 1, &json("{}"), 0, 1);
    assert_eq!(a.id.len(), 32);
    assert!(a.id.chars().all(|c| c.is_ascii_hexdigit() && !c.is_ascii_uppercase()));
    assert_ne!(a.id, b.id);
}

#[test]
fn a_plan_reply_lists_both_plans() {
    let install = plan_install(&ctx(false));
    let uninstall = plan_uninstall(&ctx(false));
    let reply = to_value(&plan_reply(&install, &uninstall, false, true));
    assert_eq!(reply["install"].as_array().unwrap().len(), 5);
    assert_eq!(reply["uninstall"].as_array().unwrap().len(), 6);
    assert_eq!(reply["install"][0]["action"], "ensure");
    assert_eq!(reply["uninstall"][5]["event"], "PermissionRequest");
    assert_eq!(reply["include_blocking"], false);
    assert_eq!(reply["install_enabled"], true);
}

#[test]
fn an_uninstall_always_covers_the_blocking_hook() {
    assert!(include_blocking_for(false, false));
    assert!(include_blocking_for(false, true));
    assert!(!include_blocking_for(true, false));
    assert!(include_blocking_for(true, true));
}

#[test]
fn an_apply_reply_reports_each_file() {
    let outcomes = vec![
        Outcome { path: "/h/a.json".to_string(), changed: false, backup: None },
        Outcome { path: "/h/b.json".to_string(), changed: true, backup: Some("/b/b.json.1".to_string()) },
    ];
    assert_eq!(
        compact(&apply_reply(&outcomes, true)),
        r#"{"changed":true,"include_blocking":true,"files":[{"path":"/h/a.json","changed":false,"backup":null},{"path":"/h/b.json","changed":true,"backup":"/b/b.json.1"}]}"#
    );
    assert_eq!(
        compact(&apply_reply(&vec![Outcome { path: "/h/a.json".to_string(), changed: false, backup: None }], false)),
        r#"{"changed":false,"include_blocking":false,"files":[{"path":"/h/a.json","changed":false,"backup":null}]}"#
    );
}

#[test]
fn the_registry_holds_the_codex_adapter() {
    let r = registry();
    assert_eq!(r.len(), 1);
    assert_eq!(r[0].id(), "codex");
    assert_eq!(r[0].name(), "Codex");
    assert_eq!(r[0].activation(), Some("codex-hooks-review"));
    assert!(r[0].is_blocking("PermissionRequest"));
    assert!(!r[0].is_blocking("Stop"));
    assert_eq!(r[0].plan_install(&ctx(true)).len(), 6);
    assert_eq!(r[0].plan_uninstall(&ctx(false)).len(), 6);
    assert_eq!(r[0].integration(&ctx(true), None).0, Integration::NotInstalled);
    assert_eq!(compact(&r[0].render(&Decision::NoDecision)), "{}");
}
