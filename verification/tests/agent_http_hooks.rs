use octoterm::agent::edit::{apply_to_json, ConfigEdit, EditOp, InstallCtx};
use octoterm::agent::http_hooks::{
    detect, has_foreign_content, hook_spec, integration_of_text, parse, plan_install, plan_uninstall, ClaudeCode,
};
use octoterm::agent::store::Decision;
use octoterm::agent::{AgentAdapter, Confidence, Integration};
use octoterm::json::Json;
use octoterm::protocol::messages::AgentState;

fn from_value(v: &serde_json::Value) -> Json {
    match v {
        serde_json::Value::Null => Json::Null,
        serde_json::Value::Bool(b) => Json::Bool(*b),
        serde_json::Value::Number(n) => Json::Number(n.to_string()),
        serde_json::Value::String(s) => Json::Str(s.clone()),
        serde_json::Value::Array(a) => Json::Array(a.iter().map(from_value).collect()),
        serde_json::Value::Object(o) => Json::Object(o.iter().map(|(k, x)| (k.clone(), from_value(x))).collect()),
    }
}

fn to_value(j: &Json) -> serde_json::Value {
    match j {
        Json::Null => serde_json::Value::Null,
        Json::Bool(b) => serde_json::Value::Bool(*b),
        Json::Number(n) => serde_json::Value::Number(n.parse().unwrap()),
        Json::Str(s) => serde_json::Value::String(s.clone()),
        Json::Array(a) => serde_json::Value::Array(a.iter().map(to_value).collect()),
        Json::Object(o) => serde_json::Value::Object(o.iter().map(|(k, x)| (k.clone(), to_value(x))).collect()),
    }
}

fn json(text: &str) -> Json {
    from_value(&serde_json::from_str(text).unwrap())
}

fn compact(j: &Json) -> String {
    serde_json::to_string(&to_value(j)).unwrap()
}

const AGENT: &str = "demo-agent";

fn ctx(include_blocking: bool) -> InstallCtx {
    InstallCtx { home: "/home/u".into(), exe: "/opt/octoterm".into(), port: 7683, include_blocking }
}

fn adapter() -> ClaudeCode {
    ClaudeCode { id: AGENT.into(), name: "Demo".into(), dir: ".demo".into() }
}

#[test]
fn hooks_are_http_posts_with_the_session_headers() {
    assert_eq!(
        compact(&hook_spec(AGENT, 7683, "PreToolUse", false)),
        r#"{"type":"http","url":"http://127.0.0.1:7683/hook/demo-agent/pre-tool-use","headers":{"Authorization":"Bearer $OCTOTERM_HOOK_TOKEN","X-Octoterm-Session":"$OCTOTERM_SESSION_ID"},"allowedEnvVars":["OCTOTERM_HOOK_TOKEN","OCTOTERM_SESSION_ID"],"timeout":5,"async":true}"#
    );
    assert_eq!(
        compact(&hook_spec(AGENT, 7683, "PermissionRequest", true)),
        r#"{"type":"http","url":"http://127.0.0.1:7683/hook/demo-agent/permission-request","headers":{"Authorization":"Bearer $OCTOTERM_HOOK_TOKEN","X-Octoterm-Session":"$OCTOTERM_SESSION_ID"},"allowedEnvVars":["OCTOTERM_HOOK_TOKEN","OCTOTERM_SESSION_ID"],"timeout":600}"#
    );
}

fn events(plan: &[ConfigEdit]) -> Vec<String> {
    plan.iter()
        .map(|e| match &e.op {
            EditOp::EnsureHook { event, .. } => event.clone(),
            EditOp::RemoveOurs { event } => event.clone(),
        })
        .collect()
}

#[test]
fn install_covers_telemetry_and_the_blocking_hook_only_when_asked() {
    let plan = plan_install(AGENT, ".demo", &ctx(false));
    assert_eq!(
        events(&plan),
        vec!["SessionStart", "SessionEnd", "UserPromptSubmit", "PreToolUse", "PostToolUse", "Stop", "Notification"]
    );
    assert!(plan.iter().all(|e| e.path == "/home/u/.demo/settings.json"));
    let plan = plan_install(AGENT, ".demo", &ctx(true));
    assert_eq!(plan.len(), 8);
    assert_eq!(events(&plan)[7], "PermissionRequest");
    let un = plan_uninstall(".demo", &ctx(false));
    assert_eq!(un.len(), 8);
    assert!(un.iter().all(|e| matches!(e.op, EditOp::RemoveOurs { .. })));
}

#[test]
fn installing_then_reading_the_settings_reports_installed() {
    let mut doc = json(r#"{"theme":"dark"}"#);
    for e in plan_install(AGENT, ".demo", &ctx(true)) {
        apply_to_json(&mut doc, &e.op).unwrap();
    }
    let text = compact(&doc);
    assert!(text.contains(r#""matcher":"""#));
    let (state, conflicts) = integration_of_text(AGENT, 7683, Some(&text));
    assert_eq!(state, Integration::Installed);
    assert!(conflicts.is_empty());
    assert_eq!(integration_of_text(AGENT, 9999, Some(&text)).0, Integration::StalePort);
    assert_eq!(integration_of_text(AGENT, 7683, None).0, Integration::NotInstalled);
    assert_eq!(integration_of_text(AGENT, 7683, Some("not json")).0, Integration::NotInstalled);
    for e in plan_uninstall(".demo", &ctx(false)) {
        apply_to_json(&mut doc, &e.op).unwrap();
    }
    assert_eq!(compact(&doc), r#"{"theme":"dark"}"#);
}

#[test]
fn another_blocking_http_hook_is_reported_with_its_url() {
    let text = r#"{"hooks":{"PermissionRequest":[{"matcher":"","hooks":[
        {"type":"http","url":"http://127.0.0.1:9000/approve"},
        {"type":"command","command":"x"},
        {"type":"http"}]}]}}"#;
    let (state, conflicts) = integration_of_text(AGENT, 7683, Some(text));
    assert_eq!(state, Integration::NotInstalled);
    assert_eq!(
        conflicts,
        vec![
            "PermissionRequest 上已有另一个阻塞式 hook:http://127.0.0.1:9000/approve".to_string(),
            "PermissionRequest 上已有另一个阻塞式 hook:<无 url>".to_string(),
        ]
    );
}

#[test]
fn events_map_to_states_and_details() {
    let u = parse("Notification", &json(r#"{"cwd":"/w","session_title":"t"}"#)).unwrap();
    assert_eq!(u.state, Some(AgentState::Waiting));
    assert_eq!(u.detail.as_deref(), Some("需要你的输入"));
    assert_eq!(u.cwd.as_deref(), Some("/w"));
    assert_eq!(u.title.as_deref(), Some("t"));
    let u = parse("Notification", &json(r#"{"notification_type":"idle_prompt"}"#)).unwrap();
    assert_eq!(u.detail.as_deref(), Some("idle_prompt"));
    let u = parse("PostToolUse", &json(r#"{"tool_name":"Bash"}"#)).unwrap();
    assert_eq!((u.state, u.detail.as_deref()), (Some(AgentState::Working), Some("Bash")));
    assert_eq!(parse("Stop", &json("{}")).unwrap().state, Some(AgentState::Idle));
    assert_eq!(parse("SessionEnd", &json("{}")).unwrap().state, Some(AgentState::Done));
    assert!(parse("Unknown", &json("{}")).is_none());
}

#[test]
fn only_what_the_user_wrote_counts_as_foreign() {
    let ours = r#"{"hooks":{"Stop":[{"matcher":"","hooks":[{"type":"http","url":"http://127.0.0.1:7683/hook/demo-agent/stop"}]}]}}"#;
    assert!(!has_foreign_content(&json(ours), AGENT));
    assert!(has_foreign_content(&json(r#"{"model":"x"}"#), AGENT));
    let theirs = r#"{"hooks":{"Stop":[{"hooks":[{"type":"command","command":"say hi"}]}]}}"#;
    assert!(has_foreign_content(&json(theirs), AGENT));
    assert!(!has_foreign_content(&json("[]"), AGENT));
}

#[test]
fn detection_goes_by_the_strongest_evidence() {
    let d = detect(AGENT, "Demo", "/home/u", ".demo", Some(r#"{"model":"x"}"#), Some("/bin/demo".into()), true);
    assert_eq!((d.installed, d.confidence, d.reason.as_str()), (true, Confidence::High, "config-file"));
    assert_eq!(d.detail, "/home/u/.demo/settings.json 里有用户自己的配置");
    let d = detect(AGENT, "Demo", "/home/u", ".demo", None, Some("/bin/demo".into()), true);
    assert_eq!((d.reason.as_str(), d.detail.as_str()), ("cli-path", "PATH 上找到 /bin/demo"));
    let d = detect(AGENT, "Demo", "/home/u", ".demo", Some("{}"), None, true);
    assert_eq!((d.confidence, d.reason.as_str()), (Confidence::Medium, "parent-dir"));
    let d = detect(AGENT, "Demo", "/home/u", ".demo", None, None, false);
    assert_eq!((d.installed, d.reason.as_str(), d.detail.as_str()), (false, "not-found", "没有找到 Demo 的安装痕迹"));
    assert_eq!(d.config_path, None);
}

#[test]
fn the_adapter_answers_with_its_names_and_the_decision_envelope() {
    let a = adapter();
    assert_eq!(a.id(), AGENT);
    assert_eq!(a.name(), "Demo");
    assert_eq!(a.activation(), None);
    assert!(a.is_blocking("PermissionRequest"));
    assert_eq!(compact(&a.render(&Decision::NoDecision)), "{}");
    assert_eq!(
        compact(&a.render(&Decision::Deny { message: Some("no".into()) })),
        r#"{"hookSpecificOutput":{"hookEventName":"PermissionRequest","decision":{"behavior":"deny","message":"no"}}}"#
    );
    assert_eq!(a.plan_install(&ctx(true)).len(), 8);
}
