use octoterm::config::{LauncherSpec, WindowSize};
use octoterm::desktop::ui::{frame_outcome, Outcome};
use octoterm::desktop::settings::{
    after_autostart, after_config_path, after_restart, after_write, begin_save, needs_rebind, Applied, Current,
    Editable, FieldError, Form, Listen, Message, SaveStep,
};

fn canonical_ip(s: &str) -> Option<String> {
    match s {
        "127.0.0.1" | "0.0.0.0" | "::1" => Some(s.to_string()),
        "0:0:0:0:0:0:0:1" => Some("::1".to_string()),
        _ => None,
    }
}

fn listen(host: &str, port: u16) -> Listen {
    Listen { host: host.to_string(), port }
}

#[derive(Default)]
struct FakeFx {
    autostart_err: bool,
    path_err: bool,
    save_err: bool,
    restart_err: bool,
    actual: Option<Listen>,
    autostart_calls: Vec<bool>,
    saved: Vec<Editable>,
    restarts: Vec<(Listen, String)>,
}

/// Runs a save to its end, performing each effect on the fake.
fn apply(form: &Form, current: &Current, fx: &mut FakeFx) -> Applied {
    let (flow, mut step) = begin_save(form, current.clone(), &canonical_ip);
    let Some(mut flow) = flow else {
        match step {
            SaveStep::Finish(a) => return a,
            _ => panic!("an invalid form must end the save"),
        }
    };
    loop {
        step = match step {
            SaveStep::SetAutostart(b) => {
                fx.autostart_calls.push(b);
                after_autostart(if fx.autostart_err { Err("没有权限".into()) } else { Ok(()) })
            }
            SaveStep::FindConfigPath => {
                after_config_path(&flow, if fx.path_err { Err("无法确定配置目录".into()) } else { Ok(()) })
            }
            SaveStep::Restart { listen, token } => {
                fx.restarts.push((listen.clone(), token));
                let res = if fx.restart_err {
                    Err(format!("无法监听 {}", listen.text()))
                } else {
                    Ok(fx.actual.clone().unwrap_or(listen))
                };
                after_restart(&mut flow, res)
            }
            SaveStep::Write(edit) => {
                let res = if fx.save_err {
                    Err("磁盘满了".to_string())
                } else {
                    fx.saved.push(edit);
                    Ok(())
                };
                after_write(&flow, res)
            }
            SaveStep::Finish(a) => return a,
        }
    }
}

fn current() -> Current {
    Current { listen: Some(listen("127.0.0.1", 7683)), token: "tok".into(), sessions: 2 }
}

fn form(host: &str, port: &str, token: &str) -> Form {
    Form { host: host.into(), port: port.into(), token: token.into(), autostart: false }
}

fn err_text(applied: &Applied) -> &str {
    match &applied.message {
        Message::Failure(t) => t,
        Message::Success(t) => panic!("期望失败,却是成功:{t}"),
    }
}

fn ok_text(applied: &Applied) -> &str {
    match &applied.message {
        Message::Success(t) => t,
        Message::Failure(t) => panic!("期望成功,却是失败:{t}"),
    }
}

#[test]
fn an_invalid_form_touches_nothing() {
    let mut fx = FakeFx::default();
    let applied = apply(&form("not-an-ip", "7683", "tok"), &current(), &mut fx);
    assert!(err_text(&applied).contains("不是合法的 IP 地址"));
    assert!(!applied.restarted);
    assert!(fx.autostart_calls.is_empty());
    assert!(fx.saved.is_empty());
    assert!(fx.restarts.is_empty());
}

#[test]
fn an_autostart_failure_stops_before_touching_anything_else() {
    let mut fx = FakeFx { autostart_err: true, ..Default::default() };
    let applied = apply(&form("127.0.0.1", "9000", "tok"), &current(), &mut fx);
    assert!(err_text(&applied).starts_with("开机自启设置失败:"));
    assert!(!applied.restarted);
    assert!(fx.saved.is_empty());
    assert!(fx.restarts.is_empty());
}

#[test]
fn no_rebind_needed_means_only_writing_the_file() {
    let mut fx = FakeFx::default();
    let applied = apply(&form("127.0.0.1", "7683", ""), &current(), &mut fx);
    assert_eq!(ok_text(&applied), "已保存");
    assert!(!applied.restarted);
    assert!(fx.restarts.is_empty());
    assert_eq!(fx.saved, vec![Editable { listen: listen("127.0.0.1", 7683), token: None }]);
}

#[test]
fn a_write_failure_without_rebind_is_reported_as_is() {
    let mut fx = FakeFx { save_err: true, ..Default::default() };
    let applied = apply(&form("127.0.0.1", "7683", "tok"), &current(), &mut fx);
    assert!(err_text(&applied).contains("磁盘满了"));
    assert!(!applied.restarted);
}

#[test]
fn a_changed_address_restarts_first_then_writes() {
    let mut fx = FakeFx::default();
    let applied = apply(&form("127.0.0.1", "9000", "tok"), &current(), &mut fx);
    assert_eq!(ok_text(&applied), "已生效 · 127.0.0.1:9000 · 2 个会话未受影响");
    assert!(applied.restarted);
    assert_eq!(fx.restarts, vec![(listen("127.0.0.1", 9000), "tok".to_string())]);
    assert_eq!(fx.saved, vec![Editable { listen: listen("127.0.0.1", 9000), token: Some("tok".into()) }]);
}

#[test]
fn the_message_reports_the_address_actually_bound() {
    let mut fx = FakeFx { actual: Some(listen("127.0.0.1", 54321)), ..Default::default() };
    let applied = apply(&form("127.0.0.1", "9000", "tok"), &current(), &mut fx);
    assert!(ok_text(&applied).contains("127.0.0.1:54321"));
}

#[test]
fn an_empty_token_restarts_with_the_current_one() {
    let mut fx = FakeFx::default();
    let applied = apply(&form("127.0.0.1", "9000", ""), &current(), &mut fx);
    assert!(applied.restarted);
    assert_eq!(fx.restarts, vec![(listen("127.0.0.1", 9000), "tok".to_string())]);
    assert_eq!(fx.saved, vec![Editable { listen: listen("127.0.0.1", 9000), token: None }]);
}

#[test]
fn a_write_failure_after_restart_says_applied_but_not_saved() {
    let mut fx = FakeFx { save_err: true, ..Default::default() };
    let applied = apply(&form("127.0.0.1", "9000", "tok"), &current(), &mut fx);
    let text = err_text(&applied);
    assert!(text.contains("已在 127.0.0.1:9000 生效"), "{text}");
    assert!(text.contains("重启后会回到旧配置"), "{text}");
    assert!(applied.restarted);
}

#[test]
fn a_failed_restart_leaves_everything_untouched() {
    let mut fx = FakeFx { restart_err: true, ..Default::default() };
    let applied = apply(&form("127.0.0.1", "9000", "tok"), &current(), &mut fx);
    assert!(err_text(&applied).contains("无法监听 127.0.0.1:9000"));
    assert!(!applied.restarted);
    assert!(fx.saved.is_empty());
}

#[test]
fn not_listening_always_tries_to_come_up() {
    let mut fx = FakeFx::default();
    let current = Current { listen: None, token: String::new(), sessions: 0 };
    let applied = apply(&form("127.0.0.1", "7683", "tok"), &current, &mut fx);
    assert!(applied.restarted);
    assert_eq!(fx.restarts, vec![(listen("127.0.0.1", 7683), "tok".to_string())]);
}

#[test]
fn an_unavailable_config_path_stops_everything() {
    let mut fx = FakeFx { path_err: true, ..Default::default() };
    let applied = apply(&form("127.0.0.1", "9000", "tok"), &current(), &mut fx);
    assert!(err_text(&applied).contains("无法确定配置目录"));
    assert!(fx.restarts.is_empty());
    assert!(fx.saved.is_empty());
}

#[test]
fn the_autostart_checkbox_is_passed_through() {
    let mut fx = FakeFx::default();
    let mut f = form("127.0.0.1", "7683", "tok");
    f.autostart = true;
    apply(&f, &current(), &mut fx);
    assert_eq!(fx.autostart_calls, vec![true]);
}

#[test]
fn a_valid_form_produces_an_editable() {
    let got = form("127.0.0.1", "7683", "abc").validate(&canonical_ip).unwrap();
    assert_eq!(got.listen.text(), "127.0.0.1:7683");
    assert_eq!(got.token.as_deref(), Some("abc"));
}

#[test]
fn an_empty_token_means_not_pinned() {
    let got = form("127.0.0.1", "7683", "   ").validate(&canonical_ip).unwrap();
    assert_eq!(got.token, None);
}

#[test]
fn a_bad_host_is_a_host_error() {
    assert!(matches!(form("not-an-ip", "7683", "").validate(&canonical_ip), Err(FieldError::Host(_))));
}

#[test]
fn ipv6_hosts_are_accepted() {
    let got = form(" 0:0:0:0:0:0:0:1 ", "7683", "").validate(&canonical_ip).unwrap();
    assert_eq!(got.listen.text(), "[::1]:7683");
}

#[test]
fn port_zero_and_garbage_are_port_errors() {
    assert!(matches!(form("127.0.0.1", "0", "").validate(&canonical_ip), Err(FieldError::Port(_))));
    assert!(matches!(form("127.0.0.1", "abc", "").validate(&canonical_ip), Err(FieldError::Port(_))));
    assert!(matches!(form("127.0.0.1", "70000", "").validate(&canonical_ip), Err(FieldError::Port(_))));
    match form("127.0.0.1", " 0 ", "").validate(&canonical_ip) {
        Err(e) => assert_eq!(e.message(), "端口不能是 0"),
        _ => panic!("port zero must be refused"),
    }
}

#[test]
fn rebind_only_when_listen_or_token_actually_changes() {
    let current = listen("127.0.0.1", 7683);
    let same = Editable { listen: current.clone(), token: Some("live".into()) };
    assert!(!needs_rebind(&current, "live", &same));
    let new_port = Editable { listen: listen("127.0.0.1", 9000), token: Some("live".into()) };
    assert!(needs_rebind(&current, "live", &new_port));
    let new_token = Editable { listen: current.clone(), token: Some("other".into()) };
    assert!(needs_rebind(&current, "live", &new_token));
}

#[test]
fn unpinning_the_token_does_not_rebind() {
    let current = listen("127.0.0.1", 7683);
    let unpinned = Editable { listen: current.clone(), token: None };
    assert!(!needs_rebind(&current, "live", &unpinned));
}

fn presses(regenerate: bool, open_config: bool, cancel: bool, save: bool) -> octoterm::desktop::ui::Presses {
    octoterm::desktop::ui::Presses { regenerate, open_config, cancel, save }
}

#[test]
fn a_frame_asks_for_the_last_pressed_button() {
    assert_eq!(frame_outcome(presses(false, false, false, false)), Outcome::Nothing);
    assert_eq!(frame_outcome(presses(true, false, false, false)), Outcome::RegenerateToken);
    assert_eq!(frame_outcome(presses(false, true, false, false)), Outcome::OpenConfigFile);
    assert_eq!(frame_outcome(presses(false, false, true, false)), Outcome::Cancel);
    assert_eq!(frame_outcome(presses(false, false, false, true)), Outcome::Save);
    assert_eq!(frame_outcome(presses(true, true, true, true)), Outcome::Save);
    assert_eq!(frame_outcome(presses(true, false, true, false)), Outcome::Cancel);
}

fn view_with_message() -> octoterm::desktop::ui::View {
    octoterm::desktop::ui::View {
        form: Form { host: "127.0.0.1".into(), port: "7683".into(), token: String::new(), autostart: false },
        window_size: "smallest".into(),
        launchers: vec![],
        banner: None,
        message: Some(Message::Success("已生效".into())),
    }
}

#[test]
fn editing_or_a_new_token_clears_the_last_save_result() {
    let mut v = view_with_message();
    v.end_frame(false, Outcome::Nothing);
    assert_eq!(v.message, Some(Message::Success("已生效".into())));
    v.end_frame(false, Outcome::Save);
    assert!(v.message.is_some());
    v.end_frame(false, Outcome::RegenerateToken);
    assert_eq!(v.message, None);
    let mut v = view_with_message();
    v.end_frame(true, Outcome::Nothing);
    assert_eq!(v.message, None);
    assert_eq!(v.form.port, "7683");
}

#[test]
fn the_window_names_policies_and_lists_launchers() {
    use_labels(WindowSize::Smallest, "smallest");
    use_labels(WindowSize::Largest, "largest");
    use_labels(WindowSize::Latest, "latest");
    let specs = vec![
        LauncherSpec { name: "htop".into(), command: vec!["htop".into(), "-d".into(), "10".into()], cwd: None },
        LauncherSpec { name: "sh".into(), command: vec!["sh".into()], cwd: Some("/tmp".into()) },
    ];
    assert_eq!(
        octoterm::desktop::settings::launcher_rows(&specs),
        vec![("htop".to_string(), "htop -d 10".to_string()), ("sh".to_string(), "sh".to_string())]
    );
}

fn use_labels(w: WindowSize, want: &str) {
    assert_eq!(octoterm::desktop::settings::window_size_label(w), want);
}

#[test]
fn after_a_restart_the_form_shows_the_token_in_effect() {
    let mut v = view_with_message();
    v.form.token = "typed".into();
    v.after_apply(Applied { message: Message::Failure("端口被占用".into()), restarted: false }, Some("live".into()));
    assert_eq!(v.form.token, "typed");
    assert_eq!(v.message, Some(Message::Failure("端口被占用".into())));
    v.after_apply(Applied { message: Message::Success("已生效".into()), restarted: true }, Some("live".into()));
    assert_eq!(v.form.token, "live");
    assert_eq!(v.message, Some(Message::Success("已生效".into())));
    v.after_apply(Applied { message: Message::Success("已生效".into()), restarted: true }, None);
    assert_eq!(v.form.token, "live");
}
