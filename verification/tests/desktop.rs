use std::time::Duration;

use octoterm::desktop::app::{access_url, display_host, status_text, tray_retry_delay};
use octoterm::desktop::autostart::{is_enabled, plist_xml, registered_target_at, strip_quotes};
use octoterm::desktop::supervisor::{bind_retry_wait, restart_order, RestartOrder};

#[test]
fn strips_a_matching_pair_of_quotes() {
    assert_eq!(strip_quotes(r#""C:\path\to\exe.exe""#), r"C:\path\to\exe.exe");
}

#[test]
fn leaves_an_unquoted_value_alone() {
    assert_eq!(strip_quotes(r"C:\path\to\exe.exe"), r"C:\path\to\exe.exe");
}

#[test]
fn does_not_strip_a_single_leading_quote() {
    assert_eq!(strip_quotes(r#""C:\odd"#), r#""C:\odd"#);
}

#[test]
fn a_lone_quote_is_not_a_pair() {
    assert_eq!(strip_quotes("\""), "\"");
    assert_eq!(strip_quotes("\"\""), "");
}

#[test]
fn a_missing_plist_has_no_registered_target() {
    assert_eq!(registered_target_at(None).unwrap(), None);
}

#[test]
fn parses_the_first_program_argument() {
    let xml = plist_xml("/Applications/octoterm.app/Contents/MacOS/octoterm");
    assert_eq!(
        registered_target_at(Some(xml.as_bytes())).unwrap().as_deref(),
        Some("/Applications/octoterm.app/Contents/MacOS/octoterm")
    );
}

#[test]
fn a_malformed_plist_is_an_error() {
    assert!(registered_target_at(Some(b"this is not xml")).is_err());
}

#[test]
fn the_plist_names_the_executable_and_runs_at_load() {
    let xml = plist_xml("/Applications/octoterm.app/Contents/MacOS/octoterm");
    assert!(xml.contains("<string>com.octoterm.desktop</string>"));
    assert!(xml.contains("<string>/Applications/octoterm.app/Contents/MacOS/octoterm</string>"));
    assert!(xml.contains("<key>RunAtLoad</key>\n    <true/>"));
}

#[test]
fn a_path_with_an_ampersand_is_escaped() {
    let xml = plist_xml("/Apps/A&B <x>.app");
    assert!(xml.contains("<string>/Apps/A&amp;B &lt;x&gt;.app</string>"));
    assert_eq!(
        registered_target_at(Some(xml.as_bytes())).unwrap().as_deref(),
        Some("/Apps/A&B <x>.app")
    );
}

#[test]
fn a_registration_whose_target_is_gone_is_off() {
    assert!(!is_enabled(None, &|_: &str| true));
    assert!(!is_enabled(Some("/gone".to_string()), &|_: &str| false));
    assert!(is_enabled(Some("/here".to_string()), &|p: &str| p == "/here"));
}

#[test]
fn the_first_failure_is_retried_soon() {
    assert_eq!(tray_retry_delay(1), Some(Duration::from_millis(500)));
}

#[test]
fn the_delay_backs_off() {
    let delays: Vec<_> = (1..=4).map(|n| tray_retry_delay(n).unwrap()).collect();
    assert!(delays.windows(2).all(|w| w[1] > w[0]), "{delays:?}");
}

#[test]
fn retrying_gives_up_eventually() {
    assert_eq!(tray_retry_delay(5), None);
    assert_eq!(tray_retry_delay(6), None);
    assert_eq!(tray_retry_delay(u32::MAX), None, "不能溢出,也不能又开始重试");
}

#[test]
fn the_total_wait_covers_the_login_window_without_stalling_the_user() {
    let total: Duration = (1..).map_while(tray_retry_delay).sum();
    assert!((Duration::from_secs(5)..=Duration::from_secs(15)).contains(&total), "{total:?}");
}

fn listen(host: &str, port: u16) -> octoterm::desktop::settings::Listen {
    octoterm::desktop::settings::Listen { host: host.to_string(), port }
}

#[test]
fn every_interface_is_shown_as_loopback_and_ipv6_in_brackets() {
    assert_eq!(display_host(&listen("0.0.0.0", 1)), "127.0.0.1");
    assert_eq!(display_host(&listen("::", 1)), "127.0.0.1");
    assert_eq!(display_host(&listen("::1", 1)), "[::1]");
    assert_eq!(display_host(&listen("192.168.1.5", 1)), "192.168.1.5");
}

#[test]
fn the_access_url_needs_an_address_and_a_token() {
    assert_eq!(
        access_url(&Some(listen("0.0.0.0", 7683)), Some("abc")),
        Some("http://127.0.0.1:7683/#token=abc".to_string())
    );
    assert_eq!(access_url(&Some(listen("::1", 80)), Some("t")), Some("http://[::1]:80/#token=t".to_string()));
    assert_eq!(access_url(&None, Some("abc")), None);
    assert_eq!(access_url(&Some(listen("127.0.0.1", 7683)), None), None);
}

#[test]
fn the_status_line_names_the_reachable_host_and_the_sessions() {
    assert_eq!(status_text(&Some(listen("0.0.0.0", 7683)), 2), "octoterm · 127.0.0.1:7683 · 2 个会话");
    assert_eq!(status_text(&Some(listen("10.0.0.2", 9000)), 0), "octoterm · 10.0.0.2:9000 · 0 个会话");
    assert_eq!(status_text(&None, 3), "octoterm · 未监听");
}

#[test]
fn a_new_address_is_bound_before_the_old_listener_stops() {
    use_order(None, listen("127.0.0.1", 7683), RestartOrder::BindThenStop);
    use_order(Some(listen("127.0.0.1", 7683)), listen("127.0.0.1", 7684), RestartOrder::BindThenStop);
    use_order(Some(listen("127.0.0.1", 7683)), listen("0.0.0.0", 7683), RestartOrder::BindThenStop);
    use_order(Some(listen("127.0.0.1", 7683)), listen("127.0.0.1", 7683), RestartOrder::StopThenBind);
}

fn use_order(running: Option<octoterm::desktop::settings::Listen>, target: octoterm::desktop::settings::Listen, want: RestartOrder) {
    assert_eq!(restart_order(&running, &target), want);
}

#[test]
fn binding_the_same_address_is_retried_ten_times_without_a_last_wait() {
    for attempt in 0..9 {
        assert_eq!(bind_retry_wait(attempt), Some(Duration::from_millis(20)));
    }
    assert_eq!(bind_retry_wait(9), None);
    assert_eq!(bind_retry_wait(10), None);
}
