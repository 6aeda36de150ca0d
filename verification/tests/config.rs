use octoterm::config::{resolve_token, AgentsConfig, WindowSize};

#[test]
fn token_priority_cli_then_config_then_generated() {
    assert_eq!(
        resolve_token(Some("cli".into()), Some("cfg".into())),
        ("cli".into(), false)
    );
    assert_eq!(resolve_token(None, Some("cfg".into())), ("cfg".into(), false));
    let (t1, generated) = resolve_token(None, None);
    assert!(generated && !t1.is_empty());
    let (t2, _) = resolve_token(None, None);
    assert_ne!(t1, t2, "每次生成的 token 必须不同");
}

#[test]
fn blank_cli_token_does_not_shadow_config() {
    assert_eq!(
        resolve_token(Some(String::new()), Some("cfg".into())),
        ("cfg".into(), false)
    );
    assert_eq!(
        resolve_token(Some("   ".into()), Some("cfg".into())),
        ("cfg".into(), false)
    );
}

#[test]
fn blank_token_falls_back_to_generated() {
    for blank in ["", "   ", "\t\n"] {
        let (t, generated) = resolve_token(None, Some(blank.into()));
        assert!(generated, "空白 token 必须回退到随机生成:{blank:?}");
        assert!(!t.trim().is_empty());
    }
    let (t, generated) = resolve_token(Some("  ".into()), None);
    assert!(generated && !t.trim().is_empty());
}

#[test]
fn surrounding_whitespace_is_trimmed() {
    assert_eq!(
        resolve_token(None, Some("  abc  ".into())),
        ("abc".into(), false)
    );
    assert_eq!(
        resolve_token(Some("\tcli\n".into()), Some("cfg".into())),
        ("cli".into(), false)
    );
}

#[test]
fn generated_tokens_are_32_lowercase_hex_digits() {
    let (t, generated) = resolve_token(None, None);
    assert!(generated);
    assert_eq!(t.len(), 32);
    assert!(t.chars().all(|c| c.is_ascii_digit() || ('a'..='f').contains(&c)));
}

#[test]
fn defaults_are_the_documented_ones() {
    let a = AgentsConfig::default();
    assert!(!a.install_enabled);
    assert_eq!(a.session_stale_secs, 600);
    assert_eq!(a.working_stale_secs, 300);
    assert_eq!(a.pending_timeout_secs, 590);
    assert_eq!(WindowSize::default(), WindowSize::Smallest);
}

#[test]
fn command_line_overrides_host_and_port_independently() {
    let base = octoterm::desktop::settings::Listen { host: "127.0.0.1".into(), port: 7683 };
    let l = octoterm::config::effective_listen(&base, None, Some(9000));
    assert_eq!((l.host.as_str(), l.port), ("127.0.0.1", 9000));
    let l = octoterm::config::effective_listen(&base, Some("0.0.0.0".into()), None);
    assert_eq!((l.host.as_str(), l.port), ("0.0.0.0", 7683));
    let l = octoterm::config::effective_listen(&base, None, None);
    assert_eq!((l.host.as_str(), l.port), ("127.0.0.1", 7683));
}
