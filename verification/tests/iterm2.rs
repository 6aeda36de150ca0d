use std::path::Path;

use octoterm::json::Json;
use octoterm::launcher::iterm2::{build, from_dynamic_json, from_dynamic_text, from_prefs_bytes, from_prefs_plist, prefs_path, Raw};
use octoterm::property_list::PlistValue;
fn default_cmd() -> Vec<String> {
    vec!["/bin/zsh".to_string()]
}

fn raw(name: &str) -> Raw {
    Raw { name: Some(name.into()), guid: Some(format!("guid-{name}")), ..Default::default() }
}

#[test]
fn custom_command_profiles_become_launchers() {
    let r = Raw { custom_command: Some("Yes".into()), command: Some("ssh prod01".into()), ..raw("Prod") };
    let out = build(&[r], &default_cmd(), None);
    assert_eq!(out.len(), 1);
    assert_eq!(out[0].id, "iterm2:guid-Prod");
    assert_eq!(out[0].name, "Prod");
    assert_eq!(out[0].command, ["ssh", "prod01"]);
}

#[test]
fn custom_shell_is_treated_like_a_custom_command() {
    let r = Raw {
        custom_command: Some("Custom Shell".into()),
        command: Some("/opt/homebrew/bin/fish".into()),
        ..raw("Fish")
    };
    let out = build(&[r], &default_cmd(), None);
    assert_eq!(out[0].command, ["/opt/homebrew/bin/fish"]);
}

#[test]
fn directory_only_profiles_use_the_default_shell() {
    let r = Raw {
        custom_directory: Some("Yes".into()),
        working_directory: Some("~/work".into()),
        ..raw("Work")
    };
    let home = Path::new("/Users/hiro");
    let out = build(&[r], &default_cmd(), home.to_str());
    assert_eq!(out.len(), 1);
    assert_eq!(out[0].command, ["/bin/zsh"]);
    // 分隔符跟平台走,这里只关心 `~` 展开了(分隔符本身在 cmdline 里测)
    let want = home.join("work");
    assert_eq!(out[0].cwd.as_deref(), Some(&*want.to_string_lossy()));
}

#[test]
fn appearance_only_profiles_are_skipped() {
    // 既没自定义命令也没自定义目录 —— 和内置默认等价
    let plain = Raw { custom_command: Some("No".into()), custom_directory: Some("No".into()), ..raw("Solarized") };
    let recycle = Raw { custom_directory: Some("Recycle".into()), ..raw("Recycle") };
    assert!(build(&[plain, recycle], &default_cmd(), None).is_empty());
}

#[test]
fn broken_profiles_are_skipped_individually() {
    let no_name = Raw { name: None, custom_command: Some("Yes".into()), command: Some("sh".into()), ..Default::default() };
    let no_command = Raw { custom_command: Some("Yes".into()), command: None, ..raw("空") };
    let good = Raw { custom_command: Some("Yes".into()), command: Some("htop".into()), ..raw("好的") };
    let out = build(&[no_name, no_command, good], &default_cmd(), None);
    assert_eq!(out.len(), 1);
    assert_eq!(out[0].name, "好的");
}

#[test]
fn reads_new_bookmarks_from_an_xml_plist() {
    let xml = r#"<?xml version="1.0" encoding="UTF-8"?>
    <!DOCTYPE plist PUBLIC "-//Apple//DTD PLIST 1.0//EN" "http://www.apple.com/DTDs/PropertyList-1.0.dtd">
    <plist version="1.0"><dict>
      <key>New Bookmarks</key>
      <array>
        <dict>
          <key>Guid</key><string>ABC-123</string>
          <key>Name</key><string>Prod SSH</string>
          <key>Custom Command</key><string>Yes</string>
          <key>Command</key><string>ssh prod01</string>
        </dict>
      </array>
    </dict></plist>"#;
    let raws = from_prefs_bytes(xml.as_bytes()).unwrap();
    assert_eq!(raws.len(), 1);
    assert_eq!(raws[0].guid.as_deref(), Some("ABC-123"));

    let out = build(&raws, &default_cmd(), None);
    assert_eq!(out[0].id, "iterm2:ABC-123");
    assert_eq!(out[0].command, ["ssh", "prod01"]);
}

#[test]
fn reads_dynamic_profiles_from_json() {
    let raws = from_dynamic_text(
        r#"{
        "Profiles": [
            { "Name": "Dyn", "Guid": "D-1", "Custom Command": "Yes", "Command": "tmux attach -t main" }
        ]
    }"#,
    )
    .unwrap();
    let out = build(&raws, &default_cmd(), None);
    assert_eq!(out.len(), 1);
    assert_eq!(out[0].id, "iterm2:D-1");
    assert_eq!(out[0].command, ["tmux", "attach", "-t", "main"]);
}

#[test]
fn missing_keys_are_not_errors() {
    let value: PlistValue = PlistValue::Dictionary(Vec::new());
    assert!(from_prefs_plist(&value).is_empty());
    assert!(from_dynamic_json(&Json::Object(Vec::new())).is_empty());
    assert!(from_dynamic_text("{}").unwrap().is_empty());
    assert!(from_dynamic_text("{oops").is_err());
    assert!(from_prefs_bytes(b"not a plist").is_err());
}

fn prefs_dict(enabled: bool, folder: &str) -> Vec<u8> {
    let flag = if enabled { "<true/>" } else { "<false/>" };
    format!(
        r#"<?xml version="1.0" encoding="UTF-8"?><plist version="1.0"><dict><key>LoadPrefsFromCustomFolder</key>{flag}<key>PrefsCustomFolder</key><string>{folder}</string></dict></plist>"#
    )
    .into_bytes()
}

#[test]
fn prefs_come_from_the_custom_folder_only_when_it_is_on_and_there() {
    let standard = "/Users/u/Library/Preferences/com.googlecode.iterm2.plist";
    let custom = "/Users/u/Dropbox/iterm/com.googlecode.iterm2.plist";
    let exists = |p: &str| p == custom;
    let on = prefs_dict(true, "~/Dropbox/iterm");
    assert_eq!(prefs_path(Some("/Users/u"), Some(&on[..]), &exists).as_deref(), Some(custom));
    assert_eq!(prefs_path(Some("/Users/u"), Some(&on[..]), &|_: &str| false).as_deref(), Some(standard));
    let off = prefs_dict(false, "~/Dropbox/iterm");
    assert_eq!(prefs_path(Some("/Users/u"), Some(&off[..]), &exists).as_deref(), Some(standard));
    let blank = prefs_dict(true, "  ");
    assert_eq!(prefs_path(Some("/Users/u"), Some(&blank[..]), &exists).as_deref(), Some(standard));
    assert_eq!(prefs_path(Some("/Users/u"), None, &exists).as_deref(), Some(standard));
    assert_eq!(prefs_path(Some("/Users/u"), Some(&b"junk"[..]), &exists).as_deref(), Some(standard));
    assert_eq!(prefs_path(None, Some(&on[..]), &exists), None);
}
