use octoterm::launcher::windows_terminal::{fragment_profile_guid, fragment_roots, parse, settings_paths, FragmentFile};
use octoterm::launcher::Launcher;


fn env(k: &str) -> Option<String> {
    match k {
        "SystemRoot" => Some(r"C:\Windows".into()),
        "USERPROFILE" => Some(r"C:\Users\hiro".into()),
        _ => None,
    }
}

fn parse_sample(src: &str) -> Vec<Launcher> {
    parse(src, &[], &env, &|_| false).unwrap()
}

fn parse_with(src: &str, fragments: &[FragmentFile]) -> Vec<Launcher> {
    parse(src, fragments, &env, &|_| false).unwrap()
}

fn frag(source: &str, contents: &str) -> FragmentFile {
    FragmentFile {
        source: source.into(),
        contents: contents.into(),
    }
}

const SAMPLE: &str = r#"
{
    // Windows Terminal 自己生成的配置就带注释
    "defaultProfile": "{guid-ps}",
    "profiles":
    {
        "defaults": { "startingDirectory": "%USERPROFILE%" },
        "list":
        [
            {
                "guid": "{guid-cmd}",
                "name": "命令提示符",
                "commandline": "%SystemRoot%\\System32\\cmd.exe",
                "startingDirectory": "C:\\work",
            },
            {
                "guid": "{guid-ps7}",
                "name": "PowerShell 7",
                "commandline": "\"C:\\Program Files\\PowerShell\\7\\pwsh.exe\" -NoLogo"
            },
            {
                "guid": "{guid-git}",
                "name": "Git Bash",
                "commandline": "C:\\Program Files\\Git\\bin\\bash.exe -li"
            },
            {
                "guid": "{guid-wsl}",
                "name": "Ubuntu",
                "source": "Windows.Terminal.Wsl"
            },
            {
                "guid": "{guid-hidden}",
                "name": "藏起来的",
                "commandline": "cmd.exe",
                "hidden": true
            },
            {
                "guid": "{guid-azure}",
                "name": "Azure Cloud Shell",
                "source": "Windows.Terminal.Azure"
            }
        ]
    }
}"#;

#[test]
fn parses_profiles_with_env_and_quoting() {
    let out = parse_sample(SAMPLE);
    let ids: Vec<&str> = out.iter().map(|l| l.id.as_str()).collect();
    assert_eq!(
        ids,
        [
            "windows-terminal:{guid-cmd}",
            "windows-terminal:{guid-ps7}",
            "windows-terminal:{guid-git}",
            "windows-terminal:{guid-wsl}"
        ],
        "hidden 的和无法推断命令的应该被跳过"
    );

    let cmd = &out[0];
    assert_eq!(cmd.name, "命令提示符");
    assert_eq!(cmd.command, [r"C:\Windows\System32\cmd.exe"]);
    assert_eq!(cmd.cwd.as_deref(), Some(r"C:\work"));
    // detail 保留原文,用户在 WT 里看到的就是这个
    assert_eq!(cmd.detail, r"%SystemRoot%\System32\cmd.exe");

    // 带空格的程序路径不能被拆开
    assert_eq!(
        out[1].command,
        [r"C:\Program Files\PowerShell\7\pwsh.exe", "-NoLogo"]
    );
    // defaults 的 startingDirectory 在自己没写时生效
    assert_eq!(out[1].cwd.as_deref(), Some(r"C:\Users\hiro"));
}

#[test]
fn wsl_profiles_get_a_synthesized_command() {
    let out = parse_sample(SAMPLE);
    let wsl = out.iter().find(|l| l.name == "Ubuntu").unwrap();
    assert_eq!(wsl.command, ["wsl.exe", "-d", "Ubuntu"]);
}

#[test]
fn unquoted_git_bash_path_is_not_split_on_spaces() {
    // 真机上的 Git Bash profile 就是这样写的,一个引号都没有。
    // is_file 认这个路径,粘完必须是一个 argv[0],否则 CreateProcessW 去找 C:\Program。
    let exists = |p: &str| p.eq_ignore_ascii_case(r"C:\Program Files\Git\bin\bash.exe");
    let out = parse(SAMPLE, &[], &env, &exists).unwrap();
    let git = out.iter().find(|l| l.name == "Git Bash").unwrap();
    assert_eq!(git.command, [r"C:\Program Files\Git\bin\bash.exe", "-li"]);
    // detail 仍是 WT 里的原文,方便对照
    assert_eq!(git.detail, r"C:\Program Files\Git\bin\bash.exe -li");
}

#[test]
fn accepts_the_legacy_array_shaped_profiles_key() {
    let out = parse_sample(
        r#"{ "profiles": [ { "guid": "{g}", "name": "老格式", "commandline": "cmd.exe" } ] }"#,
    );
    assert_eq!(out.len(), 1);
    assert_eq!(out[0].command, ["cmd.exe"]);
}

#[test]
fn missing_or_empty_profiles_is_not_an_error() {
    assert!(parse_sample("{}").is_empty());
    assert!(parse_sample(r#"{"profiles": {"list": []}}"#).is_empty());
}

#[test]
fn malformed_json_is_an_error_not_a_panic() {
    assert!(parse("{ not json", &[], &env, &|_| false).is_err());
}

#[test]
fn fragment_guid_matches_documented_examples() {
    // 文档里的 Git Bash,以及本机 ESP-IDF 安装器写进 settings 的 guid
    assert_eq!(
        fragment_profile_guid("Git", "Git Bash"),
        "{2ece5bfe-50ed-5f3a-ab87-5cd4baafed2b}"
    );
    assert_eq!(
        fragment_profile_guid("ESP-IDF 5.5", "ESP-IDF 5.5"),
        "{68813744-91af-523a-83df-82adcac75a91}"
    );
}

#[test]
fn fragment_fills_commandline_for_settings_stub() {
    // 安装器只写 name + commandline,guid 由 WT 按 source+name 算出来
    let settings = r#"{
        "profiles": { "list": [
            {
                "guid": "{68813744-91af-523a-83df-82adcac75a91}",
                "hidden": false,
                "name": "ESP-IDF 5.5",
                "source": "ESP-IDF 5.5"
            }
        ]}
    }"#;
    let fragments = [frag(
        "ESP-IDF 5.5",
        r#"{
            "profiles": [{
                "name": "ESP-IDF 5.5",
                "startingDirectory": "D:/Espressif/frameworks/esp-idf-v5.5.3/",
                "commandline": "C:\\WINDOWS/System32/WindowsPowerShell/v1.0/powershell.exe -ExecutionPolicy Bypass -NoExit -File D:\\Espressif/Initialize-Idf.ps1 -IdfId esp-idf-fabfeda26c56c35d8c56d67988cf4834"
            }]
        }"#,
    )];
    let out = parse_with(settings, &fragments);
    assert_eq!(out.len(), 1);
    assert_eq!(
        out[0].id,
        "windows-terminal:{68813744-91af-523a-83df-82adcac75a91}"
    );
    assert_eq!(out[0].name, "ESP-IDF 5.5");
    assert_eq!(
        out[0].command,
        [
            r"C:\WINDOWS/System32/WindowsPowerShell/v1.0/powershell.exe",
            "-ExecutionPolicy",
            "Bypass",
            "-NoExit",
            "-File",
            r"D:\Espressif/Initialize-Idf.ps1",
            "-IdfId",
            "esp-idf-fabfeda26c56c35d8c56d67988cf4834"
        ]
    );
    assert_eq!(
        out[0].cwd.as_deref(),
        Some("D:/Espressif/frameworks/esp-idf-v5.5.3/")
    );
    assert!(out[0].detail.contains("Initialize-Idf.ps1"));
}

#[test]
fn wsl_fragment_uses_distribution_id_not_synthesized_dash_d() {
    let settings = r#"{
        "profiles": { "list": [
            {
                "font": { "size": 10 },
                "guid": "{ee603799-d7fe-5a9f-a662-e784d8a502df}",
                "hidden": false,
                "name": "Ubuntu 26.04",
                "source": "Microsoft.WSL"
            }
        ]}
    }"#;
    let fragments = [frag(
        "Microsoft.WSL",
        r#"{
            "profiles": [
                { "hidden": true, "updates": "{2c4de342-38b7-51cf-b940-2309a097f518}" },
                {
                    "commandline": "C:\\WINDOWS\\system32\\wsl.exe --distribution-id {fc3bf427-722c-4c2b-84bf-17202d2e3740}",
                    "guid": "{ee603799-d7fe-5a9f-a662-e784d8a502df}",
                    "name": "Ubuntu",
                    "startingDirectory": "~"
                }
            ]
        }"#,
    )];
    let out = parse_with(settings, &fragments);
    assert_eq!(out.len(), 1);
    // 用户改过的名字压过 fragment 原文
    assert_eq!(out[0].name, "Ubuntu 26.04");
    assert_eq!(
        out[0].command,
        [
            r"C:\WINDOWS\system32\wsl.exe",
            "--distribution-id",
            "{fc3bf427-722c-4c2b-84bf-17202d2e3740}"
        ]
    );
    // `~` 不是 Windows 路径,不能当成 cwd
    assert_eq!(out[0].cwd, None);
}

#[test]
fn user_commandline_wins_over_fragment() {
    let settings = r#"{
        "profiles": { "list": [
            {
                "guid": "{68813744-91af-523a-83df-82adcac75a91}",
                "name": "ESP-IDF 5.5",
                "source": "ESP-IDF 5.5",
                "commandline": "cmd.exe /k echo hi"
            }
        ]}
    }"#;
    let fragments = [frag(
        "ESP-IDF 5.5",
        r#"{ "profiles": [{ "name": "ESP-IDF 5.5", "commandline": "powershell.exe" }] }"#,
    )];
    let out = parse_with(settings, &fragments);
    assert_eq!(out[0].command, ["cmd.exe", "/k", "echo", "hi"]);
    assert_eq!(out[0].detail, "cmd.exe /k echo hi");
}

#[test]
fn fragment_only_profile_is_appended() {
    let fragments = [frag(
        "ESP-IDF 5.5",
        r#"{ "profiles": [{ "name": "ESP-IDF 5.5", "commandline": "powershell.exe" }] }"#,
    )];
    let out = parse_with(r#"{ "profiles": { "list": [] } }"#, &fragments);
    assert_eq!(out.len(), 1);
    assert_eq!(
        out[0].id,
        "windows-terminal:{68813744-91af-523a-83df-82adcac75a91}"
    );
    assert_eq!(out[0].command, ["powershell.exe"]);
}

#[test]
fn fragment_updates_can_hide_an_existing_profile() {
    let settings = r#"{
        "profiles": { "list": [
            { "guid": "{2c4de342-38b7-51cf-b940-2309a097f518}", "name": "Ubuntu", "source": "Windows.Terminal.Wsl" }
        ]}
    }"#;
    let fragments = [frag(
        "Microsoft.WSL",
        r#"{ "profiles": [{ "hidden": true, "updates": "{2c4de342-38b7-51cf-b940-2309a097f518}" }] }"#,
    )];
    assert!(parse_with(settings, &fragments).is_empty());
}

#[test]
fn user_hidden_false_unhides_a_fragment() {
    let settings = r#"{
        "profiles": { "list": [
            { "guid": "{g}", "name": "X", "source": "App", "hidden": false }
        ]}
    }"#;
    let fragments = [frag(
        "App",
        r#"{ "profiles": [{ "guid": "{g}", "name": "X", "commandline": "cmd.exe", "hidden": true }] }"#,
    )];
    let out = parse_with(settings, &fragments);
    assert_eq!(out.len(), 1);
    assert_eq!(out[0].command, ["cmd.exe"]);
}

#[test]
fn disabled_profile_sources_are_skipped() {
    let settings = r#"{
        "disabledProfileSources": ["Microsoft.WSL"],
        "profiles": { "list": [
            { "guid": "{ee603799-d7fe-5a9f-a662-e784d8a502df}", "name": "Ubuntu", "source": "Microsoft.WSL" }
        ]}
    }"#;
    let fragments = [frag(
        "Microsoft.WSL",
        r#"{ "profiles": [{ "guid": "{ee603799-d7fe-5a9f-a662-e784d8a502df}", "name": "Ubuntu", "commandline": "wsl.exe" }] }"#,
    )];
    assert!(parse_with(settings, &fragments).is_empty());
}

#[test]
fn guid_match_is_case_insensitive() {
    let settings = r#"{
        "profiles": { "list": [
            { "guid": "{EE603799-D7FE-5A9F-A662-E784D8A502DF}", "name": "Ubuntu", "source": "Microsoft.WSL" }
        ]}
    }"#;
    let fragments = [frag(
        "Microsoft.WSL",
        r#"{ "profiles": [{ "guid": "{ee603799-d7fe-5a9f-a662-e784d8a502df}", "commandline": "wsl.exe" }] }"#,
    )];
    let out = parse_with(settings, &fragments);
    assert_eq!(out.len(), 1);
    // 对外的 id 保持 settings 里的写法,客户端记过的不会漂
    assert_eq!(
        out[0].id,
        "windows-terminal:{EE603799-D7FE-5A9F-A662-E784D8A502DF}"
    );
    assert_eq!(out[0].command, ["wsl.exe"]);
}

#[test]
fn later_fragment_overlays_earlier_for_the_same_guid() {
    let fragments = [
        frag(
            "A",
            r#"{ "profiles": [{ "guid": "{g}", "name": "A", "commandline": "a.exe" }] }"#,
        ),
        frag(
            "A",
            r#"{ "profiles": [{ "guid": "{g}", "commandline": "b.exe" }] }"#,
        ),
    ];
    let out = parse_with("{}", &fragments);
    assert_eq!(out[0].command, ["b.exe"]);
    assert_eq!(out[0].name, "A");
}

#[test]
fn malformed_fragment_is_skipped_not_fatal() {
    let fragments = [
        frag("Bad", "{ not json"),
        frag(
            "Good",
            r#"{ "profiles": [{ "name": "Ok", "commandline": "cmd.exe" }] }"#,
        ),
    ];
    let out = parse_with("{}", &fragments);
    assert_eq!(out.len(), 1);
    assert_eq!(out[0].name, "Ok");
}

#[test]
fn settings_list_order_is_preserved_before_fragment_only() {
    let settings = r#"{
        "profiles": { "list": [
            { "guid": "{one}", "name": "One", "commandline": "one.exe" }
        ]}
    }"#;
    let fragments = [frag(
        "Two",
        r#"{ "profiles": [{ "name": "Two", "commandline": "two.exe" }] }"#,
    )];
    let out = parse_with(settings, &fragments);
    assert_eq!(
        out.iter().map(|l| l.name.as_str()).collect::<Vec<_>>(),
        ["One", "Two"]
    );
}

#[test]
fn settings_and_fragments_are_looked_up_under_the_known_folders() {
    let local = r"C:\Users\u\AppData\Local".to_string();
    assert_eq!(
        settings_paths(Some(local.clone())),
        vec![
            r"C:\Users\u\AppData\Local\Packages\Microsoft.WindowsTerminal_8wekyb3d8bbwe\LocalState\settings.json".to_string(),
            r"C:\Users\u\AppData\Local\Packages\Microsoft.WindowsTerminalPreview_8wekyb3d8bbwe\LocalState\settings.json".to_string(),
            r"C:\Users\u\AppData\Local\Microsoft\Windows Terminal\settings.json".to_string(),
        ]
    );
    assert!(settings_paths(None).is_empty());
    assert_eq!(
        fragment_roots(Some(r"C:\ProgramData".into()), Some(local)),
        vec![
            r"C:\ProgramData\Microsoft\Windows Terminal\Fragments".to_string(),
            r"C:\Users\u\AppData\Local\Microsoft\Windows Terminal\Fragments".to_string(),
        ]
    );
    assert!(fragment_roots(None, None).is_empty());
}
