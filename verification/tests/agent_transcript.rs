use octoterm::agent::claude_transcript::parse;
use octoterm::agent::transcript::{Block, Role};

fn fnv(text: &str) -> u64 {
    let mut h: u64 = 0xcbf2_9ce4_8422_2325;
    for b in text.bytes() {
        h ^= b as u64;
        h = h.wrapping_mul(0x0000_0100_0000_01b3);
    }
    h
}

#[test]
fn user_and_assistant_records_become_messages() {
    let text = [
        r#"{"type":"user","uuid":"u-1","timestamp":"1970-01-01T00:00:10.000Z","message":{"content":"hello"}}"#,
        r#"{"type":"assistant","uuid":"a-1","message":{"content":[{"type":"thinking","thinking":"hm"},{"type":"text","text":"hi"},{"type":"tool_use","name":"Bash","input":{"command":"ls"}},{"type":"image"}]}}"#,
        r#"{"type":"system","uuid":"s-1","message":{"content":"x"}}"#,
        r#"{"type":"user","uuid":"u-2","message":{"content":[{"type":"tool_result","is_error":true,"content":[{"text":"a"},{"x":1},{"text":"b"}]}]}}"#,
        "",
    ]
    .join("\n");
    let msgs = parse(&text);
    assert_eq!(msgs.len(), 3);
    assert_eq!(msgs[0].id, "u-1");
    assert_eq!(msgs[0].role, Role::User);
    assert_eq!(msgs[0].ts, Some(10));
    assert_eq!(msgs[0].blocks, vec![Block::Text { text: "hello".into() }]);
    assert_eq!(msgs[1].role, Role::Assistant);
    assert_eq!(msgs[1].ts, None);
    assert_eq!(
        msgs[1].blocks,
        vec![
            Block::Thinking { text: "hm".into() },
            Block::Text { text: "hi".into() },
            Block::ToolUse { name: "Bash".into(), input: "ls".into() },
        ]
    );
    assert_eq!(msgs[2].blocks, vec![Block::ToolResult { ok: false, text: "a\nb".into() }]);
}

#[test]
fn a_broken_line_is_skipped_alone() {
    let text = [
        r#"ant","message":{"content":"cut"}}"#,
        "\n",
        r#"{"type":"user","uuid":"u-1","message":{"content":"whole"}}"#,
        "\r\n",
        "\n",
        r#"{"type":"user","uuid":"u-2","message":{"content":[]}}"#,
        "\n",
        r#"{"type":"user","uuid":"u-3","mess"#,
    ]
    .concat();
    let msgs = parse(&text);
    assert_eq!(msgs.len(), 1);
    assert_eq!(msgs[0].id, "u-1");
}

#[test]
fn a_message_without_an_id_is_named_by_its_content() {
    let line = r#"{"type":"user","message":{"content":"hi"}}"#;
    let first = parse(line);
    let twice = parse(&format!("{line}\n{line}"));
    let want = format!("h{:016x}", fnv(r#"{"kind":"text","text":"hi"}"#));
    assert_eq!(first[0].id, want);
    assert_eq!(twice[0].id, want);
    assert_eq!(twice[1].id, want);
    let other = parse(r#"{"type":"user","id":"r-9","message":{"id":"m-1","content":"hi"}}"#);
    assert_eq!(other[0].id, "r-9");
    let inner = parse(r#"{"type":"user","message":{"id":"m-1","content":"hi"}}"#);
    assert_eq!(inner[0].id, "m-1");
}

#[test]
fn tool_blocks_hash_in_their_wire_form() {
    let line = r#"{"type":"assistant","message":{"content":[{"type":"tool_result","content":"ok"},{"type":"tool_use","input":"x"}]}}"#;
    let msgs = parse(line);
    assert_eq!(
        msgs[0].blocks,
        vec![Block::ToolResult { ok: true, text: "ok".into() }, Block::ToolUse { name: "?".into(), input: "x".into() }]
    );
    let mut h: u64 = 0xcbf2_9ce4_8422_2325;
    for t in [r#"{"kind":"tool-result","ok":true,"text":"ok"}"#, r#"{"kind":"tool-use","name":"?","input":"x"}"#] {
        for b in t.bytes() {
            h ^= b as u64;
            h = h.wrapping_mul(0x0000_0100_0000_01b3);
        }
    }
    assert_eq!(msgs[0].id, format!("h{h:016x}"));
}

#[test]
fn joined_transcripts_read_as_the_two_parts() {
    let a = r#"{"type":"user","uuid":"u1","message":{"content":"hi"}}
not json"#;
    let b = r#"{"type":"assistant","uuid":"a1","message":{"content":[{"type":"text","text":"yo"}]}}
{"type":"summary"}"#;
    let joined = format!("{a}\n{b}");
    let whole = parse(&joined);
    let mut parts = parse(a);
    parts.extend(parse(b));
    assert_eq!(whole, parts);
    assert_eq!(whole.len(), 2);
}
