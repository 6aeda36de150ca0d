//! The Codex adapter.
//!
//! Codex runs command hooks only, so its hooks invoke this server's binary
//! (`hook <url>`, see [`super::hook_cli`]), which forwards to the local server. Its
//! hook file is `~/.codex/hooks.json`. Installed is not yet in effect: Codex gates
//! each entry by a trusted hash that the user grants in its own review screen, and
//! that gate is never written from here.
use vstd::prelude::*;
use crate::json::{Json, JsonView, jview, spec_get, spec_get_str, parse_json, spec_parse_json};
use crate::launcher::opt_view;
use crate::protocol::messages::AgentState;
use crate::text::{decimal_text, spec_decimal, str_eq};
use super::edit::{ConfigEdit, EditOp, InstallCtx, is_ours, slug_of_event, spec_hook_port, spec_slug_of_event};
use super::store::{Decision, Update};
use super::{AgentAdapter, Confidence, Detected, Integration};

verus! {

/// The adapter's id, also the agent segment of its hook URLs.
pub open spec fn codex_id() -> Seq<char> {
    "codex"@
}

/// How long Codex waits on a telemetry hook, in seconds.
pub const TELEMETRY_TIMEOUT_SECS: u64 = 30;

/// How long Codex waits on a blocking hook, in seconds.
pub const BLOCKING_TIMEOUT_SECS: u64 = 600;

pub struct Codex;

/// The telemetry events installed: those Codex is known to accept.
pub open spec fn telemetry_events() -> Seq<Seq<char>> {
    seq!["SessionStart"@, "UserPromptSubmit"@, "PreToolUse"@, "PostToolUse"@, "Stop"@]
}

/// The blocking events installed.
pub open spec fn blocking_events() -> Seq<Seq<char>> {
    seq!["PermissionRequest"@]
}

/// Every managed event with whether it blocks, telemetry first.
pub open spec fn managed_events() -> Seq<(Seq<char>, bool)> {
    seq![
        ("SessionStart"@, false),
        ("UserPromptSubmit"@, false),
        ("PreToolUse"@, false),
        ("PostToolUse"@, false),
        ("Stop"@, false),
        ("PermissionRequest"@, true),
    ]
}

/// The state an event puts the session in.
pub open spec fn spec_state_of(event: Seq<char>) -> Option<AgentState> {
    if event == "SessionStart"@ {
        Some(AgentState::Idle)
    } else if event == "SessionEnd"@ {
        Some(AgentState::Done)
    } else if event == "UserPromptSubmit"@ {
        Some(AgentState::Thinking)
    } else if event == "PreToolUse"@ || event == "PostToolUse"@ {
        Some(AgentState::Working)
    } else if event == "Stop"@ {
        Some(AgentState::Idle)
    } else {
        None
    }
}

pub fn state_of(event: &str) -> (r: Option<AgentState>)
    ensures
        r == spec_state_of(event@),
{
    if str_eq(event, "SessionStart") {
        Some(AgentState::Idle)
    } else if str_eq(event, "SessionEnd") {
        Some(AgentState::Done)
    } else if str_eq(event, "UserPromptSubmit") {
        Some(AgentState::Thinking)
    } else if str_eq(event, "PreToolUse") || str_eq(event, "PostToolUse") {
        Some(AgentState::Working)
    } else if str_eq(event, "Stop") {
        Some(AgentState::Idle)
    } else {
        None
    }
}

/// `<dir>/<name>`, with no second separator when `dir` already ends in one.
pub open spec fn join_path(dir: Seq<char>, name: Seq<char>) -> Seq<char> {
    if dir.len() > 0 && (dir.last() == '/' || dir.last() == '\\') {
        dir + name
    } else {
        dir + seq!['/'] + name
    }
}

pub fn join(dir: &str, name: &str) -> (r: String)
    ensures
        r@ == join_path(dir@, name@),
{
    let mut out = dir.to_string();
    let n = dir.unicode_len();
    let ends_sep = n > 0 && (dir.get_char(n - 1) == '/' || dir.get_char(n - 1) == '\\');
    if !ends_sep {
        out.append("/");
    }
    out.append(name);
    proof {
        reveal_strlit("/");
    }
    out
}

/// `~/.codex/hooks.json` under `home`.
pub open spec fn spec_hooks_path(home: Seq<char>) -> Seq<char> {
    join_path(join_path(home, ".codex"@), "hooks.json"@)
}

pub fn hooks_path(home: &str) -> (r: String)
    ensures
        r@ == spec_hooks_path(home@),
{
    let dir = join(home, ".codex");
    join(dir.as_str(), "hooks.json")
}

/// The command a hook runs: `"<exe>" hook http://127.0.0.1:<port>/hook/codex/<slug>`.
pub open spec fn spec_command_for(exe: Seq<char>, port: u16, event: Seq<char>) -> Seq<char> {
    "\""@ + exe + "\" hook http://127.0.0.1:"@ + spec_decimal(port as nat) + "/hook/codex/"@
        + spec_slug_of_event(event)
}

pub fn command_for(exe: &str, port: u16, event: &str) -> (r: String)
    ensures
        r@ == spec_command_for(exe@, port, event@),
{
    let mut out = String::from_str("\"");
    out.append(exe);
    out.append("\" hook http://127.0.0.1:");
    let p = decimal_text(port as u64);
    out.append(p.as_str());
    out.append("/hook/codex/");
    let slug = slug_of_event(event);
    out.append(slug.as_str());
    out
}

/// The hook entry installed for an event.
pub open spec fn spec_hook_spec(exe: Seq<char>, port: u16, event: Seq<char>, blocking: bool) -> JsonView {
    JsonView::Object(
        seq![
            ("type"@, JsonView::Str("command"@)),
            ("command"@, JsonView::Str(spec_command_for(exe, port, event))),
            ("timeout"@, JsonView::Number(spec_decimal(
                (if blocking { BLOCKING_TIMEOUT_SECS } else { TELEMETRY_TIMEOUT_SECS }) as nat,
            ))),
        ],
    )
}

pub fn hook_spec(exe: &str, port: u16, event: &str, blocking: bool) -> (r: Json)
    ensures
        jview(r) == spec_hook_spec(exe@, port, event@, blocking),
{
    let timeout = if blocking {
        BLOCKING_TIMEOUT_SECS
    } else {
        TELEMETRY_TIMEOUT_SECS
    };
    let mut members: Vec<(String, Json)> = Vec::new();
    members.push((String::from_str("type"), Json::Str(String::from_str("command"))));
    members.push((String::from_str("command"), Json::Str(command_for(exe, port, event))));
    members.push((String::from_str("timeout"), Json::Number(decimal_text(timeout))));
    let r = Json::Object(members);
    proof {
        reveal_with_fuel(crate::json::mviews, 4);
        assert(crate::json::mviews(members@) =~= seq![
            ("type"@, JsonView::Str("command"@)),
            ("command"@, JsonView::Str(spec_command_for(exe@, port, event@))),
            ("timeout"@, JsonView::Number(spec_decimal(timeout as nat))),
        ]);
    }
    r
}

/// Whether the event carries a tool name worth showing.
pub open spec fn is_tool_event(event: Seq<char>) -> bool {
    event == "PreToolUse"@ || event == "PostToolUse"@
}

pub(crate) fn get_str(body: &Json, key: &str) -> (r: Option<String>)
    ensures
        opt_view(r) == spec_get_str(*body, key@),
{
    match body.get(key) {
        Some(v) => match v.as_str() {
            Some(t) => Some(t.to_string()),
            None => None,
        },
        None => None,
    }
}

/// The update a hook call carries: its state, the tool name on tool events, the
/// working directory; `None` for an event without a state.
pub fn parse(event: &str, body: &Json) -> (r: Option<Update>)
    ensures
        match spec_state_of(event@) {
            None => r is None,
            Some(st) => r matches Some(u) && u.state == Some(st) && opt_view(u.detail) == (
            if is_tool_event(event@) {
                spec_get_str(*body, "tool_name"@)
            } else {
                None
            }) && opt_view(u.cwd) == spec_get_str(*body, "cwd"@) && u.title is None,
        },
{
    let state = match state_of(event) {
        Some(st) => st,
        None => return None,
    };
    let detail = if str_eq(event, "PreToolUse") || str_eq(event, "PostToolUse") {
        get_str(body, "tool_name")
    } else {
        None
    };
    Some(Update { state: Some(state), detail, cwd: get_str(body, "cwd"), title: None })
}

/// Whether the event waits for a decision.
pub fn is_blocking(event: &str) -> (r: bool)
    ensures
        r == (event@ == "PermissionRequest"@),
{
    str_eq(event, "PermissionRequest")
}

/// The optional `message` member.
pub open spec fn message_member(m: Option<String>) -> Seq<(Seq<char>, JsonView)> {
    match m {
        Some(t) => seq![("message"@, JsonView::Str(t@))],
        None => Seq::empty(),
    }
}

/// The optional `updatedInput` member.
pub open spec fn updated_member(u: Option<Json>) -> Seq<(Seq<char>, JsonView)> {
    match u {
        Some(j) => seq![("updatedInput"@, jview(j))],
        None => Seq::empty(),
    }
}

/// The reply to a blocking hook: the decision object inside the permission-request
/// envelope; `{}` for no decision, which lets the agent ask in its own terminal.
pub open spec fn spec_render(d: Decision) -> JsonView {
    match d {
        Decision::NoDecision => JsonView::Object(Seq::empty()),
        Decision::Allow { message, updated_input } => envelope(JsonView::Object(
            seq![("behavior"@, JsonView::Str("allow"@))] + message_member(message) + updated_member(
                updated_input,
            ),
        )),
        Decision::Deny { message } => envelope(
            JsonView::Object(seq![("behavior"@, JsonView::Str("deny"@))] + message_member(message)),
        ),
    }
}

pub open spec fn envelope(decision: JsonView) -> JsonView {
    JsonView::Object(
        seq![
            (
                "hookSpecificOutput"@,
                JsonView::Object(
                    seq![
                        ("hookEventName"@, JsonView::Str("PermissionRequest"@)),
                        ("decision"@, decision),
                    ],
                ),
            ),
        ],
    )
}

pub(crate) fn push_member(ms: &mut Vec<(String, Json)>, key: String, value: Json)
    ensures
        crate::json::mviews(final(ms)@) == crate::json::mviews(old(ms)@) + seq![(key@, jview(value))],
{
    let ghost before = ms@;
    ms.push((key, value));
    assert(ms@.drop_last() =~= before);
}

fn push_message(ms: &mut Vec<(String, Json)>, m: &Option<String>)
    ensures
        crate::json::mviews(final(ms)@) == crate::json::mviews(old(ms)@) + message_member(*m),
{
    match m {
        Some(t) => push_member(ms, String::from_str("message"), Json::Str(t.clone())),
        None => {
            assert(crate::json::mviews(ms@) + Seq::empty() =~= crate::json::mviews(ms@));
        },
    }
}

fn wrap(decision: Json) -> (r: Json)
    ensures
        jview(r) == envelope(jview(decision)),
{
    let mut inner: Vec<(String, Json)> = Vec::new();
    proof {
        assert(crate::json::mviews(inner@) =~= Seq::empty());
    }
    push_member(&mut inner, String::from_str("hookEventName"), Json::Str(String::from_str("PermissionRequest")));
    push_member(&mut inner, String::from_str("decision"), decision);
    let mut outer: Vec<(String, Json)> = Vec::new();
    proof {
        assert(crate::json::mviews(outer@) =~= Seq::empty());
    }
    proof {
        assert(crate::json::mviews(Seq::<(String, Json)>::empty()) =~= Seq::empty());
        assert(crate::json::mviews(inner@) =~= seq![
            ("hookEventName"@, JsonView::Str("PermissionRequest"@)),
            ("decision"@, jview(decision)),
        ]);
    }
    let inner_json = Json::Object(inner);
    push_member(&mut outer, String::from_str("hookSpecificOutput"), inner_json);
    proof {
        assert(crate::json::mviews(outer@) =~= seq![("hookSpecificOutput"@, jview(inner_json))]);
    }
    Json::Object(outer)
}

pub fn render(decision: &Decision) -> (r: Json)
    ensures
        jview(r) == spec_render(*decision),
{
    proof {
        assert(crate::json::mviews(Seq::<(String, Json)>::empty()) =~= Seq::empty());
    }
    match decision {
        Decision::NoDecision => Json::Object(Vec::new()),
        Decision::Allow { message, updated_input } => {
            let mut ms: Vec<(String, Json)> = Vec::new();
            push_member(&mut ms, String::from_str("behavior"), Json::Str(String::from_str("allow")));
            push_message(&mut ms, message);
            match updated_input {
                Some(u) => push_member(&mut ms, String::from_str("updatedInput"), u.duplicate()),
                None => {},
            }
            proof {
                let a = seq![("behavior"@, JsonView::Str("allow"@))];
                assert(crate::json::mviews(ms@) =~= a + message_member(*message) + updated_member(*updated_input));
            }
            wrap(Json::Object(ms))
        },
        Decision::Deny { message } => {
            let mut ms: Vec<(String, Json)> = Vec::new();
            push_member(&mut ms, String::from_str("behavior"), Json::Str(String::from_str("deny")));
            push_message(&mut ms, message);
            wrap(Json::Object(ms))
        },
    }
}

/// The events an install covers: all managed ones, the blocking one (last) only when
/// asked for.
pub open spec fn install_events(include_blocking: bool) -> Seq<(Seq<char>, bool)> {
    if include_blocking {
        managed_events()
    } else {
        managed_events().subrange(0, 5)
    }
}

/// An edit that installs our entry for one event into the hook file `path`.
pub open spec fn is_ensure_edit(e: ConfigEdit, path: Seq<char>, exe: Seq<char>, port: u16, ev: (Seq<char>, bool)) -> bool {
    &&& e.path@ == path
    &&& e.op matches EditOp::EnsureHook { event, spec } && event@ == ev.0 && jview(spec) == spec_hook_spec(exe, port, ev.0, ev.1)
}

/// An edit that removes our entries for one event from the hook file `path`.
pub open spec fn is_remove_edit(e: ConfigEdit, path: Seq<char>, event: Seq<char>) -> bool {
    &&& e.path@ == path
    &&& e.op matches EditOp::RemoveOurs { event: ev } && ev@ == event
}

fn push_ensure(out: &mut Vec<ConfigEdit>, ctx: &InstallCtx, path: &String, event: &str, blocking: bool)
    ensures
        final(out)@.len() == old(out)@.len() + 1,
        forall|i: int| 0 <= i < old(out)@.len() ==> final(out)@[i] == old(out)@[i],
        is_ensure_edit(final(out)@[old(out)@.len() as int], path@, ctx.exe@, ctx.port, (event@, blocking)),
{
    let spec = hook_spec(ctx.exe.as_str(), ctx.port, event, blocking);
    out.push(ConfigEdit { path: path.clone(), op: EditOp::EnsureHook { event: event.to_string(), spec } });
}

fn push_remove(out: &mut Vec<ConfigEdit>, path: &String, event: &str)
    ensures
        final(out)@.len() == old(out)@.len() + 1,
        forall|i: int| 0 <= i < old(out)@.len() ==> final(out)@[i] == old(out)@[i],
        is_remove_edit(final(out)@[old(out)@.len() as int], path@, event@),
{
    out.push(ConfigEdit { path: path.clone(), op: EditOp::RemoveOurs { event: event.to_string() } });
}

/// The install plan: for each event to install, in order, our entry into `hooks.json`.
pub fn plan_install(ctx: &InstallCtx) -> (r: Vec<ConfigEdit>)
    ensures
        r@.len() == install_events(ctx.include_blocking).len(),
        forall|i: int| 0 <= i < r@.len() ==> is_ensure_edit(
            #[trigger] r@[i],
            spec_hooks_path(ctx.home@),
            ctx.exe@,
            ctx.port,
            install_events(ctx.include_blocking)[i],
        ),
{
    let path = hooks_path(ctx.home.as_str());
    let mut out: Vec<ConfigEdit> = Vec::new();
    push_ensure(&mut out, ctx, &path, "SessionStart", false);
    push_ensure(&mut out, ctx, &path, "UserPromptSubmit", false);
    push_ensure(&mut out, ctx, &path, "PreToolUse", false);
    push_ensure(&mut out, ctx, &path, "PostToolUse", false);
    push_ensure(&mut out, ctx, &path, "Stop", false);
    if ctx.include_blocking {
        push_ensure(&mut out, ctx, &path, "PermissionRequest", true);
    }
    proof {
        let ev = install_events(ctx.include_blocking);
        assert(managed_events().subrange(0, 5) =~= seq![
            ("SessionStart"@, false),
            ("UserPromptSubmit"@, false),
            ("PreToolUse"@, false),
            ("PostToolUse"@, false),
            ("Stop"@, false),
        ]);
    }
    out
}

/// The uninstall plan: for every managed event, blocking or not, removal of ours.
pub fn plan_uninstall(ctx: &InstallCtx) -> (r: Vec<ConfigEdit>)
    ensures
        r@.len() == managed_events().len(),
        forall|i: int| 0 <= i < r@.len() ==> is_remove_edit(
            #[trigger] r@[i],
            spec_hooks_path(ctx.home@),
            managed_events()[i].0,
        ),
{
    let path = hooks_path(ctx.home.as_str());
    let mut out: Vec<ConfigEdit> = Vec::new();
    push_remove(&mut out, &path, "SessionStart");
    push_remove(&mut out, &path, "UserPromptSubmit");
    push_remove(&mut out, &path, "PreToolUse");
    push_remove(&mut out, &path, "PostToolUse");
    push_remove(&mut out, &path, "Stop");
    push_remove(&mut out, &path, "PermissionRequest");
    out
}

/// The hook entries of one group.
pub open spec fn group_hooks(g: Json) -> Seq<Json> {
    match spec_get(g, "hooks"@) {
        Some(Json::Array(hs)) => hs@,
        _ => Seq::empty(),
    }
}

/// The groups registered under `event`.
pub open spec fn event_groups(doc: Json, event: Seq<char>) -> Seq<Json> {
    match spec_get(doc, "hooks"@) {
        Some(h) => match spec_get(h, event) {
            Some(Json::Array(gs)) => gs@,
            _ => Seq::empty(),
        },
        None => Seq::empty(),
    }
}

/// The entries of a list of groups, group by group.
pub open spec fn flat_hooks(gs: Seq<Json>) -> Seq<Json>
    decreases gs.len(),
{
    if gs.len() == 0 {
        Seq::empty()
    } else {
        flat_hooks(gs.drop_last()) + group_hooks(gs.last())
    }
}

/// Every hook entry registered under `event`.
#[verifier::opaque]
pub open spec fn hooks_of(doc: Json, event: Seq<char>) -> Seq<Json> {
    flat_hooks(event_groups(doc, event))
}

/// Whether `hay` contains `needle`.
pub open spec fn contains_seq(hay: Seq<char>, needle: Seq<char>) -> bool {
    exists|i: int| 0 <= i && i + needle.len() <= hay.len() && #[trigger] hay.subrange(i, i + needle.len()) == needle
}

/// A command hook that forwards to some local server's Codex endpoint: ours, on
/// whatever port.
#[verifier::opaque]
pub open spec fn is_our_shape(h: Json) -> bool {
    match spec_get_str(h, "command"@) {
        Some(c) => contains_seq(c, "http://127.0.0.1:"@) && contains_seq(c, "/hook/codex/"@),
        None => false,
    }
}

/// An entry this server wrote for `port` (see [`is_ours`]).
#[verifier::opaque]
pub open spec fn spec_is_ours(h: Json, port: u16) -> bool {
    spec_hook_port(h) == Some(port)
}

pub open spec fn has_ours(hs: Seq<Json>, port: u16) -> bool {
    exists|j: int| 0 <= j < hs.len() && spec_is_ours(#[trigger] hs[j], port)
}

pub open spec fn has_stale(hs: Seq<Json>, port: u16) -> bool {
    exists|j: int| 0 <= j < hs.len() && !spec_is_ours(#[trigger] hs[j], port) && is_our_shape(hs[j])
}

/// Whether any of the events has one of ours for `port`.
pub open spec fn any_ours(doc: Json, evs: Seq<(Seq<char>, bool)>, port: u16) -> bool
    decreases evs.len(),
{
    evs.len() > 0 && (any_ours(doc, evs.drop_last(), port) || has_ours(hooks_of(doc, evs.last().0), port))
}

/// Whether any of the events has one of ours for another port.
pub open spec fn any_stale(doc: Json, evs: Seq<(Seq<char>, bool)>, port: u16) -> bool
    decreases evs.len(),
{
    evs.len() > 0 && (any_stale(doc, evs.drop_last(), port) || has_stale(hooks_of(doc, evs.last().0), port))
}

/// How many entries are another program's: neither ours nor of our shape.
pub open spec fn foreign_count(hs: Seq<Json>, port: u16) -> nat
    decreases hs.len(),
{
    if hs.len() == 0 {
        0
    } else {
        foreign_count(hs.drop_last(), port) + if !spec_is_ours(hs.last(), port) && !is_our_shape(hs.last()) {
            1nat
        } else {
            0nat
        }
    }
}

/// The line reported for another program's blocking hook on `event`.
pub open spec fn conflict_line(event: Seq<char>) -> Seq<char> {
    event + " 上已有别的程序的 hook"@
}

/// The integration's state in the hook document: installed when an entry of ours
/// for `port` is there; a stale port when only entries of ours for other ports are.
pub open spec fn spec_integration(doc: Json, port: u16) -> Integration {
    if any_ours(doc, managed_events(), port) {
        Integration::Installed
    } else if any_stale(doc, managed_events(), port) {
        Integration::StalePort
    } else {
        Integration::NotInstalled
    }
}

pub(crate) fn contains_chars(hay: &Vec<char>, needle: &str) -> (r: bool)
    ensures
        r == contains_seq(hay@, needle@),
{
    let nd = crate::text::chars_of(needle);
    let n = nd.len();
    if n > hay.len() {
        proof {
            assert forall|i: int| 0 <= i && i + n <= hay@.len() implies #[trigger] hay@.subrange(i, i + n) != needle@ by {}
        }
        return false;
    }
    let mut i: usize = 0;
    while i <= hay.len() - n
        invariant
            n == nd@.len(),
            nd@ == needle@,
            n <= hay.len(),
            i <= hay.len() - n + 1,
            forall|k: int| 0 <= k < i ==> #[trigger] hay@.subrange(k, k + n) != needle@,
        decreases hay.len() - n + 1 - i,
    {
        let mut j: usize = 0;
        let mut same = true;
        while j < n && same
            invariant
                n == nd@.len(),
                i + n <= hay.len(),
                j <= n,
                same == (forall|t: int| 0 <= t < j ==> hay@[i + t] == nd@[t]),
            decreases n - j,
        {
            if hay[i + j] != nd[j] {
                same = false;
            }
            j = j + 1;
        }
        if same {
            assert(hay@.subrange(i as int, i + n) =~= nd@);
            return true;
        }
        proof {
            let t = choose|t: int| 0 <= t < j && hay@[i + t] != nd@[t];
            assert(hay@.subrange(i as int, i + n)[t] != nd@[t]);
        }
        i = i + 1;
    }
    false
}

fn our_shape(h: &Json) -> (r: bool)
    ensures
        r == is_our_shape(*h),
{
    proof {
        reveal(is_our_shape);
    }
    match get_str(h, "command") {
        Some(c) => {
            let cs = crate::text::chars_of(c.as_str());
            contains_chars(&cs, "http://127.0.0.1:") && contains_chars(&cs, "/hook/codex/")
        },
        None => false,
    }
}

pub(crate) proof fn lemma_flat_step(gs: Seq<Json>, k: int)
    requires
        0 <= k < gs.len(),
    ensures
        flat_hooks(gs.subrange(0, k + 1)) == flat_hooks(gs.subrange(0, k)) + group_hooks(gs[k]),
{
    assert(gs.subrange(0, k + 1).drop_last() =~= gs.subrange(0, k));
}

pub(crate) fn group_list(g: &Json) -> (r: Option<&Vec<Json>>)
    ensures
        match r {
            Some(v) => v@ == group_hooks(*g),
            None => group_hooks(*g) == Seq::<Json>::empty(),
        },
{
    match g.get("hooks") {
        Some(h) => match h {
            Json::Array(hs) => Some(hs),
            _ => None,
        },
        None => None,
    }
}

fn event_list<'a>(doc: &'a Json, event: &str) -> (r: Option<&'a Vec<Json>>)
    ensures
        match r {
            Some(v) => v@ == event_groups(*doc, event@),
            None => event_groups(*doc, event@) == Seq::<Json>::empty(),
        },
{
    match doc.get("hooks") {
        Some(h) => match h.get(event) {
            Some(e) => match e {
                Json::Array(gs) => Some(gs),
                _ => None,
            },
            None => None,
        },
        None => None,
    }
}

/// The hook entries under `event`, group by group.
pub(crate) fn collect_hooks<'a>(doc: &'a Json, event: &str) -> (r: Vec<&'a Json>)
    ensures
        r@.len() == hooks_of(*doc, event@).len(),
        forall|k: int| 0 <= k < r@.len() ==> *r@[k] == hooks_of(*doc, event@)[k],
{
    proof {
        reveal(hooks_of);
    }
    let mut out: Vec<&Json> = Vec::new();
    let gs = match event_list(doc, event) {
        Some(gs) => gs,
        None => return out,
    };
    let mut gi: usize = 0;
    while gi < gs.len()
        invariant
            gi <= gs.len(),
            gs@ == event_groups(*doc, event@),
            out@.len() == flat_hooks(gs@.subrange(0, gi as int)).len(),
            forall|k: int| 0 <= k < out@.len() ==> *out@[k] == flat_hooks(gs@.subrange(0, gi as int))[k],
        decreases gs.len() - gi,
    {
        proof {
            lemma_flat_step(gs@, gi as int);
        }
        let ghost before = flat_hooks(gs@.subrange(0, gi as int));
        if let Some(hs) = group_list(&gs[gi]) {
            let mut hi: usize = 0;
            while hi < hs.len()
                invariant
                    hi <= hs.len(),
                    hs@ == group_hooks(gs@[gi as int]),
                    out@.len() == before.len() + hi,
                    forall|k: int| 0 <= k < before.len() ==> *out@[k] == before[k],
                    forall|k: int| 0 <= k < hi ==> *out@[before.len() + k] == hs@[k],
                decreases hs.len() - hi,
            {
                out.push(&hs[hi]);
                hi = hi + 1;
            }
            proof {
                let after = flat_hooks(gs@.subrange(0, gi + 1));
                assert forall|k: int| 0 <= k < out@.len() implies *out@[k] == after[k] by {
                    if k >= before.len() {
                        assert(*out@[before.len() + (k - before.len())] == hs@[k - before.len()]);
                    }
                }
            }
        } else {
            proof {
                assert(flat_hooks(gs@.subrange(0, gi + 1)) =~= before);
            }
        }
        gi = gi + 1;
    }
    assert(gs@.subrange(0, gs.len() as int) =~= gs@);
    out
}

proof fn lemma_foreign_step(hs: Seq<Json>, k: int, port: u16)
    requires
        0 <= k < hs.len(),
    ensures
        foreign_count(hs.subrange(0, k + 1), port) == foreign_count(hs.subrange(0, k), port) + if !spec_is_ours(hs[k], port) && !is_our_shape(hs[k]) {
            1nat
        } else {
            0nat
        },
{
    assert(hs.subrange(0, k + 1).drop_last() =~= hs.subrange(0, k));
}

proof fn lemma_has_step(all: Seq<Json>, k: int, port: u16)
    requires
        0 <= k < all.len(),
    ensures
        has_ours(all.subrange(0, k + 1), port) == (has_ours(all.subrange(0, k), port) || spec_is_ours(all[k], port)),
        has_stale(all.subrange(0, k + 1), port) == (has_stale(all.subrange(0, k), port) || (!spec_is_ours(all[k], port) && is_our_shape(all[k]))),
{
    let p1 = all.subrange(0, k + 1);
    let p0 = all.subrange(0, k);
    assert(p1[k] == all[k]);
    if has_ours(p1, port) {
        let j = choose|j: int| 0 <= j < p1.len() && spec_is_ours(#[trigger] p1[j], port);
        if j < k {
            assert(p0[j] == p1[j]);
        }
    }
    if has_ours(p0, port) {
        let j = choose|j: int| 0 <= j < p0.len() && spec_is_ours(#[trigger] p0[j], port);
        assert(p1[j] == p0[j]);
    }
    if has_stale(p1, port) {
        let j = choose|j: int| 0 <= j < p1.len() && !spec_is_ours(#[trigger] p1[j], port) && is_our_shape(p1[j]);
        if j < k {
            assert(p0[j] == p1[j]);
        }
    }
    if has_stale(p0, port) {
        let j = choose|j: int| 0 <= j < p0.len() && !spec_is_ours(#[trigger] p0[j], port) && is_our_shape(p0[j]);
        assert(p1[j] == p0[j]);
    }
}

/// Scans the entries under one event: sets the flags for ours and stale ones, and
/// on a blocking event reports each foreign entry.
fn scan_event(doc: &Json, event: &str, blocking: bool, port: u16, ours: &mut bool, stale: &mut bool, conflicts: &mut Vec<String>)
    ensures
        *final(ours) == (*old(ours) || has_ours(hooks_of(*doc, event@), port)),
        *final(stale) == (*old(stale) || has_stale(hooks_of(*doc, event@), port)),
        final(conflicts)@.len() == old(conflicts)@.len() + if blocking {
            foreign_count(hooks_of(*doc, event@), port)
        } else {
            0nat
        },
        forall|i: int| 0 <= i < old(conflicts)@.len() ==> final(conflicts)@[i] == old(conflicts)@[i],
        forall|i: int| old(conflicts)@.len() <= i < final(conflicts)@.len() ==> (#[trigger] final(conflicts)@[i])@ == conflict_line(event@),
{
    let hs = collect_hooks(doc, event);
    let ghost all = hooks_of(*doc, event@);
    let ghost o0 = *ours;
    let ghost s0 = *stale;
    let ghost c0 = conflicts@;
    let mut k: usize = 0;
    while k < hs.len()
        invariant
            k <= hs.len(),
            hs@.len() == all.len(),
            forall|t: int| 0 <= t < hs@.len() ==> *hs@[t] == all[t],
            *ours == (o0 || has_ours(all.subrange(0, k as int), port)),
            *stale == (s0 || has_stale(all.subrange(0, k as int), port)),
            conflicts@.len() == c0.len() + if blocking {
                foreign_count(all.subrange(0, k as int), port)
            } else {
                0nat
            },
            forall|i: int| 0 <= i < c0.len() ==> conflicts@[i] == c0[i],
            forall|i: int| c0.len() <= i < conflicts@.len() ==> (#[trigger] conflicts@[i])@ == conflict_line(event@),
        decreases hs.len() - k,
    {
        let h = hs[k];
        proof {
            lemma_foreign_step(all, k as int, port);
            lemma_has_step(all, k as int, port);
            reveal(spec_is_ours);
        }
        if is_ours(h, port) {
            *ours = true;
        } else if our_shape(h) {
            *stale = true;
        } else if blocking {
            let mut line = event.to_string();
            line.append(" 上已有别的程序的 hook");
            conflicts.push(line);
        }
        k = k + 1;
    }
    assert(all.subrange(0, hs.len() as int) =~= all);
}

/// Reads the integration's state from the parsed hook file; a missing or unreadable
/// file counts as not installed.
pub fn integration(port: u16, doc: Option<&Json>) -> (r: (Integration, Vec<String>))
    ensures
        match doc {
            None => r.0 == Integration::NotInstalled && r.1@.len() == 0,
            Some(d) => {
                &&& r.0 == spec_integration(*d, port)
                &&& r.1@.len() == foreign_count(hooks_of(*d, "PermissionRequest"@), port)
                &&& forall|i: int| 0 <= i < r.1@.len() ==> (#[trigger] r.1@[i])@ == conflict_line("PermissionRequest"@)
            },
        },
{
    let doc = match doc {
        Some(d) => d,
        None => return (Integration::NotInstalled, Vec::new()),
    };
    let mut ours = false;
    let mut stale = false;
    let mut conflicts: Vec<String> = Vec::new();
    scan_event(doc, "SessionStart", false, port, &mut ours, &mut stale, &mut conflicts);
    scan_event(doc, "UserPromptSubmit", false, port, &mut ours, &mut stale, &mut conflicts);
    scan_event(doc, "PreToolUse", false, port, &mut ours, &mut stale, &mut conflicts);
    scan_event(doc, "PostToolUse", false, port, &mut ours, &mut stale, &mut conflicts);
    scan_event(doc, "Stop", false, port, &mut ours, &mut stale, &mut conflicts);
    scan_event(doc, "PermissionRequest", true, port, &mut ours, &mut stale, &mut conflicts);
    proof {
        lemma_any_managed(*doc, port);
    }
    let state = if ours {
        Integration::Installed
    } else if stale {
        Integration::StalePort
    } else {
        Integration::NotInstalled
    };
    (state, conflicts)
}

proof fn lemma_any_managed(doc: Json, port: u16)
    ensures
        any_ours(doc, managed_events(), port) == (has_ours(hooks_of(doc, "SessionStart"@), port)
            || has_ours(hooks_of(doc, "UserPromptSubmit"@), port) || has_ours(hooks_of(doc, "PreToolUse"@), port)
            || has_ours(hooks_of(doc, "PostToolUse"@), port) || has_ours(hooks_of(doc, "Stop"@), port)
            || has_ours(hooks_of(doc, "PermissionRequest"@), port)),
        any_stale(doc, managed_events(), port) == (has_stale(hooks_of(doc, "SessionStart"@), port)
            || has_stale(hooks_of(doc, "UserPromptSubmit"@), port) || has_stale(hooks_of(doc, "PreToolUse"@), port)
            || has_stale(hooks_of(doc, "PostToolUse"@), port) || has_stale(hooks_of(doc, "Stop"@), port)
            || has_stale(hooks_of(doc, "PermissionRequest"@), port)),
{
    {
        reveal_with_fuel(any_ours, 7);
        reveal_with_fuel(any_stale, 7);
        let m = managed_events();
        assert(m.drop_last() =~= seq![("SessionStart"@, false), ("UserPromptSubmit"@, false), ("PreToolUse"@, false), ("PostToolUse"@, false), ("Stop"@, false)]);
        assert(m.drop_last().drop_last() =~= seq![("SessionStart"@, false), ("UserPromptSubmit"@, false), ("PreToolUse"@, false), ("PostToolUse"@, false)]);
        assert(m.drop_last().drop_last().drop_last() =~= seq![("SessionStart"@, false), ("UserPromptSubmit"@, false), ("PreToolUse"@, false)]);
        assert(m.drop_last().drop_last().drop_last().drop_last() =~= seq![("SessionStart"@, false), ("UserPromptSubmit"@, false)]);
        assert(m.drop_last().drop_last().drop_last().drop_last().drop_last() =~= seq![("SessionStart"@, false)]);
        assert(m.drop_last().drop_last().drop_last().drop_last().drop_last().drop_last() =~= Seq::<(Seq<char>, bool)>::empty());
    }
}

/// The integration's state read from the hook file's text (`None`: the file could not
/// be read); a file that is not JSON counts as not installed.
pub fn integration_of_text(port: u16, hooks_text: Option<&str>) -> (r: (Integration, Vec<String>))
    ensures
        match hooks_text {
            Some(t) => match spec_parse_json(t@) {
                Some(d) => {
                    &&& r.0 == spec_integration(d, port)
                    &&& r.1@.len() == foreign_count(hooks_of(d, "PermissionRequest"@), port)
                    &&& forall|i: int| 0 <= i < r.1@.len() ==> (#[trigger] r.1@[i])@ == conflict_line("PermissionRequest"@)
                },
                None => r.0 == Integration::NotInstalled && r.1@.len() == 0,
            },
            None => r.0 == Integration::NotInstalled && r.1@.len() == 0,
        },
{
    match hooks_text {
        Some(t) => match parse_json(t) {
            Ok(d) => integration(port, Some(&d)),
            Err(_) => integration(port, None),
        },
        None => integration(port, None),
    }
}

impl AgentAdapter for Codex {
    fn id(&self) -> (r: String)
        ensures
            r@ == codex_id(),
    {
        String::from_str("codex")
    }

    fn name(&self) -> (r: String)
        ensures
            r@ == "Codex"@,
    {
        String::from_str("Codex")
    }

    fn plan_install(&self, ctx: &InstallCtx) -> (r: Vec<ConfigEdit>)
        ensures
            r@.len() == install_events(ctx.include_blocking).len(),
            forall|i: int| 0 <= i < r@.len() ==> is_ensure_edit(
                #[trigger] r@[i],
                spec_hooks_path(ctx.home@),
                ctx.exe@,
                ctx.port,
                install_events(ctx.include_blocking)[i],
            ),
    {
        plan_install(ctx)
    }

    fn plan_uninstall(&self, ctx: &InstallCtx) -> (r: Vec<ConfigEdit>)
        ensures
            r@.len() == managed_events().len(),
            forall|i: int| 0 <= i < r@.len() ==> is_remove_edit(
                #[trigger] r@[i],
                spec_hooks_path(ctx.home@),
                managed_events()[i].0,
            ),
    {
        plan_uninstall(ctx)
    }

    /// Codex runs a hook only once the user approved it in Codex's own hook review
    /// (`/hooks`); that gate is never written from here.
    fn activation(&self) -> (r: Option<&'static str>)
        ensures
            r matches Some(t) && t@ == "codex-hooks-review"@,
    {
        Some("codex-hooks-review")
    }

    fn is_blocking(&self, event: &str) -> (r: bool)
        ensures
            r == (event@ == "PermissionRequest"@),
    {
        is_blocking(event)
    }

    fn parse(&self, event: &str, body: &Json) -> (r: Option<Update>)
        ensures
            match spec_state_of(event@) {
                None => r is None,
                Some(st) => r matches Some(u) && u.state == Some(st) && opt_view(u.detail) == (
                if is_tool_event(event@) {
                    spec_get_str(*body, "tool_name"@)
                } else {
                    None
                }) && opt_view(u.cwd) == spec_get_str(*body, "cwd"@) && u.title is None,
            },
    {
        parse(event, body)
    }

    fn render(&self, decision: &Decision) -> (r: Json)
        ensures
            jview(r) == spec_render(*decision),
    {
        render(decision)
    }

    fn integration(&self, ctx: &InstallCtx, hooks_text: Option<&str>) -> (r: (Integration, Vec<String>))
        ensures
            match hooks_text {
                Some(t) => match spec_parse_json(t@) {
                    Some(d) => {
                        &&& r.0 == spec_integration(d, ctx.port)
                        &&& r.1@.len() == foreign_count(hooks_of(d, "PermissionRequest"@), ctx.port)
                        &&& forall|i: int| 0 <= i < r.1@.len() ==> (#[trigger] r.1@[i])@ == conflict_line("PermissionRequest"@)
                    },
                    None => r.0 == Integration::NotInstalled && r.1@.len() == 0,
                },
                None => r.0 == Integration::NotInstalled && r.1@.len() == 0,
            },
    {
        integration_of_text(ctx.port, hooks_text)
    }
}

/// `~/.codex` under `home`.
pub open spec fn spec_codex_dir(home: Seq<char>) -> Seq<char> {
    join_path(home, ".codex"@)
}

/// Whether Codex is on this machine, strongest evidence first: its own
/// `config.toml` (which only Codex writes), then the CLI on `PATH` (`cli`), then
/// traces of use in `~/.codex` besides the hook file (`dir_used`).
pub open spec fn spec_detect(home: Seq<char>, config_is_file: bool, cli: Option<Seq<char>>, dir_used: bool) -> (bool, Confidence, Seq<char>, Seq<char>, Option<Seq<char>>) {
    if config_is_file {
        (true, Confidence::High, "config-file"@, join_path(spec_codex_dir(home), "config.toml"@) + " 存在"@, Some(spec_hooks_path(home)))
    } else if cli is Some {
        (true, Confidence::High, "cli-path"@, "PATH 上找到 "@ + cli->0, Some(spec_hooks_path(home)))
    } else if dir_used {
        (true, Confidence::Medium, "parent-dir"@, spec_codex_dir(home) + " 下有使用痕迹"@, Some(spec_hooks_path(home)))
    } else {
        (false, Confidence::Low, "not-found"@, "没有找到 Codex 的安装痕迹"@, None)
    }
}

pub fn detect(home: &str, config_is_file: bool, cli: Option<String>, dir_used: bool) -> (r: Detected)
    ensures
        ({
            let d = spec_detect(home@, config_is_file, opt_view(cli), dir_used);
            &&& r.installed == d.0
            &&& r.confidence == d.1
            &&& r.reason@ == d.2
            &&& r.detail@ == d.3
            &&& opt_view(r.config_path) == d.4
        }),
{
    let dir = join(home, ".codex");
    if config_is_file {
        let mut detail = join(dir.as_str(), "config.toml");
        detail.append(" 存在");
        return Detected {
            installed: true,
            confidence: Confidence::High,
            reason: String::from_str("config-file"),
            detail,
            config_path: Some(hooks_path(home)),
        };
    }
    if let Some(exe) = cli {
        let mut detail = String::from_str("PATH 上找到 ");
        detail.append(exe.as_str());
        return Detected {
            installed: true,
            confidence: Confidence::High,
            reason: String::from_str("cli-path"),
            detail,
            config_path: Some(hooks_path(home)),
        };
    }
    if dir_used {
        let mut detail = dir.clone();
        detail.append(" 下有使用痕迹");
        return Detected {
            installed: true,
            confidence: Confidence::Medium,
            reason: String::from_str("parent-dir"),
            detail,
            config_path: Some(hooks_path(home)),
        };
    }
    Detected {
        installed: false,
        confidence: Confidence::Low,
        reason: String::from_str("not-found"),
        detail: String::from_str("没有找到 Codex 的安装痕迹"),
        config_path: None,
    }
}

/// Whether a directory holds anything besides `ignore` and hidden entries (noise such
/// as `.DS_Store` is no evidence of use).
pub open spec fn spec_has_entries_besides(names: Seq<Seq<char>>, ignore: Seq<Seq<char>>) -> bool {
    exists|i: int| 0 <= i < names.len() && !ignore.contains(#[trigger] names[i]) && !(names[i].len() > 0 && names[i][0] == '.')
}

pub fn has_entries_besides(names: &Vec<String>, ignore: &Vec<String>) -> (r: bool)
    ensures
        r == spec_has_entries_besides(names.deep_view(), ignore.deep_view()),
{
    let ghost nv = names.deep_view();
    let ghost iv = ignore.deep_view();
    let mut i: usize = 0;
    while i < names.len()
        invariant
            i <= names.len(),
            nv == names.deep_view(),
            iv == ignore.deep_view(),
            forall|k: int| 0 <= k < i ==> (iv.contains(#[trigger] nv[k]) || (nv[k].len() > 0 && nv[k][0] == '.')),
        decreases names.len() - i,
    {
        let n = names[i].as_str();
        let hidden = n.unicode_len() > 0 && n.get_char(0) == '.';
        let mut ignored = false;
        let mut j: usize = 0;
        while j < ignore.len() && !ignored
            invariant
                j <= ignore.len(),
                iv == ignore.deep_view(),
                n@ == nv[i as int],
                ignored ==> iv.contains(n@),
                !ignored ==> forall|k: int| 0 <= k < j ==> iv[k] != n@,
            decreases ignore.len() - j,
        {
            if str_eq(ignore[j].as_str(), n) {
                ignored = true;
                assert(iv[j as int] == n@);
            }
            j = j + 1;
        }
        if !ignored && !hidden {
            assert(nv[i as int] == n@);
            return true;
        }
        i = i + 1;
    }
    false
}

} // verus!
