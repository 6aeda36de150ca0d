//! The adapter of an agent that calls this server with `http`-type hooks: every hook
//! is a POST straight to `http://127.0.0.1:<port>/hook/<agent>/<event>`, so no script
//! or runtime ships with the server.
//!
//! Authentication and session binding ride on the hook's headers, which the agent
//! fills from its environment when the hook fires: the hook key and the session id
//! are only in the environment of sessions this server started, so an agent started
//! elsewhere still calls, without credentials, and is quietly ignored.
//!
//! The hooks live in `<home>/<dir>/settings.json` beside the user's own settings; each
//! of ours sits in its own matcher group (`"matcher": ""`, every tool).
use vstd::prelude::*;
use crate::json::{Json, JsonView, jview, spec_get, spec_get_str, parse_json, spec_parse_json};
use crate::launcher::opt_view;
use crate::protocol::messages::AgentState;
use crate::text::{chars_of, decimal_text, spec_decimal, str_eq};
use super::codex::{
    any_ours, collect_hooks, contains_chars, contains_seq, flat_hooks, get_str, group_hooks, group_list, has_ours, hooks_of,
    join, join_path, lemma_flat_step, push_member, render as render_decision, spec_is_ours, spec_render,
};
use super::edit::{is_ours, slug_of_event, spec_slug_of_event, ConfigEdit, EditOp, InstallCtx};
use super::store::{Decision, Update};
use super::{AgentAdapter, Confidence, Detected, Integration};

verus! {

/// How long the agent waits on a telemetry hook, in seconds.
pub const TELEMETRY_TIMEOUT_SECS: u64 = 5;

/// How long the agent waits on a blocking hook, in seconds: time for a human to
/// answer, and the longest a pending request lives.
pub const BLOCKING_TIMEOUT_SECS: u64 = 600;

/// Every managed event with whether it blocks, telemetry first.
pub open spec fn managed_events() -> Seq<(Seq<char>, bool)> {
    seq![
        ("SessionStart"@, false),
        ("SessionEnd"@, false),
        ("UserPromptSubmit"@, false),
        ("PreToolUse"@, false),
        ("PostToolUse"@, false),
        ("Stop"@, false),
        ("Notification"@, false),
        ("PermissionRequest"@, true),
    ]
}

/// The events an install covers: all managed ones, the blocking one (last) only when
/// asked for. An uninstall always covers all of them.
pub open spec fn install_events(include_blocking: bool) -> Seq<(Seq<char>, bool)> {
    if include_blocking {
        managed_events()
    } else {
        managed_events().subrange(0, 7)
    }
}

/// The state an event puts the session in. A turn's end is idle, not waiting: only a
/// notification (or a pending request) means the agent waits for the user.
pub open spec fn spec_state_of(event: Seq<char>) -> Option<AgentState> {
    if event == "SessionStart"@ {
        Some(AgentState::Idle)
    } else if event == "SessionEnd"@ {
        Some(AgentState::Done)
    } else if event == "UserPromptSubmit"@ {
        Some(AgentState::Thinking)
    } else if event == "PreToolUse"@ || event == "PostToolUse"@ {
        Some(AgentState::Working)
    } else if event == "Stop"@ {
        Some(AgentState::Idle)
    } else if event == "Notification"@ {
        Some(AgentState::Waiting)
    } else {
        None
    }
}

pub fn state_of(event: &str) -> (r: Option<AgentState>)
    ensures
        r == spec_state_of(event@),
{
    if str_eq(event, "SessionStart") {
        Some(AgentState::Idle)
    } else if str_eq(event, "SessionEnd") {
        Some(AgentState::Done)
    } else if str_eq(event, "UserPromptSubmit") {
        Some(AgentState::Thinking)
    } else if str_eq(event, "PreToolUse") || str_eq(event, "PostToolUse") {
        Some(AgentState::Working)
    } else if str_eq(event, "Stop") {
        Some(AgentState::Idle)
    } else if str_eq(event, "Notification") {
        Some(AgentState::Waiting)
    } else {
        None
    }
}

/// `<home>/<dir>/settings.json`.
pub open spec fn spec_settings_path(home: Seq<char>, dir: Seq<char>) -> Seq<char> {
    join_path(join_path(home, dir), "settings.json"@)
}

pub fn settings_path(home: &str, dir: &str) -> (r: String)
    ensures
        r@ == spec_settings_path(home@, dir@),
{
    let d = join(home, dir);
    join(d.as_str(), "settings.json")
}

/// The URL a hook posts to: `http://127.0.0.1:<port>/hook/<agent>/<slug>`.
pub open spec fn spec_hook_url(agent: Seq<char>, port: u16, event: Seq<char>) -> Seq<char> {
    "http://127.0.0.1:"@ + spec_decimal(port as nat) + "/hook/"@ + agent + "/"@ + spec_slug_of_event(event)
}

pub fn hook_url(agent: &str, port: u16, event: &str) -> (r: String)
    ensures
        r@ == spec_hook_url(agent@, port, event@),
{
    let mut out = String::from_str("http://127.0.0.1:");
    let p = decimal_text(port as u64);
    out.append(p.as_str());
    out.append("/hook/");
    out.append(agent);
    out.append("/");
    let slug = slug_of_event(event);
    out.append(slug.as_str());
    out
}

/// The headers of a hook: the hook key and the session id, filled in by the agent
/// from its environment.
pub open spec fn spec_headers() -> JsonView {
    JsonView::Object(
        seq![
            ("Authorization"@, JsonView::Str("Bearer $OCTOTERM_HOOK_TOKEN"@)),
            ("X-Octoterm-Session"@, JsonView::Str("$OCTOTERM_SESSION_ID"@)),
        ],
    )
}

/// The environment variables the agent may put into the headers.
pub open spec fn spec_allowed_env() -> JsonView {
    JsonView::Array(seq![JsonView::Str("OCTOTERM_HOOK_TOKEN"@), JsonView::Str("OCTOTERM_SESSION_ID"@)])
}

/// The hook entry for an event: an `http` hook with its URL, headers and allowed
/// variables; a blocking one waits [`BLOCKING_TIMEOUT_SECS`], a telemetry one
/// [`TELEMETRY_TIMEOUT_SECS`] and runs asynchronously (its output is ignored and must
/// not hold the agent up).
pub open spec fn spec_hook_spec(agent: Seq<char>, port: u16, event: Seq<char>, blocking: bool) -> JsonView {
    JsonView::Object(
        seq![
            ("type"@, JsonView::Str("http"@)),
            ("url"@, JsonView::Str(spec_hook_url(agent, port, event))),
            ("headers"@, spec_headers()),
            ("allowedEnvVars"@, spec_allowed_env()),
            ("timeout"@, JsonView::Number(spec_decimal(
                (if blocking { BLOCKING_TIMEOUT_SECS } else { TELEMETRY_TIMEOUT_SECS }) as nat,
            ))),
        ] + if blocking {
            Seq::empty()
        } else {
            seq![("async"@, JsonView::Bool(true))]
        },
    )
}

fn empty_members() -> (r: Vec<(String, Json)>)
    ensures
        crate::json::mviews(r@) == Seq::<(Seq<char>, JsonView)>::empty(),
{
    let r: Vec<(String, Json)> = Vec::new();
    assert(crate::json::mviews(r@) =~= Seq::<(Seq<char>, JsonView)>::empty());
    r
}

pub fn hook_spec(agent: &str, port: u16, event: &str, blocking: bool) -> (r: Json)
    ensures
        jview(r) == spec_hook_spec(agent@, port, event@, blocking),
{
    let mut headers = empty_members();
    push_member(&mut headers, String::from_str("Authorization"), Json::Str(String::from_str("Bearer $OCTOTERM_HOOK_TOKEN")));
    push_member(&mut headers, String::from_str("X-Octoterm-Session"), Json::Str(String::from_str("$OCTOTERM_SESSION_ID")));
    assert(crate::json::mviews(headers@) =~= seq![
        ("Authorization"@, JsonView::Str("Bearer $OCTOTERM_HOOK_TOKEN"@)),
        ("X-Octoterm-Session"@, JsonView::Str("$OCTOTERM_SESSION_ID"@)),
    ]);
    let mut env: Vec<Json> = Vec::new();
    env.push(Json::Str(String::from_str("OCTOTERM_HOOK_TOKEN")));
    env.push(Json::Str(String::from_str("OCTOTERM_SESSION_ID")));
    proof {
        reveal_with_fuel(crate::json::jviews, 3);
        assert(crate::json::jviews(env@) =~= seq![JsonView::Str("OCTOTERM_HOOK_TOKEN"@), JsonView::Str("OCTOTERM_SESSION_ID"@)]);
    }
    let timeout = if blocking {
        BLOCKING_TIMEOUT_SECS
    } else {
        TELEMETRY_TIMEOUT_SECS
    };
    let mut ms = empty_members();
    push_member(&mut ms, String::from_str("type"), Json::Str(String::from_str("http")));
    push_member(&mut ms, String::from_str("url"), Json::Str(hook_url(agent, port, event)));
    push_member(&mut ms, String::from_str("headers"), Json::Object(headers));
    push_member(&mut ms, String::from_str("allowedEnvVars"), Json::Array(env));
    push_member(&mut ms, String::from_str("timeout"), Json::Number(decimal_text(timeout)));
    let ghost five = crate::json::mviews(ms@);
    assert(five =~= seq![
        ("type"@, JsonView::Str("http"@)),
        ("url"@, JsonView::Str(spec_hook_url(agent@, port, event@))),
        ("headers"@, spec_headers()),
        ("allowedEnvVars"@, spec_allowed_env()),
        ("timeout"@, JsonView::Number(spec_decimal(timeout as nat))),
    ]);
    if !blocking {
        push_member(&mut ms, String::from_str("async"), Json::Bool(true));
    }
    proof {
        if blocking {
            assert(five + Seq::<(Seq<char>, JsonView)>::empty() =~= five);
        }
    }
    Json::Object(ms)
}

/// An edit that installs our entry for one event into the settings file `path`.
pub open spec fn is_ensure_edit(e: ConfigEdit, path: Seq<char>, agent: Seq<char>, port: u16, ev: (Seq<char>, bool)) -> bool {
    &&& e.path@ == path
    &&& e.op matches EditOp::EnsureHook { event, spec } && event@ == ev.0 && jview(spec) == spec_hook_spec(
        agent,
        port,
        ev.0,
        ev.1,
    )
}

/// An edit that removes our entries for one event from the settings file `path`.
pub open spec fn is_remove_edit(e: ConfigEdit, path: Seq<char>, event: Seq<char>) -> bool {
    &&& e.path@ == path
    &&& e.op matches EditOp::RemoveOurs { event: ev } && ev@ == event
}

fn push_ensure(out: &mut Vec<ConfigEdit>, agent: &str, port: u16, path: &String, event: &str, blocking: bool)
    ensures
        final(out)@.len() == old(out)@.len() + 1,
        forall|i: int| 0 <= i < old(out)@.len() ==> final(out)@[i] == old(out)@[i],
        is_ensure_edit(final(out)@[old(out)@.len() as int], path@, agent@, port, (event@, blocking)),
{
    let spec = hook_spec(agent, port, event, blocking);
    out.push(ConfigEdit { path: path.clone(), op: EditOp::EnsureHook { event: event.to_string(), spec } });
}

fn push_remove(out: &mut Vec<ConfigEdit>, path: &String, event: &str)
    ensures
        final(out)@.len() == old(out)@.len() + 1,
        forall|i: int| 0 <= i < old(out)@.len() ==> final(out)@[i] == old(out)@[i],
        is_remove_edit(final(out)@[old(out)@.len() as int], path@, event@),
{
    out.push(ConfigEdit { path: path.clone(), op: EditOp::RemoveOurs { event: event.to_string() } });
}

/// The install plan for the agent `agent` whose settings live in `<home>/<dir>`: for
/// each event to install, in order, our entry into `settings.json`.
pub fn plan_install(agent: &str, dir: &str, ctx: &InstallCtx) -> (r: Vec<ConfigEdit>)
    ensures
        r@.len() == install_events(ctx.include_blocking).len(),
        forall|i: int| 0 <= i < r@.len() ==> is_ensure_edit(
            #[trigger] r@[i],
            spec_settings_path(ctx.home@, dir@),
            agent@,
            ctx.port,
            install_events(ctx.include_blocking)[i],
        ),
{
    let path = settings_path(ctx.home.as_str(), dir);
    let mut out: Vec<ConfigEdit> = Vec::new();
    push_ensure(&mut out, agent, ctx.port, &path, "SessionStart", false);
    push_ensure(&mut out, agent, ctx.port, &path, "SessionEnd", false);
    push_ensure(&mut out, agent, ctx.port, &path, "UserPromptSubmit", false);
    push_ensure(&mut out, agent, ctx.port, &path, "PreToolUse", false);
    push_ensure(&mut out, agent, ctx.port, &path, "PostToolUse", false);
    push_ensure(&mut out, agent, ctx.port, &path, "Stop", false);
    push_ensure(&mut out, agent, ctx.port, &path, "Notification", false);
    if ctx.include_blocking {
        push_ensure(&mut out, agent, ctx.port, &path, "PermissionRequest", true);
    }
    proof {
        assert(managed_events().subrange(0, 7) =~= seq![
            ("SessionStart"@, false),
            ("SessionEnd"@, false),
            ("UserPromptSubmit"@, false),
            ("PreToolUse"@, false),
            ("PostToolUse"@, false),
            ("Stop"@, false),
            ("Notification"@, false),
        ]);
    }
    out
}

/// The uninstall plan: for every managed event, blocking or not, removal of ours (so
/// turning the blocking hooks off and then uninstalling leaves nothing behind).
pub fn plan_uninstall(dir: &str, ctx: &InstallCtx) -> (r: Vec<ConfigEdit>)
    ensures
        r@.len() == managed_events().len(),
        forall|i: int| 0 <= i < r@.len() ==> is_remove_edit(
            #[trigger] r@[i],
            spec_settings_path(ctx.home@, dir@),
            managed_events()[i].0,
        ),
{
    let path = settings_path(ctx.home.as_str(), dir);
    let mut out: Vec<ConfigEdit> = Vec::new();
    push_remove(&mut out, &path, "SessionStart");
    push_remove(&mut out, &path, "SessionEnd");
    push_remove(&mut out, &path, "UserPromptSubmit");
    push_remove(&mut out, &path, "PreToolUse");
    push_remove(&mut out, &path, "PostToolUse");
    push_remove(&mut out, &path, "Stop");
    push_remove(&mut out, &path, "Notification");
    push_remove(&mut out, &path, "PermissionRequest");
    out
}

/// What a notification shows when the payload names no notification type.
pub open spec fn needs_input() -> Seq<char> {
    "需要你的输入"@
}

/// The detail an event carries: the tool's name on tool events, the notification's
/// type on a notification (a fixed "needs your input" when none is named).
pub open spec fn spec_detail(event: Seq<char>, body: Json) -> Option<Seq<char>> {
    if event == "PreToolUse"@ || event == "PostToolUse"@ {
        spec_get_str(body, "tool_name"@)
    } else if event == "Notification"@ {
        match spec_get_str(body, "notification_type"@) {
            Some(t) => Some(t),
            None => Some(needs_input()),
        }
    } else {
        None
    }
}

/// The update a hook call carries: its state, the detail, the working directory and
/// the session's title; `None` for an event without a state.
pub fn parse(event: &str, body: &Json) -> (r: Option<Update>)
    ensures
        match spec_state_of(event@) {
            None => r is None,
            Some(st) => r matches Some(u) && u.state == Some(st) && opt_view(u.detail) == spec_detail(event@, *body)
                && opt_view(u.cwd) == spec_get_str(*body, "cwd"@) && opt_view(u.title) == spec_get_str(
                *body,
                "session_title"@,
            ),
        },
{
    let state = match state_of(event) {
        Some(st) => st,
        None => return None,
    };
    let detail = if str_eq(event, "PreToolUse") || str_eq(event, "PostToolUse") {
        get_str(body, "tool_name")
    } else if str_eq(event, "Notification") {
        match get_str(body, "notification_type") {
            Some(t) => Some(t),
            None => Some(String::from_str("需要你的输入")),
        }
    } else {
        None
    };
    Some(Update { state: Some(state), detail, cwd: get_str(body, "cwd"), title: get_str(body, "session_title") })
}

/// Whether the event waits for a decision.
pub fn is_blocking(event: &str) -> (r: bool)
    ensures
        r == (event@ == "PermissionRequest"@),
{
    str_eq(event, "PermissionRequest")
}

/// The start every URL of ours has.
pub open spec fn local_prefix() -> Seq<char> {
    "http://127.0.0.1:"@
}

/// An `http` hook to some local server's endpoint for `agent`: ours, on whatever port
/// (what is left after the listening port changed).
#[verifier::opaque]
pub open spec fn is_our_shape(h: Json, agent: Seq<char>) -> bool {
    &&& spec_get_str(h, "type"@) == Some("http"@)
    &&& match spec_get_str(h, "url"@) {
        Some(u) => u.len() >= local_prefix().len() && u.subrange(0, local_prefix().len() as int) == local_prefix()
            && contains_seq(u, "/hook/"@ + agent + "/"@),
        None => false,
    }
}

pub open spec fn has_stale(hs: Seq<Json>, port: u16, agent: Seq<char>) -> bool {
    exists|j: int| 0 <= j < hs.len() && !spec_is_ours(#[trigger] hs[j], port) && is_our_shape(hs[j], agent)
}

/// Whether any of the events has one of ours for another port.
pub open spec fn any_stale(doc: Json, evs: Seq<(Seq<char>, bool)>, port: u16, agent: Seq<char>) -> bool
    decreases evs.len(),
{
    evs.len() > 0 && (any_stale(doc, evs.drop_last(), port, agent) || has_stale(hooks_of(doc, evs.last().0), port, agent))
}

/// Another program's blocking `http` hook: neither ours nor of our shape.
pub open spec fn is_conflict(h: Json, port: u16, agent: Seq<char>) -> bool {
    !spec_is_ours(h, port) && !is_our_shape(h, agent) && spec_get_str(h, "type"@) == Some("http"@)
}

/// The line reported for another program's blocking hook on `event`, with its URL.
pub open spec fn conflict_text(event: Seq<char>, h: Json) -> Seq<char> {
    event + " 上已有另一个阻塞式 hook:"@ + match spec_get_str(h, "url"@) {
        Some(u) => u,
        None => "<无 url>"@,
    }
}

/// The conflict lines for the entries `hs` of `event`, in order.
pub open spec fn conflicts_in(event: Seq<char>, hs: Seq<Json>, port: u16, agent: Seq<char>) -> Seq<Seq<char>>
    decreases hs.len(),
{
    if hs.len() == 0 {
        Seq::empty()
    } else {
        conflicts_in(event, hs.drop_last(), port, agent) + if is_conflict(hs.last(), port, agent) {
            seq![conflict_text(event, hs.last())]
        } else {
            Seq::empty()
        }
    }
}

/// The integration's state in the settings: installed when an entry of ours for `port`
/// is there; a stale port when only entries of ours for other ports are.
pub open spec fn spec_integration(doc: Json, port: u16, agent: Seq<char>) -> Integration {
    if any_ours(doc, managed_events(), port) {
        Integration::Installed
    } else if any_stale(doc, managed_events(), port, agent) {
        Integration::StalePort
    } else {
        Integration::NotInstalled
    }
}

/// The conflicts reported: the other programs' blocking hooks on the blocking event.
pub open spec fn spec_conflicts(doc: Json, port: u16, agent: Seq<char>) -> Seq<Seq<char>> {
    conflicts_in("PermissionRequest"@, hooks_of(doc, "PermissionRequest"@), port, agent)
}

fn starts_local(cs: &Vec<char>) -> (r: bool)
    ensures
        r == (cs@.len() >= local_prefix().len() && cs@.subrange(0, local_prefix().len() as int) == local_prefix()),
{
    let p = chars_of("http://127.0.0.1:");
    if cs.len() < p.len() {
        return false;
    }
    let mut i: usize = 0;
    while i < p.len()
        invariant
            i <= p.len() <= cs.len(),
            p@ == local_prefix(),
            forall|k: int| 0 <= k < i ==> cs@[k] == p@[k],
        decreases p.len() - i,
    {
        if cs[i] != p[i] {
            assert(cs@.subrange(0, p.len() as int)[i as int] != p@[i as int]);
            return false;
        }
        i = i + 1;
    }
    assert(cs@.subrange(0, p.len() as int) =~= p@);
    true
}

fn our_shape(h: &Json, needle: &str, agent: &str) -> (r: bool)
    requires
        needle@ == "/hook/"@ + agent@ + "/"@,
    ensures
        r == is_our_shape(*h, agent@),
{
    proof {
        reveal(is_our_shape);
    }
    let http = match get_str(h, "type") {
        Some(t) => str_eq(t.as_str(), "http"),
        None => false,
    };
    if !http {
        return false;
    }
    match get_str(h, "url") {
        Some(u) => {
            let cs = chars_of(u.as_str());
            starts_local(&cs) && contains_chars(&cs, needle)
        },
        None => false,
    }
}

proof fn lemma_scan_step(all: Seq<Json>, k: int, port: u16, agent: Seq<char>, event: Seq<char>)
    requires
        0 <= k < all.len(),
    ensures
        has_ours(all.subrange(0, k + 1), port) == (has_ours(all.subrange(0, k), port) || spec_is_ours(all[k], port)),
        has_stale(all.subrange(0, k + 1), port, agent) == (has_stale(all.subrange(0, k), port, agent) || (!spec_is_ours(all[k], port) && is_our_shape(all[k], agent))),
        conflicts_in(event, all.subrange(0, k + 1), port, agent) == conflicts_in(event, all.subrange(0, k), port, agent) + if is_conflict(all[k], port, agent) {
            seq![conflict_text(event, all[k])]
        } else {
            Seq::empty()
        },
{
    let p1 = all.subrange(0, k + 1);
    let p0 = all.subrange(0, k);
    assert(p1[k] == all[k]);
    assert(p1.drop_last() =~= p0);
    if has_ours(p1, port) {
        let j = choose|j: int| 0 <= j < p1.len() && spec_is_ours(#[trigger] p1[j], port);
        if j < k {
            assert(p0[j] == p1[j]);
        }
    }
    if has_ours(p0, port) {
        let j = choose|j: int| 0 <= j < p0.len() && spec_is_ours(#[trigger] p0[j], port);
        assert(p1[j] == p0[j]);
    }
    if has_stale(p1, port, agent) {
        let j = choose|j: int| 0 <= j < p1.len() && !spec_is_ours(#[trigger] p1[j], port) && is_our_shape(p1[j], agent);
        if j < k {
            assert(p0[j] == p1[j]);
        }
    }
    if has_stale(p0, port, agent) {
        let j = choose|j: int| 0 <= j < p0.len() && !spec_is_ours(#[trigger] p0[j], port) && is_our_shape(p0[j], agent);
        assert(p1[j] == p0[j]);
    }
}

fn url_or_none(h: &Json) -> (r: String)
    ensures
        r@ == match spec_get_str(*h, "url"@) {
            Some(u) => u,
            None => "<无 url>"@,
        },
{
    match get_str(h, "url") {
        Some(u) => u,
        None => String::from_str("<无 url>"),
    }
}

/// Scans the entries under one event: sets the flags for ours and stale ones, and on
/// a blocking event reports each other program's `http` hook.
fn scan_event(
    doc: &Json,
    event: &str,
    blocking: bool,
    port: u16,
    agent: &str,
    needle: &str,
    ours: &mut bool,
    stale: &mut bool,
    conflicts: &mut Vec<String>,
)
    requires
        needle@ == "/hook/"@ + agent@ + "/"@,
    ensures
        *final(ours) == (*old(ours) || has_ours(hooks_of(*doc, event@), port)),
        *final(stale) == (*old(stale) || has_stale(hooks_of(*doc, event@), port, agent@)),
        final(conflicts)@.map_values(|c: String| c@) == old(conflicts)@.map_values(|c: String| c@) + if blocking {
            conflicts_in(event@, hooks_of(*doc, event@), port, agent@)
        } else {
            Seq::empty()
        },
{
    let hs = collect_hooks(doc, event);
    let ghost all = hooks_of(*doc, event@);
    let ghost o0 = *ours;
    let ghost s0 = *stale;
    let ghost c0 = conflicts@.map_values(|c: String| c@);
    let mut k: usize = 0;
    assert(all.subrange(0, 0) =~= Seq::<Json>::empty());
    assert(c0 + Seq::<Seq<char>>::empty() =~= c0);
    while k < hs.len()
        invariant
            k <= hs.len(),
            hs@.len() == all.len(),
            forall|t: int| 0 <= t < hs@.len() ==> *hs@[t] == all[t],
            needle@ == "/hook/"@ + agent@ + "/"@,
            *ours == (o0 || has_ours(all.subrange(0, k as int), port)),
            *stale == (s0 || has_stale(all.subrange(0, k as int), port, agent@)),
            conflicts@.map_values(|c: String| c@) == c0 + if blocking {
                conflicts_in(event@, all.subrange(0, k as int), port, agent@)
            } else {
                Seq::empty()
            },
        decreases hs.len() - k,
    {
        let h = hs[k];
        proof {
            lemma_scan_step(all, k as int, port, agent@, event@);
            reveal(spec_is_ours);
        }
        let ghost cb = conflicts@.map_values(|c: String| c@);
        if is_ours(h, port) {
            *ours = true;
        } else if our_shape(h, needle, agent) {
            *stale = true;
        } else if blocking {
            let is_http = match get_str(h, "type") {
                Some(t) => str_eq(t.as_str(), "http"),
                None => false,
            };
            if is_http {
                let mut line = event.to_string();
                line.append(" 上已有另一个阻塞式 hook:");
                let u = url_or_none(h);
                line.append(u.as_str());
                conflicts.push(line);
                assert(conflicts@.map_values(|c: String| c@) =~= cb.push(line@));
            }
        }
        proof {
            if blocking {
                let a = conflicts_in(event@, all.subrange(0, k as int), port, agent@);
                let x = if is_conflict(all[k as int], port, agent@) {
                    seq![conflict_text(event@, all[k as int])]
                } else {
                    Seq::<Seq<char>>::empty()
                };
                assert(c0 + (a + x) =~= (c0 + a) + x);
            }
        }
        k = k + 1;
    }
    assert(all.subrange(0, hs.len() as int) =~= all);
}

proof fn lemma_any_managed(doc: Json, port: u16, agent: Seq<char>)
    ensures
        any_ours(doc, managed_events(), port) == (has_ours(hooks_of(doc, "SessionStart"@), port)
            || has_ours(hooks_of(doc, "SessionEnd"@), port) || has_ours(hooks_of(doc, "UserPromptSubmit"@), port)
            || has_ours(hooks_of(doc, "PreToolUse"@), port) || has_ours(hooks_of(doc, "PostToolUse"@), port)
            || has_ours(hooks_of(doc, "Stop"@), port) || has_ours(hooks_of(doc, "Notification"@), port)
            || has_ours(hooks_of(doc, "PermissionRequest"@), port)),
        any_stale(doc, managed_events(), port, agent) == (has_stale(hooks_of(doc, "SessionStart"@), port, agent)
            || has_stale(hooks_of(doc, "SessionEnd"@), port, agent) || has_stale(hooks_of(doc, "UserPromptSubmit"@), port, agent)
            || has_stale(hooks_of(doc, "PreToolUse"@), port, agent) || has_stale(hooks_of(doc, "PostToolUse"@), port, agent)
            || has_stale(hooks_of(doc, "Stop"@), port, agent) || has_stale(hooks_of(doc, "Notification"@), port, agent)
            || has_stale(hooks_of(doc, "PermissionRequest"@), port, agent)),
{
    reveal_with_fuel(any_ours, 9);
    reveal_with_fuel(any_stale, 9);
    let m = managed_events();
    let m1 = m.drop_last();
    let m2 = m1.drop_last();
    let m3 = m2.drop_last();
    let m4 = m3.drop_last();
    let m5 = m4.drop_last();
    let m6 = m5.drop_last();
    let m7 = m6.drop_last();
    let m8 = m7.drop_last();
    assert(m.last().0 == "PermissionRequest"@);
    assert(m1.last().0 == "Notification"@);
    assert(m2.last().0 == "Stop"@);
    assert(m3.last().0 == "PostToolUse"@);
    assert(m4.last().0 == "PreToolUse"@);
    assert(m5.last().0 == "UserPromptSubmit"@);
    assert(m6.last().0 == "SessionEnd"@);
    assert(m7.last().0 == "SessionStart"@);
    assert(m8.len() == 0);
}

/// Reads the integration's state and conflicts from the parsed settings; a missing or
/// unreadable file counts as not installed.
pub fn integration(agent: &str, port: u16, doc: Option<&Json>) -> (r: (Integration, Vec<String>))
    ensures
        match doc {
            None => r.0 == Integration::NotInstalled && r.1@.len() == 0,
            Some(d) => r.0 == spec_integration(*d, port, agent@) && r.1@.map_values(|c: String| c@)
                == spec_conflicts(*d, port, agent@),
        },
{
    let doc = match doc {
        Some(d) => d,
        None => return (Integration::NotInstalled, Vec::new()),
    };
    let mut needle = String::from_str("/hook/");
    needle.append(agent);
    needle.append("/");
    let mut ours = false;
    let mut stale = false;
    let mut conflicts: Vec<String> = Vec::new();
    assert(conflicts@.map_values(|c: String| c@) =~= Seq::<Seq<char>>::empty());
    scan_event(doc, "SessionStart", false, port, agent, needle.as_str(), &mut ours, &mut stale, &mut conflicts);
    scan_event(doc, "SessionEnd", false, port, agent, needle.as_str(), &mut ours, &mut stale, &mut conflicts);
    scan_event(doc, "UserPromptSubmit", false, port, agent, needle.as_str(), &mut ours, &mut stale, &mut conflicts);
    scan_event(doc, "PreToolUse", false, port, agent, needle.as_str(), &mut ours, &mut stale, &mut conflicts);
    scan_event(doc, "PostToolUse", false, port, agent, needle.as_str(), &mut ours, &mut stale, &mut conflicts);
    scan_event(doc, "Stop", false, port, agent, needle.as_str(), &mut ours, &mut stale, &mut conflicts);
    scan_event(doc, "Notification", false, port, agent, needle.as_str(), &mut ours, &mut stale, &mut conflicts);
    scan_event(doc, "PermissionRequest", true, port, agent, needle.as_str(), &mut ours, &mut stale, &mut conflicts);
    proof {
        lemma_any_managed(*doc, port, agent@);
        assert(Seq::<Seq<char>>::empty() + spec_conflicts(*doc, port, agent@) =~= spec_conflicts(*doc, port, agent@));
    }
    let state = if ours {
        Integration::Installed
    } else if stale {
        Integration::StalePort
    } else {
        Integration::NotInstalled
    };
    (state, conflicts)
}

/// The integration's state read from the settings file's text (`None`: it could not
/// be read); a file that is not JSON counts as not installed.
pub fn integration_of_text(agent: &str, port: u16, settings_text: Option<&str>) -> (r: (Integration, Vec<String>))
    ensures
        match settings_text {
            Some(t) => match spec_parse_json(t@) {
                Some(d) => r.0 == spec_integration(d, port, agent@) && r.1@.map_values(|c: String| c@)
                    == spec_conflicts(d, port, agent@),
                None => r.0 == Integration::NotInstalled && r.1@.len() == 0,
            },
            None => r.0 == Integration::NotInstalled && r.1@.len() == 0,
        },
{
    match settings_text {
        Some(t) => match parse_json(t) {
            Ok(d) => integration(agent, port, Some(&d)),
            Err(_) => integration(agent, port, None),
        },
        None => integration(agent, port, None),
    }
}

/// The entries of the groups in a value that should be a list of groups.
pub open spec fn entries_of(v: Json) -> Seq<Json> {
    match v {
        Json::Array(gs) => flat_hooks(gs@),
        _ => Seq::empty(),
    }
}

/// Whether the settings hold anything the user wrote: a key besides `hooks`, or a
/// hook entry not of our shape. A file with only our hooks proves nothing about the
/// agent being installed.
pub open spec fn spec_has_foreign_content(doc: Json, agent: Seq<char>) -> bool {
    (exists|i: int| 0 <= i < root_members(doc).len() && #[trigger] root_members(doc)[i].0@ != "hooks"@) || (exists|i: int, j: int|
        0 <= i < hook_members(doc).len() && 0 <= j < entries_of(hook_members(doc)[i].1).len() && !is_our_shape(
            #[trigger] entries_of(hook_members(doc)[i].1)[j],
            agent,
        ))
}

/// The members of an object (none for another value).
pub open spec fn root_members(doc: Json) -> Seq<(String, Json)> {
    match doc {
        Json::Object(ms) => ms@,
        _ => Seq::empty(),
    }
}

/// The members of the `hooks` object (none when it is missing or not an object).
pub open spec fn hook_members(doc: Json) -> Seq<(String, Json)> {
    match spec_get(doc, "hooks"@) {
        Some(Json::Object(hs)) => hs@,
        _ => Seq::empty(),
    }
}

/// Whether some entry of the groups `gs` is not of our shape.
fn foreign_entry(gs: &Vec<Json>, needle: &str, agent: &str) -> (r: bool)
    requires
        needle@ == "/hook/"@ + agent@ + "/"@,
    ensures
        r == exists|j: int| 0 <= j < flat_hooks(gs@).len() && !is_our_shape(#[trigger] flat_hooks(gs@)[j], agent@),
{
    let mut gi: usize = 0;
    assert(gs@.subrange(0, 0) =~= Seq::<Json>::empty());
    while gi < gs.len()
        invariant
            gi <= gs.len(),
            needle@ == "/hook/"@ + agent@ + "/"@,
            forall|j: int| 0 <= j < flat_hooks(gs@.subrange(0, gi as int)).len() ==> is_our_shape(
                #[trigger] flat_hooks(gs@.subrange(0, gi as int))[j],
                agent@,
            ),
        decreases gs.len() - gi,
    {
        proof {
            lemma_flat_step(gs@, gi as int);
        }
        let ghost before = flat_hooks(gs@.subrange(0, gi as int));
        let ghost after = flat_hooks(gs@.subrange(0, gi + 1));
        if let Some(hs) = group_list(&gs[gi]) {
            let mut hi: usize = 0;
            while hi < hs.len()
                invariant
                    hi <= hs.len(),
                    gi < gs.len(),
                    hs@ == group_hooks(gs@[gi as int]),
                    after == before + hs@,
                    after == flat_hooks(gs@.subrange(0, gi + 1)),
                    needle@ == "/hook/"@ + agent@ + "/"@,
                    forall|j: int| 0 <= j < before.len() ==> is_our_shape(#[trigger] before[j], agent@),
                    forall|j: int| 0 <= j < hi ==> is_our_shape(#[trigger] hs@[j], agent@),
                decreases hs.len() - hi,
            {
                if !our_shape(&hs[hi], needle, agent) {
                    proof {
                        let g = gs@.subrange(0, gs.len() as int);
                        assert(g =~= gs@);
                        lemma_flat_prefix(gs@, gi + 1);
                        assert(after[before.len() + hi] == hs@[hi as int]);
                        assert(flat_hooks(gs@)[before.len() + hi] == hs@[hi as int]);
                    }
                    return true;
                }
                hi = hi + 1;
            }
            proof {
                assert forall|j: int| 0 <= j < after.len() implies is_our_shape(#[trigger] after[j], agent@) by {
                    if j >= before.len() {
                        assert(after[j] == hs@[j - before.len()]);
                    } else {
                        assert(after[j] == before[j]);
                    }
                }
            }
        } else {
            proof {
                assert(after =~= before);
            }
        }
        gi = gi + 1;
    }
    assert(gs@.subrange(0, gs.len() as int) =~= gs@);
    false
}

/// The entries of a prefix of the groups come first among all entries.
proof fn lemma_flat_prefix(gs: Seq<Json>, m: int)
    requires
        0 <= m <= gs.len(),
    ensures
        flat_hooks(gs.subrange(0, m)).len() <= flat_hooks(gs).len(),
        forall|j: int| 0 <= j < flat_hooks(gs.subrange(0, m)).len() ==> #[trigger] flat_hooks(gs.subrange(0, m))[j]
            == flat_hooks(gs)[j],
    decreases gs.len() - m,
{
    if m == gs.len() {
        assert(gs.subrange(0, m) =~= gs);
    } else {
        lemma_flat_prefix(gs.drop_last(), m);
        assert(gs.drop_last().subrange(0, m) =~= gs.subrange(0, m));
        assert(flat_hooks(gs) == flat_hooks(gs.drop_last()) + group_hooks(gs.last()));
    }
}

/// Whether the parsed settings hold anything the user wrote; see
/// [`spec_has_foreign_content`].
pub fn has_foreign_content(doc: &Json, agent: &str) -> (r: bool)
    ensures
        r == spec_has_foreign_content(*doc, agent@),
{
    let ms = match doc {
        Json::Object(ms) => ms,
        _ => return false,
    };
    let mut i: usize = 0;
    while i < ms.len()
        invariant
            i <= ms.len(),
            *doc == Json::Object(*ms),
            forall|k: int| 0 <= k < i ==> ms@[k].0@ == "hooks"@,
        decreases ms.len() - i,
    {
        if !str_eq(ms[i].0.as_str(), "hooks") {
            assert(ms@[i as int].0@ != "hooks"@);
            assert(root_members(*doc) == ms@);
            assert(root_members(*doc)[i as int].0@ != "hooks"@);
            return true;
        }
        i = i + 1;
    }
    let hs = match doc.get("hooks") {
        Some(Json::Object(hs)) => hs,
        _ => return false,
    };
    let mut needle = String::from_str("/hook/");
    needle.append(agent);
    needle.append("/");
    let mut e: usize = 0;
    while e < hs.len()
        invariant
            e <= hs.len(),
            *doc == Json::Object(*ms),
            spec_get(*doc, "hooks"@) == Some(Json::Object(*hs)),
            needle@ == "/hook/"@ + agent@ + "/"@,
            forall|i: int, j: int|
                0 <= i < e && 0 <= j < entries_of(hs@[i].1).len() ==> is_our_shape(
                    #[trigger] entries_of(hs@[i].1)[j],
                    agent@,
                ),
        decreases hs.len() - e,
    {
        match &hs[e].1 {
            Json::Array(gs) => {
                if foreign_entry(gs, needle.as_str(), agent) {
                    proof {
                        assert(entries_of(hs@[e as int].1) == flat_hooks(gs@));
                        let j = choose|j: int| 0 <= j < flat_hooks(gs@).len() && !is_our_shape(#[trigger] flat_hooks(gs@)[j], agent@);
                        assert(!is_our_shape(entries_of(hs@[e as int].1)[j], agent@));
                        assert(0 <= j < entries_of(hs@[e as int].1).len());
                        assert(hook_members(*doc) == hs@);
                    }
                    return true;
                }
            },
            _ => {},
        }
        e = e + 1;
    }
    false
}

/// Whether the agent is on this machine, strongest evidence first: its settings hold
/// something the user wrote, its CLI is on `PATH` (`cli`; it is never run), its
/// directory holds traces of use besides `settings.json` (`dir_used`).
pub open spec fn spec_detect(
    agent: Seq<char>,
    name: Seq<char>,
    home: Seq<char>,
    dir: Seq<char>,
    settings: Option<Json>,
    cli: Option<Seq<char>>,
    dir_used: bool,
) -> (bool, Confidence, Seq<char>, Seq<char>, Option<Seq<char>>) {
    let path = spec_settings_path(home, dir);
    if settings matches Some(d) && spec_has_foreign_content(d, agent) {
        (true, Confidence::High, "config-file"@, path + " 里有用户自己的配置"@, Some(path))
    } else if cli is Some {
        (true, Confidence::High, "cli-path"@, "PATH 上找到 "@ + cli->0, Some(path))
    } else if dir_used {
        (true, Confidence::Medium, "parent-dir"@, join_path(home, dir) + " 下有使用痕迹"@, Some(path))
    } else {
        (false, Confidence::Low, "not-found"@, "没有找到 "@ + name + " 的安装痕迹"@, None)
    }
}

/// Detection from the settings file's text (`None`: unreadable), the CLI found on
/// `PATH` and whether the agent's directory shows use; see [`spec_detect`].
pub fn detect(
    agent: &str,
    name: &str,
    home: &str,
    dir: &str,
    settings_text: Option<&str>,
    cli: Option<String>,
    dir_used: bool,
) -> (r: Detected)
    ensures
        ({
            let settings = match settings_text {
                Some(t) => spec_parse_json(t@),
                None => None,
            };
            let d = spec_detect(agent@, name@, home@, dir@, settings, opt_view(cli), dir_used);
            &&& r.installed == d.0
            &&& r.confidence == d.1
            &&& r.reason@ == d.2
            &&& r.detail@ == d.3
            &&& opt_view(r.config_path) == d.4
        }),
{
    let path = settings_path(home, dir);
    let foreign = match settings_text {
        Some(t) => match parse_json(t) {
            Ok(d) => has_foreign_content(&d, agent),
            Err(_) => false,
        },
        None => false,
    };
    if foreign {
        let mut detail = path.clone();
        detail.append(" 里有用户自己的配置");
        return Detected {
            installed: true,
            confidence: Confidence::High,
            reason: String::from_str("config-file"),
            detail,
            config_path: Some(path),
        };
    }
    if let Some(exe) = cli {
        let mut detail = String::from_str("PATH 上找到 ");
        detail.append(exe.as_str());
        return Detected {
            installed: true,
            confidence: Confidence::High,
            reason: String::from_str("cli-path"),
            detail,
            config_path: Some(path),
        };
    }
    if dir_used {
        let mut detail = join(home, dir);
        detail.append(" 下有使用痕迹");
        return Detected {
            installed: true,
            confidence: Confidence::Medium,
            reason: String::from_str("parent-dir"),
            detail,
            config_path: Some(path),
        };
    }
    let mut detail = String::from_str("没有找到 ");
    detail.append(name);
    detail.append(" 的安装痕迹");
    Detected {
        installed: false,
        confidence: Confidence::Low,
        reason: String::from_str("not-found"),
        detail,
        config_path: None,
    }
}

/// The adapter of an agent that takes `http` hooks: its id (the agent segment of its
/// hook URLs), its display name and the directory under the home that holds its
/// `settings.json`.
pub struct ClaudeCode {
    pub id: String,
    pub name: String,
    pub dir: String,
}

impl AgentAdapter for ClaudeCode {
    fn id(&self) -> (r: String)
        ensures
            r@ == self.id@,
    {
        self.id.clone()
    }

    fn name(&self) -> (r: String)
        ensures
            r@ == self.name@,
    {
        self.name.clone()
    }

    fn plan_install(&self, ctx: &InstallCtx) -> (r: Vec<ConfigEdit>)
        ensures
            r@.len() == install_events(ctx.include_blocking).len(),
            forall|i: int| 0 <= i < r@.len() ==> is_ensure_edit(
                #[trigger] r@[i],
                spec_settings_path(ctx.home@, self.dir@),
                self.id@,
                ctx.port,
                install_events(ctx.include_blocking)[i],
            ),
    {
        plan_install(self.id.as_str(), self.dir.as_str(), ctx)
    }

    fn plan_uninstall(&self, ctx: &InstallCtx) -> (r: Vec<ConfigEdit>)
        ensures
            r@.len() == managed_events().len(),
            forall|i: int| 0 <= i < r@.len() ==> is_remove_edit(
                #[trigger] r@[i],
                spec_settings_path(ctx.home@, self.dir@),
                managed_events()[i].0,
            ),
    {
        plan_uninstall(self.dir.as_str(), ctx)
    }

    /// Installed `http` hooks are in effect at once.
    fn activation(&self) -> (r: Option<&'static str>)
        ensures
            r is None,
    {
        None
    }

    fn is_blocking(&self, event: &str) -> (r: bool)
        ensures
            r == (event@ == "PermissionRequest"@),
    {
        is_blocking(event)
    }

    fn parse(&self, event: &str, body: &Json) -> (r: Option<Update>)
        ensures
            match spec_state_of(event@) {
                None => r is None,
                Some(st) => r matches Some(u) && u.state == Some(st) && opt_view(u.detail) == spec_detail(event@, *body)
                    && opt_view(u.cwd) == spec_get_str(*body, "cwd"@) && opt_view(u.title) == spec_get_str(
                    *body,
                    "session_title"@,
                ),
            },
    {
        parse(event, body)
    }

    /// The decision inside the permission-request envelope (an object, not a word);
    /// `{}` for no decision, which hands the choice back to the agent's own prompt.
    fn render(&self, decision: &Decision) -> (r: Json)
        ensures
            jview(r) == spec_render(*decision),
    {
        render_decision(decision)
    }

    fn integration(&self, ctx: &InstallCtx, hooks_text: Option<&str>) -> (r: (Integration, Vec<String>))
        ensures
            match hooks_text {
                Some(t) => match spec_parse_json(t@) {
                    Some(d) => r.0 == spec_integration(d, ctx.port, self.id@) && r.1@.map_values(|c: String| c@)
                        == spec_conflicts(d, ctx.port, self.id@),
                    None => r.0 == Integration::NotInstalled && r.1@.len() == 0,
                },
                None => r.0 == Integration::NotInstalled && r.1@.len() == 0,
            },
    {
        integration_of_text(self.id.as_str(), ctx.port, hooks_text)
    }
}

} // verus!
