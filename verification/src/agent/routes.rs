//! The decisions behind the agent HTTP surface: who may call a hook, what an answer
//! means, and how each outcome is answered. The HTTP plumbing itself is elsewhere.
//!
//! Hook calls that are not recognised are answered `200` with an empty body, never
//! with an error: the hooks live in the user's global agent configuration, so every
//! agent session on the machine calls them, most of them not started from here, and
//! an agent shows any non-2xx reply to its user as an error. Safety comes from doing
//! nothing, not from an error code.
use vstd::prelude::*;
use crate::json::{Json, JsonView, jview, jviews, lemma_jviews_index, spec_get, spec_get_str, parse_json_bytes, spec_parse_json_bytes};
use crate::launcher::opt_view;
use crate::config::{is_lower_hex, random_token};
use crate::text::{chars_of, parse_u64, spec_parse_u64, str_eq};
use super::edit::{event_of_slug, spec_event_of_slug, ConfigEdit, EditOp};
use super::store::{AnswerResult, Decision, PendingRequest};
use super::apply::Outcome;
use super::{is_known_agent, known_agent};

verus! {

/// Why a hook call was taken in and ignored.
#[derive(Debug, Clone, Copy, PartialEq, Eq, Structural)]
pub enum Ignored {
    /// No hook key, or the wrong one: not an agent running in a session of ours.
    NoOrBadToken,
    NoSessionHeader,
    UnknownAgent,
    BadJson,
}

/// What to do with a hook call.
pub enum HookAdmission {
    /// Not from this machine: refused with 403. The payload holds command lines and
    /// file paths, which are not for other hosts.
    Forbidden,
    /// Taken in without effect: 200 with `{}`.
    Ignored(Ignored),
    /// A call from an agent in a session of ours.
    Admitted { session: u64, event: String, agent_session_id: String, payload: Json },
}

pub open spec fn opt_str(o: Option<&str>) -> Option<Seq<char>> {
    match o {
        Some(t) => Some(t@),
        None => None,
    }
}

/// Whether the `Authorization` header carries `Bearer <token>`.
pub open spec fn token_matches(auth: Option<Seq<char>>, token: Seq<char>) -> bool {
    match auth {
        Some(a) => a.len() >= 7 && a.subrange(0, 7) == "Bearer "@ && a.subrange(7, a.len() as int) == token,
        None => false,
    }
}

/// The session a call belongs to, from its `X-Octoterm-Session` header.
pub open spec fn spec_session_of(header: Option<Seq<char>>) -> Option<u64> {
    match header {
        Some(t) => spec_parse_u64(t),
        None => None,
    }
}

/// The call's JSON body; an empty body counts as `{}`.
pub open spec fn spec_payload(body: Seq<u8>) -> Option<JsonView> {
    match spec_parse_json_bytes(body) {
        Some(j) => Some(jview(j)),
        None => if body.len() == 0 {
            Some(JsonView::Object(Seq::empty()))
        } else {
            None
        },
    }
}

/// The agent's own session id in the payload, `default` when it names none.
pub open spec fn spec_agent_session_id(payload: Json) -> Seq<char> {
    match spec_get_str(payload, "session_id"@) {
        Some(s) => s,
        None => "default"@,
    }
}

fn bearer_is(auth: &str, token: &str) -> (r: bool)
    ensures
        r == token_matches(Some(auth@), token@),
{
    let a = chars_of(auth);
    let t = chars_of(token);
    let p = chars_of("Bearer ");
    proof {
        reveal_strlit("Bearer ");
    }
    if a.len() < 7 || a.len() - 7 != t.len() {
        proof {
            if a@.len() >= 7 && a@.subrange(7, a@.len() as int) == t@ {
                assert(a@.subrange(7, a@.len() as int).len() == t@.len());
            }
        }
        return false;
    }
    let mut i: usize = 0;
    while i < 7
        invariant
            a@ == auth@,
            t@ == token@,
            a@.len() == t@.len() + 7,
            p@ == "Bearer "@,
            p@.len() == 7,
            i <= 7,
            forall|k: int| 0 <= k < i ==> a@[k] == p@[k],
        decreases 7 - i,
    {
        if a[i] != p[i] {
            proof {
                assert(a@.subrange(0, 7)[i as int] != p@[i as int]);
            }
            return false;
        }
        i = i + 1;
    }
    assert(a@.subrange(0, 7) =~= p@);
    let mut j: usize = 0;
    while j < t.len()
        invariant
            a@ == auth@,
            t@ == token@,
            a@.subrange(0, 7) == "Bearer "@,
            a@.len() == t@.len() + 7,
            j <= t@.len(),
            forall|k: int| 0 <= k < j ==> a@[7 + k] == t@[k],
        decreases t.len() - j,
    {
        assert(7 + j < a.len());
        if a[7 + j] != t[j] {
            proof {
                assert(a@.subrange(7, a@.len() as int)[j as int] != t@[j as int]);
            }
            return false;
        }
        j = j + 1;
    }
    assert(a@.subrange(7, a@.len() as int) =~= t@);
    true
}

/// Whether a request carries `Authorization: Bearer <token>` with the client token
/// (a header, not a query parameter: it stays out of logs, and only scripts can set
/// it, which keeps other pages' forms and images out).
pub fn bearer_ok(authorization: Option<&str>, token: &str) -> (r: bool)
    ensures
        r == token_matches(opt_str(authorization), token@),
{
    match authorization {
        Some(a) => bearer_is(a, token),
        None => false,
    }
}

fn empty_object() -> (r: Json)
    ensures
        jview(r) == JsonView::Object(Seq::empty()),
{
    let r = Json::Object(Vec::new());
    assert(crate::json::mviews(Seq::<(String, Json)>::empty()) =~= Seq::empty());
    r
}

/// Decides a hook call, in order: a peer off this machine is refused; then a call
/// without the hook key, without a session header, for an unknown agent, or with a
/// body that is not JSON is ignored; anything else is admitted with its session, the
/// event named by the URL's slug, and the agent's own session id.
pub fn admit_hook(
    loopback: bool,
    authorization: Option<&str>,
    hook_token: &str,
    session_header: Option<&str>,
    agent: &str,
    event_slug: &str,
    body: &[u8],
) -> (r: HookAdmission)
    ensures
        !loopback ==> r is Forbidden,
        loopback && !token_matches(opt_str(authorization), hook_token@) ==> (r matches HookAdmission::Ignored(w) && w == Ignored::NoOrBadToken),
        loopback && token_matches(opt_str(authorization), hook_token@) && spec_session_of(opt_str(session_header)) is None
            ==> (r matches HookAdmission::Ignored(w) && w == Ignored::NoSessionHeader),
        loopback && token_matches(opt_str(authorization), hook_token@) && spec_session_of(opt_str(session_header)) is Some
            && !known_agent(agent@) ==> (r matches HookAdmission::Ignored(w) && w == Ignored::UnknownAgent),
        loopback && token_matches(opt_str(authorization), hook_token@) && spec_session_of(opt_str(session_header)) is Some
            && known_agent(agent@) && spec_payload(body@) is None ==> (r matches HookAdmission::Ignored(w) && w == Ignored::BadJson),
        loopback && token_matches(opt_str(authorization), hook_token@) && spec_session_of(opt_str(session_header)) is Some
            && known_agent(agent@) && spec_payload(body@) is Some ==> (r matches HookAdmission::Admitted {
            session,
            event,
            agent_session_id,
            payload,
        } && Some(session) == spec_session_of(opt_str(session_header)) && event@ == spec_event_of_slug(event_slug@)
            && Some(jview(payload)) == spec_payload(body@) && agent_session_id@ == spec_agent_session_id(payload)),
{
    if !loopback {
        return HookAdmission::Forbidden;
    }
    let ok = match authorization {
        Some(a) => bearer_is(a, hook_token),
        None => false,
    };
    if !ok {
        return HookAdmission::Ignored(Ignored::NoOrBadToken);
    }
    let session = match session_header {
        Some(h) => {
            let cs = chars_of(h);
            parse_u64(cs.as_slice())
        },
        None => None,
    };
    let session = match session {
        Some(s) => s,
        None => return HookAdmission::Ignored(Ignored::NoSessionHeader),
    };
    if !is_known_agent(agent) {
        return HookAdmission::Ignored(Ignored::UnknownAgent);
    }
    let payload = match parse_json_bytes(body) {
        Ok(v) => v,
        Err(_) => {
            if body.len() == 0 {
                empty_object()
            } else {
                return HookAdmission::Ignored(Ignored::BadJson);
            }
        },
    };
    let event = event_of_slug(event_slug);
    let agent_session_id = match payload.get("session_id") {
        Some(v) => match v.as_str() {
            Some(t) => t.to_string(),
            None => String::from_str("default"),
        },
        None => String::from_str("default"),
    };
    HookAdmission::Admitted { session, event, agent_session_id, payload }
}

/// How often an ignored call is logged, in seconds: every tool call comes through
/// here, and an unthrottled log would fill itself.
pub const LOG_EVERY_SECS: u64 = 60;

/// Whether an ignored call is logged now, the last one having been logged at `last`.
pub fn log_due(now: u64, last: u64) -> (r: bool)
    ensures
        r == (now >= last && now - last >= LOG_EVERY_SECS),
{
    let gap = if now >= last {
        now - last
    } else {
        0
    };
    gap >= LOG_EVERY_SECS
}

/// The body of `POST /api/agents/answer`.
pub struct AnswerBody {
    pub pending_id: String,
    /// `"allow"` or `"deny"`; anything else is a 400, not a guess.
    pub decision: String,
    pub message: Option<String>,
}

/// What an answer body decides; the error text for any other decision word.
pub fn decision_of(body: AnswerBody) -> (r: Result<Decision, String>)
    ensures
        body.decision@ == "allow"@ ==> (r matches Ok(Decision::Allow { message, updated_input }) && message == body.message
            && updated_input is None),
        body.decision@ == "deny"@ ==> (r matches Ok(Decision::Deny { message }) && message == body.message),
        body.decision@ != "allow"@ && body.decision@ != "deny"@ ==> (r matches Err(t) && t@ == "unknown decision: "@
            + body.decision@),
{
    proof {
        reveal_strlit("allow");
        reveal_strlit("deny");
        assert("deny"@.len() != "allow"@.len());
    }
    if str_eq(body.decision.as_str(), "allow") {
        Ok(Decision::Allow { message: body.message, updated_input: None })
    } else if str_eq(body.decision.as_str(), "deny") {
        Ok(Decision::Deny { message: body.message })
    } else {
        let mut t = String::from_str("unknown decision: ");
        t.append(body.decision.as_str());
        Err(t)
    }
}

/// The status an answer gets: a repeated answer (409) is not a missing request (404).
pub fn answer_status(r: AnswerResult) -> (s: u16)
    ensures
        s == match r {
            AnswerResult::Recorded => 200u16,
            AnswerResult::NotFound => 404u16,
            AnswerResult::AlreadyAnswered => 409u16,
        },
{
    match r {
        AnswerResult::Recorded => 200,
        AnswerResult::NotFound => 404,
        AnswerResult::AlreadyAnswered => 409,
    }
}

/// Whether to install the blocking hook: as asked; unasked, only for a known agent
/// with no other program's blocking hook on its events.
pub fn wants_blocking(explicit: Option<bool>, agent: &str, conflicts: &Vec<String>) -> (r: bool)
    ensures
        r == match explicit {
            Some(v) => v,
            None => known_agent(agent@) && conflicts@.len() == 0,
        },
{
    match explicit {
        Some(v) => v,
        None => is_known_agent(agent) && conflicts.len() == 0,
    }
}

/// The client's view of a planned edit, kept apart from the internal type.
pub open spec fn spec_describe(e: ConfigEdit) -> JsonView {
    match e.op {
        EditOp::EnsureHook { event, spec } => JsonView::Object(
            seq![
                ("path"@, JsonView::Str(e.path@)),
                ("action"@, JsonView::Str("ensure"@)),
                ("event"@, JsonView::Str(event@)),
                ("spec"@, jview(spec)),
            ],
        ),
        EditOp::RemoveOurs { event } => JsonView::Object(
            seq![
                ("path"@, JsonView::Str(e.path@)),
                ("action"@, JsonView::Str("remove"@)),
                ("event"@, JsonView::Str(event@)),
                ("spec"@, JsonView::Null),
            ],
        ),
    }
}

pub fn describe(e: &ConfigEdit) -> (r: Json)
    ensures
        jview(r) == spec_describe(*e),
{
    let (action, event, spec) = match &e.op {
        EditOp::EnsureHook { event, spec } => (String::from_str("ensure"), event.clone(), spec.duplicate()),
        EditOp::RemoveOurs { event } => (String::from_str("remove"), event.clone(), Json::Null),
    };
    let mut ms: Vec<(String, Json)> = Vec::new();
    ms.push((String::from_str("path"), Json::Str(e.path.clone())));
    ms.push((String::from_str("action"), Json::Str(action)));
    ms.push((String::from_str("event"), Json::Str(event)));
    ms.push((String::from_str("spec"), spec));
    proof {
        reveal_with_fuel(crate::json::mviews, 5);
        assert(crate::json::mviews(ms@) =~= match spec_describe(*e) {
            JsonView::Object(m) => m,
            _ => Seq::empty(),
        });
    }
    Json::Object(ms)
}

/// The input a pending request shows: the payload's `tool_input`, `null` when absent.
pub open spec fn spec_tool_input(payload: Json) -> JsonView {
    match spec_get(payload, "tool_input"@) {
        Some(v) => jview(v),
        None => JsonView::Null,
    }
}

/// The request a blocking hook call opens while it waits for a human: the tool's
/// name and input from the payload, lapsing `timeout` seconds after `now`.
pub fn pending_request(
    id: String,
    agent_id: &str,
    agent_session_id: &str,
    session: u64,
    payload: &Json,
    now: u64,
    timeout: u64,
) -> (r: PendingRequest)
    requires
        now + timeout <= u64::MAX,
    ensures
        r.id@ == id@,
        r.agent_id@ == agent_id@,
        r.agent_session_id@ == agent_session_id@,
        r.session == Some(session),
        opt_view(r.tool_name) == spec_get_str(*payload, "tool_name"@),
        jview(r.tool_input) == spec_tool_input(*payload),
        r.created_at == now,
        r.expires_at == now + timeout,
{
    let tool_name = match payload.get("tool_name") {
        Some(v) => match v.as_str() {
            Some(t) => Some(t.to_string()),
            None => None,
        },
        None => None,
    };
    let tool_input = match payload.get("tool_input") {
        Some(v) => v.duplicate(),
        None => Json::Null,
    };
    PendingRequest {
        id,
        agent_id: agent_id.to_string(),
        agent_session_id: agent_session_id.to_string(),
        session: Some(session),
        tool_name,
        tool_input,
        created_at: now,
        expires_at: now + timeout,
    }
}

/// Opens the pending request of a blocking hook call under a fresh random id (32
/// lowercase hexadecimal digits), as [`pending_request`] says.
pub fn open_pending(agent_id: &str, agent_session_id: &str, session: u64, payload: &Json, now: u64, timeout: u64) -> (r: PendingRequest)
    requires
        now + timeout <= u64::MAX,
    ensures
        r.id@.len() == 32,
        forall|i: int| 0 <= i < 32 ==> is_lower_hex(#[trigger] r.id@[i]),
        r.agent_id@ == agent_id@,
        r.agent_session_id@ == agent_session_id@,
        r.session == Some(session),
        opt_view(r.tool_name) == spec_get_str(*payload, "tool_name"@),
        jview(r.tool_input) == spec_tool_input(*payload),
        r.created_at == now,
        r.expires_at == now + timeout,
{
    pending_request(random_token(), agent_id, agent_session_id, session, payload, now, timeout)
}

/// The client's view of every planned edit, in order.
pub open spec fn describe_all(es: Seq<ConfigEdit>) -> Seq<JsonView> {
    Seq::new(es.len(), |i: int| spec_describe(es[i]))
}

fn describe_list(es: &Vec<ConfigEdit>) -> (r: Json)
    ensures
        jview(r) == JsonView::Array(describe_all(es@)),
{
    let mut out: Vec<Json> = Vec::new();
    let mut i: usize = 0;
    while i < es.len()
        invariant
            i <= es.len(),
            out@.len() == i,
            forall|k: int| 0 <= k < i ==> jview(#[trigger] out@[k]) == spec_describe(es@[k]),
        decreases es.len() - i,
    {
        out.push(describe(&es[i]));
        i = i + 1;
    }
    proof {
        lemma_jviews_index(out@);
        assert(jviews(out@) =~= describe_all(es@));
    }
    Json::Array(out)
}

/// The reply to a plan request: both plans as the client sees them, whether the
/// blocking hook is included, and whether installing is enabled at all.
pub open spec fn spec_plan_reply(install: Seq<ConfigEdit>, uninstall: Seq<ConfigEdit>, include_blocking: bool, install_enabled: bool) -> JsonView {
    JsonView::Object(
        seq![
            ("install"@, JsonView::Array(describe_all(install))),
            ("uninstall"@, JsonView::Array(describe_all(uninstall))),
            ("include_blocking"@, JsonView::Bool(include_blocking)),
            ("install_enabled"@, JsonView::Bool(install_enabled)),
        ],
    )
}

pub fn plan_reply(install: &Vec<ConfigEdit>, uninstall: &Vec<ConfigEdit>, include_blocking: bool, install_enabled: bool) -> (r: Json)
    ensures
        jview(r) == spec_plan_reply(install@, uninstall@, include_blocking, install_enabled),
{
    let mut ms: Vec<(String, Json)> = Vec::new();
    ms.push((String::from_str("install"), describe_list(install)));
    ms.push((String::from_str("uninstall"), describe_list(uninstall)));
    ms.push((String::from_str("include_blocking"), Json::Bool(include_blocking)));
    ms.push((String::from_str("install_enabled"), Json::Bool(install_enabled)));
    proof {
        reveal_with_fuel(crate::json::mviews, 5);
        assert(crate::json::mviews(ms@) =~= seq![
            ("install"@, JsonView::Array(describe_all(install@))),
            ("uninstall"@, JsonView::Array(describe_all(uninstall@))),
            ("include_blocking"@, JsonView::Bool(include_blocking)),
            ("install_enabled"@, JsonView::Bool(install_enabled)),
        ]);
    }
    Json::Object(ms)
}

/// Which events an install or uninstall covers: an install includes the blocking
/// hook as [`wants_blocking`] decided; an uninstall always covers every event, or
/// turning the switch off and then uninstalling would leave entries behind.
pub fn include_blocking_for(installing: bool, wanted: bool) -> (r: bool)
    ensures
        r == (!installing || wanted),
{
    if installing {
        wanted
    } else {
        true
    }
}

/// One file of an applied plan as the client sees it.
pub open spec fn file_view(o: Outcome) -> JsonView {
    JsonView::Object(
        seq![
            ("path"@, JsonView::Str(o.path@)),
            ("changed"@, JsonView::Bool(o.changed)),
            (
                "backup"@,
                match o.backup {
                    Some(b) => JsonView::Str(b@),
                    None => JsonView::Null,
                },
            ),
        ],
    )
}

/// The reply to an install or uninstall that went through: whether any file changed,
/// whether the blocking hook was included, and each file.
pub open spec fn spec_apply_reply(outcomes: Seq<Outcome>, include_blocking: bool) -> JsonView {
    JsonView::Object(
        seq![
            ("changed"@, JsonView::Bool(exists|i: int| 0 <= i < outcomes.len() && #[trigger] outcomes[i].changed)),
            ("include_blocking"@, JsonView::Bool(include_blocking)),
            ("files"@, JsonView::Array(Seq::new(outcomes.len(), |i: int| file_view(outcomes[i])))),
        ],
    )
}

fn file_json(o: &Outcome) -> (r: Json)
    ensures
        jview(r) == file_view(*o),
{
    let backup = match &o.backup {
        Some(b) => Json::Str(b.clone()),
        None => Json::Null,
    };
    let mut ms: Vec<(String, Json)> = Vec::new();
    ms.push((String::from_str("path"), Json::Str(o.path.clone())));
    ms.push((String::from_str("changed"), Json::Bool(o.changed)));
    ms.push((String::from_str("backup"), backup));
    proof {
        reveal_with_fuel(crate::json::mviews, 4);
        assert(crate::json::mviews(ms@) =~= match file_view(*o) {
            JsonView::Object(m) => m,
            _ => Seq::empty(),
        });
    }
    Json::Object(ms)
}

pub fn apply_reply(outcomes: &Vec<Outcome>, include_blocking: bool) -> (r: Json)
    ensures
        jview(r) == spec_apply_reply(outcomes@, include_blocking),
{
    let mut files: Vec<Json> = Vec::new();
    let mut changed = false;
    let mut i: usize = 0;
    while i < outcomes.len()
        invariant
            i <= outcomes.len(),
            files@.len() == i,
            forall|k: int| 0 <= k < i ==> jview(#[trigger] files@[k]) == file_view(outcomes@[k]),
            changed == exists|k: int| 0 <= k < i && #[trigger] outcomes@[k].changed,
        decreases outcomes.len() - i,
    {
        files.push(file_json(&outcomes[i]));
        if outcomes[i].changed {
            changed = true;
        }
        i = i + 1;
    }
    proof {
        lemma_jviews_index(files@);
        assert(jviews(files@) =~= Seq::new(outcomes@.len(), |k: int| file_view(outcomes@[k])));
    }
    let mut ms: Vec<(String, Json)> = Vec::new();
    ms.push((String::from_str("changed"), Json::Bool(changed)));
    ms.push((String::from_str("include_blocking"), Json::Bool(include_blocking)));
    ms.push((String::from_str("files"), Json::Array(files)));
    proof {
        reveal_with_fuel(crate::json::mviews, 4);
        assert(crate::json::mviews(ms@) =~= match spec_apply_reply(outcomes@, include_blocking) {
            JsonView::Object(m) => m,
            _ => Seq::empty(),
        });
    }
    Json::Object(ms)
}

} // verus!
