//! The agent session table: in memory only. After a restart the next hook event
//! rebuilds a session; only history is lost, and history is not what this is for.
//!
//! Any event may create its session: `SessionStart` is not assumed to come first.
//! The clock and the liveness of host sessions are handed in by the caller, so every
//! decision here is a function of its arguments.
use vstd::prelude::*;
use crate::json::Json;
use crate::launcher::opt_view;
use crate::order::{
    Order3, seq_lt, pair_lt, compare_str, spec_compare, lemma_pair_lt_total, lemma_pair_lt_transitive,
    lemma_seq_lt_total, lemma_seq_lt_transitive,
};
use crate::protocol::messages::{AgentState, ServerMsg};

verus! {

/// A hook payload, already reduced by the agent's adapter.
#[derive(Debug, Clone, Default)]
pub struct Update {
    /// `None`: the event does not change the state.
    pub state: Option<AgentState>,
    pub detail: Option<String>,
    pub cwd: Option<String>,
    pub title: Option<String>,
}

#[derive(Debug, Clone)]
pub struct AgentSession {
    pub agent_id: String,
    pub agent_session_id: String,
    pub session: Option<u64>,
    pub state: AgentState,
    pub detail: Option<String>,
    pub cwd: Option<String>,
    pub title: Option<String>,
    /// Set while a request waits for a human.
    pub pending: Option<String>,
    pub updated_at: u64,
    /// When the user acknowledged it. Idleness counts from the later of the two, so
    /// a session the user just looked at is not swept for lack of new events.
    pub acked_at: u64,
}

/// An agent session as plain values.
pub ghost struct SessionView {
    pub agent_id: Seq<char>,
    pub agent_session_id: Seq<char>,
    pub session: Option<u64>,
    pub state: AgentState,
    pub detail: Option<Seq<char>>,
    pub cwd: Option<Seq<char>>,
    pub title: Option<Seq<char>>,
    pub pending: Option<Seq<char>>,
    pub updated_at: u64,
    pub acked_at: u64,
}

pub open spec fn sview(s: AgentSession) -> SessionView {
    SessionView {
        agent_id: s.agent_id@,
        agent_session_id: s.agent_session_id@,
        session: s.session,
        state: s.state,
        detail: opt_view(s.detail),
        cwd: opt_view(s.cwd),
        title: opt_view(s.title),
        pending: opt_view(s.pending),
        updated_at: s.updated_at,
        acked_at: s.acked_at,
    }
}

pub open spec fn sviews(v: Seq<AgentSession>) -> Seq<SessionView> {
    v.map_values(|s: AgentSession| sview(s))
}

/// A session's key: the agent and the agent's own session id.
pub open spec fn skey(v: SessionView) -> (Seq<char>, Seq<char>) {
    (v.agent_id, v.agent_session_id)
}

fn clone_opt(o: &Option<String>) -> (r: Option<String>)
    ensures
        opt_view(r) == opt_view(*o),
{
    match o {
        Some(s) => Some(s.clone()),
        None => None,
    }
}

impl AgentSession {
    /// A copy.
    pub fn copy(&self) -> (r: AgentSession)
        ensures
            sview(r) == sview(*self),
    {
        AgentSession {
            agent_id: self.agent_id.clone(),
            agent_session_id: self.agent_session_id.clone(),
            session: self.session,
            state: self.state,
            detail: clone_opt(&self.detail),
            cwd: clone_opt(&self.cwd),
            title: clone_opt(&self.title),
            pending: clone_opt(&self.pending),
            updated_at: self.updated_at,
            acked_at: self.acked_at,
        }
    }

    /// The `AgentEvent` that announces this session.
    pub fn to_msg(&self) -> (m: ServerMsg)
        ensures
            m matches ServerMsg::AgentEvent { agent_id, agent_session_id, session, state, pending, detail }
                && agent_id@ == self.agent_id@ && agent_session_id@ == self.agent_session_id@
                && session == self.session && state == self.state && opt_view(pending) == opt_view(
                self.pending,
            ) && opt_view(detail) == opt_view(self.detail),
    {
        ServerMsg::AgentEvent {
            agent_id: self.agent_id.clone(),
            agent_session_id: self.agent_session_id.clone(),
            session: self.session,
            state: self.state,
            pending: clone_opt(&self.pending),
            detail: clone_opt(&self.detail),
        }
    }
}

/// What to do with an agent session when sweeping.
#[derive(Debug, Clone, Copy, PartialEq, Eq, Structural)]
pub enum Sweep {
    /// Remove it from the table.
    Drop,
    /// Show it as idle: stuck on "working" for long, it has most likely stopped,
    /// but it is not old enough to remove.
    MarkIdle,
}

/// The later of the two timestamps: idleness counts from there.
pub open spec fn idle_base(s: SessionView) -> u64 {
    if s.updated_at >= s.acked_at {
        s.updated_at
    } else {
        s.acked_at
    }
}

/// How long the session has been idle at `now` (zero if the clock went back).
pub open spec fn idle_age(now: u64, s: SessionView) -> int {
    if now >= idle_base(s) {
        now - idle_base(s)
    } else {
        0
    }
}

/// The sweeping rule, in order: a session whose host is gone is dropped at once
/// (stronger evidence than any timeout); one that waits for a human is never swept
/// (the request has its own timeout); past `session_stale_secs` of idleness it is
/// dropped; past `working_stale_secs` a working or thinking session is shown idle.
pub open spec fn spec_decide(
    now: u64,
    s: SessionView,
    host_alive: bool,
    session_stale_secs: u64,
    working_stale_secs: u64,
) -> Option<Sweep> {
    if !host_alive {
        Some(Sweep::Drop)
    } else if s.pending is Some {
        None
    } else if idle_age(now, s) > session_stale_secs {
        Some(Sweep::Drop)
    } else if idle_age(now, s) > working_stale_secs && (s.state == AgentState::Working || s.state
        == AgentState::Thinking) {
        Some(Sweep::MarkIdle)
    } else {
        None
    }
}

/// The sweeping decision for one session; see [`spec_decide`]. `now` and whether the
/// host session is alive are given, so the rule can be checked case by case.
pub fn decide(
    now: u64,
    s: &AgentSession,
    host_alive: bool,
    session_stale_secs: u64,
    working_stale_secs: u64,
) -> (r: Option<Sweep>)
    ensures
        r == spec_decide(now, sview(*s), host_alive, session_stale_secs, working_stale_secs),
{
    if !host_alive {
        return Some(Sweep::Drop);
    }
    if s.pending.is_some() {
        return None;
    }
    let base = if s.updated_at >= s.acked_at {
        s.updated_at
    } else {
        s.acked_at
    };
    let age = now.saturating_sub(base);
    if age > session_stale_secs {
        return Some(Sweep::Drop);
    }
    if age > working_stale_secs && (s.state == AgentState::Working || s.state == AgentState::Thinking) {
        return Some(Sweep::MarkIdle);
    }
    None
}

/// Law: marking a session idle does not give it more time. The clock it is judged
/// by is untouched, so once it is old enough it is dropped, idle or not.
pub proof fn mark_idle_does_not_extend_life(
    s: SessionView,
    later: u64,
    session_stale_secs: u64,
    working_stale_secs: u64,
)
    requires
        s.pending is None,
        idle_age(later, s) > session_stale_secs,
    ensures
        spec_decide(later, SessionView { state: AgentState::Idle, ..s }, true, session_stale_secs, working_stale_secs)
            == Some(Sweep::Drop),
        spec_decide(later, s, true, session_stale_secs, working_stale_secs) == Some(Sweep::Drop),
{
}

/// Law: a session that is busy (working or thinking) with no request waiting, whose
/// host is alive and which has been idle longer than `working_stale_secs` but not
/// longer than `session_stale_secs`, is shown idle; a session in any other state is
/// left alone.
pub proof fn a_stuck_busy_session_is_shown_idle(
    now: u64,
    s: SessionView,
    session_stale_secs: u64,
    working_stale_secs: u64,
)
    requires
        s.pending is None,
        working_stale_secs < idle_age(now, s) <= session_stale_secs,
    ensures
        s.state == AgentState::Working ==> spec_decide(now, s, true, session_stale_secs, working_stale_secs)
            == Some(Sweep::MarkIdle),
        s.state == AgentState::Thinking ==> spec_decide(now, s, true, session_stale_secs, working_stale_secs)
            == Some(Sweep::MarkIdle),
        s.state != AgentState::Working && s.state != AgentState::Thinking ==> spec_decide(
            now,
            s,
            true,
            session_stale_secs,
            working_stale_secs,
        ) == None::<Sweep>,
{
}

/// Law: a session whose host is alive and which has been idle no longer than either
/// timeout is left alone, whatever its state.
pub proof fn a_recently_active_session_is_left_alone(
    now: u64,
    s: SessionView,
    session_stale_secs: u64,
    working_stale_secs: u64,
)
    requires
        idle_age(now, s) <= session_stale_secs,
        idle_age(now, s) <= working_stale_secs,
    ensures
        spec_decide(now, s, true, session_stale_secs, working_stale_secs) == None::<Sweep>,
{
}

/// The session an event creates: idle, nothing known yet, its clock started at
/// `now`.
pub open spec fn fresh_session(
    agent_id: Seq<char>,
    agent_session_id: Seq<char>,
    session: Option<u64>,
    now: u64,
) -> SessionView {
    SessionView {
        agent_id,
        agent_session_id,
        session,
        state: AgentState::Idle,
        detail: None,
        cwd: None,
        title: None,
        pending: None,
        updated_at: now,
        acked_at: 0,
    }
}

/// An update as plain values.
pub ghost struct UpdateView {
    pub state: Option<AgentState>,
    pub detail: Option<Seq<char>>,
    pub cwd: Option<Seq<char>>,
    pub title: Option<Seq<char>>,
}

pub open spec fn uview(u: Update) -> UpdateView {
    UpdateView { state: u.state, detail: opt_view(u.detail), cwd: opt_view(u.cwd), title: opt_view(u.title) }
}

/// `base` after an event at `now`: only the fields the event carries change (an
/// event with only a tool name does not wipe the cwd), the host session is kept when
/// the event names none, and the clock restarts.
pub open spec fn spec_updated(base: SessionView, session: Option<u64>, up: UpdateView, now: u64) -> SessionView {
    SessionView {
        state: match up.state {
            Some(st) => st,
            None => base.state,
        },
        detail: if up.detail is Some { up.detail } else { base.detail },
        cwd: if up.cwd is Some { up.cwd } else { base.cwd },
        title: if up.title is Some { up.title } else { base.title },
        session: if session is Some { session } else { base.session },
        updated_at: now,
        ..base
    }
}

/// The keys of a table are strictly increasing, so each key appears once.
pub open spec fn sorted_by_key(s: Seq<SessionView>) -> bool {
    forall|i: int, j: int| 0 <= i < j < s.len() ==> pair_lt(skey(s[i]), skey(s[j]))
}

/// The index of the session with key `k`, or -1.
pub open spec fn find_key(s: Seq<SessionView>, k: (Seq<char>, Seq<char>)) -> int
    decreases s.len(),
{
    if s.len() == 0 {
        -1
    } else if find_key(s.drop_last(), k) >= 0 {
        find_key(s.drop_last(), k)
    } else if skey(s.last()) == k {
        s.len() - 1
    } else {
        -1
    }
}

/// How many keys of `s` come before `k`: where `k` goes in a sorted table.
pub open spec fn insert_pos(s: Seq<SessionView>, k: (Seq<char>, Seq<char>)) -> int
    decreases s.len(),
{
    if s.len() == 0 {
        0
    } else {
        insert_pos(s.drop_last(), k) + if pair_lt(skey(s.last()), k) {
            1int
        } else {
            0int
        }
    }
}

/// The table after an event for the key `(agent_id, agent_session_id)`: that
/// session updated, or created in its place when there was none.
pub open spec fn spec_apply_table(
    s: Seq<SessionView>,
    agent_id: Seq<char>,
    agent_session_id: Seq<char>,
    session: Option<u64>,
    up: UpdateView,
    now: u64,
) -> Seq<SessionView> {
    let k = (agent_id, agent_session_id);
    let i = find_key(s, k);
    if i >= 0 {
        s.update(i, spec_updated(s[i], session, up, now))
    } else {
        s.insert(
            insert_pos(s, k),
            spec_updated(fresh_session(agent_id, agent_session_id, session, now), session, up, now),
        )
    }
}

/// The session with key `k` in `s`.
pub open spec fn lookup(s: Seq<SessionView>, k: (Seq<char>, Seq<char>)) -> Option<SessionView> {
    if find_key(s, k) >= 0 {
        Some(s[find_key(s, k)])
    } else {
        None
    }
}

proof fn lemma_find_key_bounds(s: Seq<SessionView>, k: (Seq<char>, Seq<char>))
    ensures
        -1 <= find_key(s, k) < s.len(),
        find_key(s, k) >= 0 ==> skey(s[find_key(s, k)]) == k,
        find_key(s, k) == -1 ==> forall|j: int| 0 <= j < s.len() ==> skey(#[trigger] s[j]) != k,
    decreases s.len(),
{
    if s.len() > 0 {
        lemma_find_key_bounds(s.drop_last(), k);
        if find_key(s.drop_last(), k) == -1 && skey(s.last()) != k {
            assert forall|j: int| 0 <= j < s.len() implies skey(#[trigger] s[j]) != k by {
                if j < s.len() - 1 {
                    assert(s[j] == s.drop_last()[j]);
                }
            }
        }
    }
}

/// In a sorted table, the sessions before position `i` all come before `k` and those
/// from `i` on come after: then `k` goes at `i`.
proof fn lemma_insert_pos(s: Seq<SessionView>, k: (Seq<char>, Seq<char>), i: int)
    requires
        0 <= i <= s.len(),
        forall|j: int| 0 <= j < i ==> pair_lt(skey(#[trigger] s[j]), k),
        forall|j: int| i <= j < s.len() ==> pair_lt(k, skey(#[trigger] s[j])),
    ensures
        insert_pos(s, k) == i,
    decreases s.len(),
{
    if s.len() > 0 {
        if i == s.len() {
            lemma_insert_pos(s.drop_last(), k, i - 1);
            assert(pair_lt(skey(s[s.len() - 1]), k));
        } else {
            assert(pair_lt(k, skey(s[s.len() - 1])));
            lemma_pair_lt_total(k, skey(s.last()));
            assert forall|j: int| 0 <= j < i implies pair_lt(skey(#[trigger] s.drop_last()[j]), k) by {
                assert(s.drop_last()[j] == s[j]);
            }
            assert forall|j: int| i <= j < s.drop_last().len() implies pair_lt(
                k,
                skey(#[trigger] s.drop_last()[j]),
            ) by {
                assert(s.drop_last()[j] == s[j]);
            }
            lemma_insert_pos(s.drop_last(), k, i);
        }
    }
}

proof fn lemma_find_key_at(s: Seq<SessionView>, k: (Seq<char>, Seq<char>), i: int)
    requires
        0 <= i < s.len(),
        forall|j: int| 0 <= j < i ==> skey(#[trigger] s[j]) != k,
        skey(s[i]) == k,
    ensures
        find_key(s, k) == i,
    decreases s.len(),
{
    if i < s.len() - 1 {
        assert forall|j: int| 0 <= j < i implies skey(#[trigger] s.drop_last()[j]) != k by {
            assert(s.drop_last()[j] == s[j]);
        }
        assert(s.drop_last()[i] == s[i]);
        lemma_find_key_at(s.drop_last(), k, i);
    } else {
        assert forall|j: int| 0 <= j < s.drop_last().len() implies skey(#[trigger] s.drop_last()[j]) != k by {
            assert(s.drop_last()[j] == s[j]);
        }
        lemma_find_key_none(s.drop_last(), k);
    }
}

proof fn lemma_find_key_none(s: Seq<SessionView>, k: (Seq<char>, Seq<char>))
    requires
        forall|j: int| 0 <= j < s.len() ==> skey(#[trigger] s[j]) != k,
    ensures
        find_key(s, k) == -1,
    decreases s.len(),
{
    if s.len() > 0 {
        assert forall|j: int| 0 <= j < s.drop_last().len() implies skey(#[trigger] s.drop_last()[j]) != k by {
            assert(s.drop_last()[j] == s[j]);
        }
        lemma_find_key_none(s.drop_last(), k);
        assert(skey(s[s.len() - 1]) != k);
    }
}

/// Where the scan of a sorted table stopped: the sessions before `i` come before
/// `k`, and the one at `i` (if any) comes after it.
proof fn lemma_scan_stop(s: Seq<SessionView>, k: (Seq<char>, Seq<char>), i: int)
    requires
        sorted_by_key(s),
        0 <= i <= s.len(),
        forall|j: int| 0 <= j < i ==> pair_lt(skey(#[trigger] s[j]), k),
        i < s.len() ==> pair_lt(k, skey(s[i])),
    ensures
        find_key(s, k) == -1,
        insert_pos(s, k) == i,
        forall|j: int| i <= j < s.len() ==> pair_lt(k, skey(#[trigger] s[j])),
{
    assert forall|j: int| i <= j < s.len() implies pair_lt(k, skey(#[trigger] s[j])) by {
        if j > i {
            lemma_pair_lt_transitive(k, skey(s[i]), skey(s[j]));
        }
    }
    assert forall|j: int| 0 <= j < s.len() implies skey(#[trigger] s[j]) != k by {
        lemma_pair_lt_total(skey(s[j]), k);
    }
    lemma_find_key_none(s, k);
    lemma_insert_pos(s, k, i);
}

proof fn lemma_insert_sorted(s: Seq<SessionView>, v: SessionView, i: int)
    requires
        sorted_by_key(s),
        0 <= i <= s.len(),
        forall|j: int| 0 <= j < i ==> pair_lt(skey(#[trigger] s[j]), skey(v)),
        forall|j: int| i <= j < s.len() ==> pair_lt(skey(v), skey(#[trigger] s[j])),
    ensures
        sorted_by_key(s.insert(i, v)),
{
    let t = s.insert(i, v);
    assert forall|a: int, b: int| 0 <= a < b < t.len() implies pair_lt(skey(t[a]), skey(t[b])) by {
        if a < i && b < i {
            assert(t[a] == s[a] && t[b] == s[b]);
        } else if a < i && b == i {
            assert(t[a] == s[a]);
        } else if a < i {
            assert(t[a] == s[a] && t[b] == s[b - 1]);
        } else if a == i {
            assert(t[b] == s[b - 1]);
        } else {
            assert(t[a] == s[a - 1] && t[b] == s[b - 1]);
        }
    }
}

/// The key of a session compared with `(a, b)`.
fn compare_key(s: &AgentSession, a: &str, b: &str) -> (r: Order3)
    ensures
        r == Order3::Less <==> pair_lt(skey(sview(*s)), (a@, b@)),
        r == Order3::Equal <==> skey(sview(*s)) == (a@, b@),
        r == Order3::Greater <==> pair_lt((a@, b@), skey(sview(*s))),
{
    proof {
        lemma_pair_lt_total(skey(sview(*s)), (a@, b@));
        lemma_seq_lt_total(s.agent_id@, a@);
        lemma_seq_lt_total(s.agent_session_id@, b@);
    }
    match compare_str(s.agent_id.as_str(), a) {
        Order3::Less => Order3::Less,
        Order3::Greater => Order3::Greater,
        Order3::Equal => compare_str(s.agent_session_id.as_str(), b),
    }
}

/// A human's answer to a waiting request. `NoDecision` is no refusal: the agent falls
/// back to its own approval flow. Timeouts, no one connected and a dropped client all
/// end there, so the server never allows or denies on the user's behalf.
#[derive(Debug, PartialEq, Eq)]
pub enum Decision {
    Allow {
        message: Option<String>,
        /// The rewritten tool input handed back to the agent: how a multiple-choice
        /// question is answered (allow, with the chosen answer filled in).
        updated_input: Option<Json>,
    },
    Deny { message: Option<String> },
    NoDecision,
}

/// What `insert_pending` registers: a request waiting for a human.
#[derive(Debug, PartialEq, Eq)]
pub struct PendingRequest {
    pub id: String,
    pub agent_id: String,
    pub agent_session_id: String,
    pub session: Option<u64>,
    pub tool_name: Option<String>,
    /// The tool's input; may be long, the client decides how to show it.
    pub tool_input: Json,
    pub created_at: u64,
    /// When it lapses (Unix seconds). The timeout is server configuration, so the
    /// server computes this for the client.
    pub expires_at: u64,
}

/// A registered request and whether someone already answered it. The entry is kept
/// after the answer so a second answer is told "already answered", not "unknown".
struct PendingEntry {
    meta: PendingRequest,
    answered: bool,
}

/// The outcome of answering a request.
#[derive(Debug, Clone, Copy, PartialEq, Eq, Structural)]
pub enum AnswerResult {
    /// Recorded: the decision is to be delivered to the waiting hook.
    Recorded,
    NotFound,
    AlreadyAnswered,
}

/// How many answered request ids are remembered after their entries are gone, so a
/// client retrying over a flaky network hears "already answered".
pub const ANSWERED_MEMORY: usize = 64;

/// A registered request and whether it was answered.
pub ghost struct PendingView {
    pub meta: PendingRequest,
    pub answered: bool,
}

pub open spec fn pview(e: PendingRequest, answered: bool) -> PendingView {
    PendingView { meta: e, answered }
}

/// The id of a pending request.
pub open spec fn pid(v: PendingView) -> Seq<char> {
    v.meta.id@
}

/// The key of the session a pending request belongs to.
pub open spec fn pkey(v: PendingView) -> (Seq<char>, Seq<char>) {
    (v.meta.agent_id@, v.meta.agent_session_id@)
}

/// The order of pending requests: by creation time, then id.
pub open spec fn pending_lt(a: PendingView, b: PendingView) -> bool {
    a.meta.created_at < b.meta.created_at || (a.meta.created_at == b.meta.created_at && seq_lt(
        pid(a),
        pid(b),
    ))
}

/// Pending requests are listed in order, and ids are unique.
pub open spec fn pending_wf(p: Seq<PendingView>) -> bool {
    &&& forall|i: int, j: int| 0 <= i < j < p.len() ==> pending_lt(#[trigger] p[i], #[trigger] p[j])
    &&& forall|i: int, j: int| 0 <= i < j < p.len() ==> pid(#[trigger] p[i]) != pid(#[trigger] p[j])
}

/// The agent session table with its pending requests and the memory of answered
/// ones.
pub struct AgentSessionStore {
    sessions: Vec<AgentSession>,
    pending: Vec<PendingEntry>,
    answered: Vec<String>,
}

impl AgentSessionStore {
    /// The sessions, in key order.
    pub closed spec fn table(&self) -> Seq<SessionView> {
        sviews(self.sessions@)
    }

    /// The pending requests, in `(created_at, id)` order.
    pub closed spec fn pendings(&self) -> Seq<PendingView> {
        self.pending@.map_values(|e: PendingEntry| pview(e.meta, e.answered))
    }

    /// The ids answered most recently, oldest first.
    pub closed spec fn answered(&self) -> Seq<Seq<char>> {
        self.answered@.map_values(|s: String| s@)
    }

    /// The table is sorted by key, the requests by `(created_at, id)` with unique
    /// ids, and at most [`ANSWERED_MEMORY`] answers are remembered.
    pub closed spec fn wf(&self) -> bool {
        &&& sorted_by_key(self.table())
        &&& pending_wf(self.pendings())
        &&& self.answered@.len() <= ANSWERED_MEMORY
    }

    pub fn new() -> (s: Self)
        ensures
            s.wf(),
            s.table() == Seq::<SessionView>::empty(),
            s.pendings() == Seq::<PendingView>::empty(),
            s.answered() == Seq::<Seq<char>>::empty(),
    {
        let s = AgentSessionStore { sessions: Vec::new(), pending: Vec::new(), answered: Vec::new() };
        assert(s.table() =~= Seq::<SessionView>::empty());
        assert(s.pendings() =~= Seq::<PendingView>::empty());
        assert(s.answered() =~= Seq::<Seq<char>>::empty());
        s
    }

    /// Applies one event at time `now` and returns the session as it now is. A
    /// session that did not exist is created; see [`spec_apply_table`].
    pub fn apply(
        &mut self,
        agent_id: &str,
        agent_session_id: &str,
        session: Option<u64>,
        up: Update,
        now: u64,
    ) -> (r: AgentSession)
        requires
            old(self).wf(),
        ensures
            final(self).wf(),
            final(self).table() == spec_apply_table(
                old(self).table(),
                agent_id@,
                agent_session_id@,
                session,
                uview(up),
                now,
            ),
            lookup(final(self).table(), (agent_id@, agent_session_id@)) == Some(sview(r)),
            final(self).pendings() == old(self).pendings(),
            final(self).answered() == old(self).answered(),
    {
        let ghost t = self.table();
        let ghost k = (agent_id@, agent_session_id@);
        let ghost u = uview(up);
        let mut i: usize = 0;
        let mut stop = false;
        while i < self.sessions.len() && !stop
            invariant
                i <= self.sessions.len(),
                t == self.table(),
                sorted_by_key(t),
                t.len() == self.sessions@.len(),
                forall|j: int| 0 <= j < i ==> pair_lt(skey(#[trigger] t[j]), k),
                stop ==> i < t.len() && pair_lt(k, skey(t[i as int])),
                self.wf(),
                k == (agent_id@, agent_session_id@),
                u == uview(up),
                t == old(self).table(),
                self.pendings() == old(self).pendings(),
                self.answered() == old(self).answered(),
            decreases self.sessions.len() - i + (if stop { 0int } else { 1int }),
        {
            assert(t[i as int] == sview(self.sessions@[i as int]));
            let c = compare_key(&self.sessions[i], agent_id, agent_session_id);
            match c {
                Order3::Equal => {
                    let mut cur = self.sessions[i].copy();
                    let ghost base = sview(cur);
                    if let Some(st) = up.state {
                        cur.state = st;
                    }
                    if up.detail.is_some() {
                        cur.detail = up.detail;
                    }
                    if up.cwd.is_some() {
                        cur.cwd = up.cwd;
                    }
                    if up.title.is_some() {
                        cur.title = up.title;
                    }
                    if session.is_some() {
                        cur.session = session;
                    }
                    cur.updated_at = now;
                    assert(sview(cur).state == spec_updated(base, session, u, now).state);
                    assert(sview(cur).detail == spec_updated(base, session, u, now).detail);
                    assert(sview(cur).cwd == spec_updated(base, session, u, now).cwd);
                    assert(sview(cur).title == spec_updated(base, session, u, now).title);
                    assert(sview(cur).session == spec_updated(base, session, u, now).session);
                    assert(sview(cur) == spec_updated(base, session, u, now));
                    let snapshot = cur.copy();
                    let ghost p0 = self.pendings();
                    let ghost a0 = self.answered();
                    self.sessions.set(i, cur);
                    proof {
                        assert forall|j: int| 0 <= j < i implies skey(#[trigger] t[j]) != k by {
                            lemma_pair_lt_total(skey(t[j]), k);
                        }
                        lemma_find_key_at(t, k, i as int);
                        assert(self.table() =~= t.update(i as int, sview(snapshot)));
                        let nt = self.table();
                        assert forall|j: int| 0 <= j < i implies skey(#[trigger] nt[j]) != k by {
                            assert(nt[j] == t[j]);
                        }
                        lemma_find_key_at(nt, k, i as int);
                        assert(sorted_by_key(nt)) by {
                            assert forall|a: int, b: int| 0 <= a < b < nt.len() implies pair_lt(
                                skey(nt[a]),
                                skey(nt[b]),
                            ) by {
                                assert(skey(nt[a]) == skey(t[a]));
                                assert(skey(nt[b]) == skey(t[b]));
                            }
                        }
                        assert(self.pendings() =~= p0);
                        assert(self.answered() =~= a0);
                    }
                    return snapshot;
                },
                Order3::Greater => {
                    stop = true;
                },
                Order3::Less => {
                    i = i + 1;
                },
            }
        }
        proof {
            lemma_scan_stop(t, k, i as int);
        }
        let fresh = AgentSession {
            agent_id: agent_id.to_string(),
            agent_session_id: agent_session_id.to_string(),
            session,
            state: match up.state {
                Some(st) => st,
                None => AgentState::Idle,
            },
            detail: up.detail,
            cwd: up.cwd,
            title: up.title,
            pending: None,
            updated_at: now,
            acked_at: 0,
        };
        assert(sview(fresh) == spec_updated(fresh_session(agent_id@, agent_session_id@, session, now), session, u, now));
        assert(skey(sview(fresh)) == k);
        let snapshot = fresh.copy();
        let ghost p0 = self.pendings();
        let ghost a0 = self.answered();
        self.sessions.insert(i, fresh);
        proof {
            assert(self.table() =~= t.insert(i as int, sview(snapshot)));
            lemma_insert_sorted(t, sview(snapshot), i as int);
            let nt = self.table();
            assert forall|j: int| 0 <= j < i implies skey(#[trigger] nt[j]) != k by {
                assert(nt[j] == t[j]);
                lemma_pair_lt_total(skey(t[j]), k);
            }
            lemma_find_key_at(nt, k, i as int);
            assert(self.pendings() =~= p0);
            assert(self.answered() =~= a0);
        }
        snapshot
    }
}

/// A session that ended: shown as done, no longer waiting for anyone.
pub open spec fn done_view(s: SessionView) -> SessionView {
    SessionView { state: AgentState::Done, pending: None, ..s }
}

/// The sessions of `t` that do not run in host session `h`.
pub open spec fn without_host(t: Seq<SessionView>, h: u64) -> Seq<SessionView>
    decreases t.len(),
{
    if t.len() == 0 {
        Seq::empty()
    } else {
        without_host(t.drop_last(), h) + if t.last().session == Some(h) {
            Seq::empty()
        } else {
            seq![t.last()]
        }
    }
}

/// The sessions of `t` that run in host session `h`, as ended sessions.
pub open spec fn ended_in_host(t: Seq<SessionView>, h: u64) -> Seq<SessionView>
    decreases t.len(),
{
    if t.len() == 0 {
        Seq::empty()
    } else {
        ended_in_host(t.drop_last(), h) + if t.last().session == Some(h) {
            seq![done_view(t.last())]
        } else {
            Seq::empty()
        }
    }
}

/// Whether host session `id` is alive, by a side-effect-free check.
pub open spec fn alive_agrees<F: Fn(u64) -> bool>(f: F, alivef: spec_fn(u64) -> bool) -> bool {
    forall|id: u64, b: bool| #[trigger] call_ensures(f, (id,), b) ==> b == alivef(id)
}

/// Whether a session's host is alive: one without a host session counts as alive.
pub open spec fn host_alive_of(s: SessionView, alivef: spec_fn(u64) -> bool) -> bool {
    match s.session {
        Some(id) => alivef(id),
        None => true,
    }
}

/// A session after one sweep, if it stays.
pub open spec fn swept_one(
    s: SessionView,
    now: u64,
    alivef: spec_fn(u64) -> bool,
    session_stale_secs: u64,
    working_stale_secs: u64,
) -> Option<SessionView> {
    match spec_decide(now, s, host_alive_of(s, alivef), session_stale_secs, working_stale_secs) {
        Some(Sweep::Drop) => None,
        Some(Sweep::MarkIdle) => Some(SessionView { state: AgentState::Idle, ..s }),
        None => Some(s),
    }
}

/// What one sweep reports about a session: dropped as ended, or marked idle.
pub open spec fn swept_change(
    s: SessionView,
    now: u64,
    alivef: spec_fn(u64) -> bool,
    session_stale_secs: u64,
    working_stale_secs: u64,
) -> Option<SessionView> {
    match spec_decide(now, s, host_alive_of(s, alivef), session_stale_secs, working_stale_secs) {
        Some(Sweep::Drop) => Some(done_view(s)),
        Some(Sweep::MarkIdle) => Some(SessionView { state: AgentState::Idle, ..s }),
        None => None,
    }
}

/// The table after one sweep.
pub open spec fn sweep_kept(
    t: Seq<SessionView>,
    now: u64,
    alivef: spec_fn(u64) -> bool,
    session_stale_secs: u64,
    working_stale_secs: u64,
) -> Seq<SessionView>
    decreases t.len(),
{
    if t.len() == 0 {
        Seq::empty()
    } else {
        sweep_kept(t.drop_last(), now, alivef, session_stale_secs, working_stale_secs) + match swept_one(
            t.last(),
            now,
            alivef,
            session_stale_secs,
            working_stale_secs,
        ) {
            Some(v) => seq![v],
            None => Seq::empty(),
        }
    }
}

/// The changes one sweep reports, in table order.
pub open spec fn sweep_changes(
    t: Seq<SessionView>,
    now: u64,
    alivef: spec_fn(u64) -> bool,
    session_stale_secs: u64,
    working_stale_secs: u64,
) -> Seq<SessionView>
    decreases t.len(),
{
    if t.len() == 0 {
        Seq::empty()
    } else {
        sweep_changes(t.drop_last(), now, alivef, session_stale_secs, working_stale_secs) + match swept_change(
            t.last(),
            now,
            alivef,
            session_stale_secs,
            working_stale_secs,
        ) {
            Some(v) => seq![v],
            None => Seq::empty(),
        }
    }
}

/// Keeping, in order, some sessions of a sorted table (each with its key
/// unchanged) gives a sorted table.
proof fn lemma_sub_sorted(t: Seq<SessionView>, kept: Seq<SessionView>, src: Seq<int>)
    requires
        sorted_by_key(t),
        src.len() == kept.len(),
        forall|i: int| 0 <= i < src.len() ==> 0 <= #[trigger] src[i] < t.len(),
        forall|i: int, j: int| 0 <= i < j < src.len() ==> #[trigger] src[i] < #[trigger] src[j],
        forall|i: int| 0 <= i < kept.len() ==> skey(#[trigger] kept[i]) == skey(t[src[i]]),
    ensures
        sorted_by_key(kept),
{
    assert forall|a: int, b: int| 0 <= a < b < kept.len() implies pair_lt(skey(kept[a]), skey(kept[b])) by {
        assert(src[a] < src[b]);
        assert(skey(kept[a]) == skey(t[src[a]]));
        assert(skey(kept[b]) == skey(t[src[b]]));
    }
}

impl AgentSessionStore {
    /// The session with key `(agent_id, agent_session_id)`.
    pub fn snapshot(&self, agent_id: &str, agent_session_id: &str) -> (r: Option<AgentSession>)
        ensures
            match r {
                Some(x) => lookup(self.table(), (agent_id@, agent_session_id@)) == Some(sview(x)),
                None => lookup(self.table(), (agent_id@, agent_session_id@)) is None,
            },
    {
        let ghost t = self.table();
        let ghost k = (agent_id@, agent_session_id@);
        let mut i: usize = 0;
        while i < self.sessions.len()
            invariant
                i <= self.sessions.len(),
                t == self.table(),
                t.len() == self.sessions@.len(),
                k == (agent_id@, agent_session_id@),
                forall|j: int| 0 <= j < i ==> skey(#[trigger] t[j]) != k,
            decreases self.sessions.len() - i,
        {
            assert(t[i as int] == sview(self.sessions@[i as int]));
            if compare_key(&self.sessions[i], agent_id, agent_session_id) == Order3::Equal {
                proof {
                    lemma_find_key_at(t, k, i as int);
                }
                return Some(self.sessions[i].copy());
            }
            i = i + 1;
        }
        proof {
            lemma_find_key_none(t, k);
        }
        None
    }

    /// Every session, in key order.
    pub fn list(&self) -> (r: Vec<AgentSession>)
        ensures
            sviews(r@) == self.table(),
    {
        let mut out: Vec<AgentSession> = Vec::new();
        let mut i: usize = 0;
        while i < self.sessions.len()
            invariant
                i <= self.sessions.len(),
                sviews(out@) == sviews(self.sessions@.subrange(0, i as int)),
            decreases self.sessions.len() - i,
        {
            let c = self.sessions[i].copy();
            let ghost o0 = sviews(out@);
            out.push(c);
            assert(sviews(out@) =~= o0.push(sview(c)));
            assert(sviews(self.sessions@.subrange(0, i + 1)) =~= sviews(self.sessions@.subrange(0, i as int)).push(sview(self.sessions@[i as int])));
            i = i + 1;
        }
        assert(self.sessions@.subrange(0, self.sessions@.len() as int) =~= self.sessions@);
        out
    }

    /// Host session `session` is gone, so the agents inside it are gone: removes
    /// them and returns them, ended.
    pub fn drop_by_session(&mut self, session: u64) -> (r: Vec<AgentSession>)
        requires
            old(self).wf(),
        ensures
            final(self).wf(),
            final(self).table() == without_host(old(self).table(), session),
            sviews(r@) == ended_in_host(old(self).table(), session),
            final(self).pendings() == old(self).pendings(),
            final(self).answered() == old(self).answered(),
    {
        let ghost t = self.table();
        let mut old_sessions: Vec<AgentSession> = Vec::new();
        std::mem::swap(&mut old_sessions, &mut self.sessions);
        let mut kept: Vec<AgentSession> = Vec::new();
        let mut dead: Vec<AgentSession> = Vec::new();
        let ghost mut src: Seq<int> = Seq::empty();
        let mut i: usize = 0;
        assert(t == sviews(old_sessions@));
        while i < old_sessions.len()
            invariant
                i <= old_sessions.len(),
                t == sviews(old_sessions@),
                sviews(kept@) == without_host(t.subrange(0, i as int), session),
                sviews(dead@) == ended_in_host(t.subrange(0, i as int), session),
                src.len() == kept@.len(),
                forall|a: int| 0 <= a < src.len() ==> 0 <= #[trigger] src[a] < i,
                forall|a: int, b: int| 0 <= a < b < src.len() ==> #[trigger] src[a] < #[trigger] src[b],
                forall|a: int| 0 <= a < kept@.len() ==> skey(sview(#[trigger] kept@[a])) == skey(t[src[a]]),
            decreases old_sessions.len() - i,
        {
            proof {
                let p = t.subrange(0, i + 1);
                assert(p.drop_last() =~= t.subrange(0, i as int));
                assert(p.last() == t[i as int]);
                assert(t[i as int] == sview(old_sessions@[i as int]));
            }
            let s = old_sessions[i].copy();
            if s.session == Some(session) {
                let mut d = s;
                d.state = AgentState::Done;
                d.pending = None;
                let ghost d0 = sviews(dead@);
                dead.push(d);
                assert(sviews(dead@) =~= d0.push(sview(d)));
                assert(sviews(kept@) =~= sviews(kept@) + Seq::<SessionView>::empty());
            } else {
                let ghost k0 = sviews(kept@);
                let ghost kk = kept@;
                kept.push(s);
                proof {
                    src = src.push(i as int);
                }
                assert(sviews(kept@) =~= k0.push(sview(s)));
                assert(sviews(dead@) =~= sviews(dead@) + Seq::<SessionView>::empty());
                assert forall|a: int| 0 <= a < kept@.len() implies skey(sview(#[trigger] kept@[a])) == skey(t[src[a]]) by {
                    if a < kk.len() {
                        assert(kept@[a] == kk[a]);
                    }
                }
            }
            i = i + 1;
        }
        assert(t.subrange(0, old_sessions.len() as int) =~= t);
        proof {
            lemma_sub_sorted(t, sviews(kept@), src);
        }
        self.sessions = kept;
        dead
    }
}

impl AgentSessionStore {
    /// One sweep at time `now`: drops sessions whose host is gone or that are too
    /// old, shows long-working ones as idle (without touching their clock), and
    /// returns what changed to be announced. `host_alive` tells whether a host
    /// session still exists.
    pub fn sweep<F: Fn(u64) -> bool>(
        &mut self,
        now: u64,
        host_alive: &F,
        session_stale_secs: u64,
        working_stale_secs: u64,
    ) -> (r: Vec<AgentSession>)
        requires
            old(self).wf(),
            forall|id: u64| call_requires(*host_alive, (id,)),
        ensures
            final(self).wf(),
            final(self).pendings() == old(self).pendings(),
            final(self).answered() == old(self).answered(),
            forall|alivef: spec_fn(u64) -> bool|
                alive_agrees(*host_alive, alivef) ==> {
                    &&& final(self).table() == #[trigger] sweep_kept(
                        old(self).table(),
                        now,
                        alivef,
                        session_stale_secs,
                        working_stale_secs,
                    )
                    &&& sviews(r@) == sweep_changes(
                        old(self).table(),
                        now,
                        alivef,
                        session_stale_secs,
                        working_stale_secs,
                    )
                },
    {
        let ghost t = self.table();
        let mut old_sessions: Vec<AgentSession> = Vec::new();
        std::mem::swap(&mut old_sessions, &mut self.sessions);
        let mut kept: Vec<AgentSession> = Vec::new();
        let mut changed: Vec<AgentSession> = Vec::new();
        let ghost mut src: Seq<int> = Seq::empty();
        let ghost mut decisions: Seq<Option<Sweep>> = Seq::empty();
        let mut i: usize = 0;
        assert(t == sviews(old_sessions@));
        while i < old_sessions.len()
            invariant
                i <= old_sessions.len(),
                t == sviews(old_sessions@),
                forall|id: u64| call_requires(*host_alive, (id,)),
                src.len() == kept@.len(),
                forall|a: int| 0 <= a < src.len() ==> 0 <= #[trigger] src[a] < i,
                forall|a: int, b: int| 0 <= a < b < src.len() ==> #[trigger] src[a] < #[trigger] src[b],
                forall|a: int| 0 <= a < kept@.len() ==> skey(sview(#[trigger] kept@[a])) == skey(t[src[a]]),
                forall|alivef: spec_fn(u64) -> bool|
                    alive_agrees(*host_alive, alivef) ==> sviews(kept@) == #[trigger] sweep_kept(
                        t.subrange(0, i as int),
                        now,
                        alivef,
                        session_stale_secs,
                        working_stale_secs,
                    ),
                forall|alivef: spec_fn(u64) -> bool|
                    alive_agrees(*host_alive, alivef) ==> sviews(changed@) == #[trigger] sweep_changes(
                        t.subrange(0, i as int),
                        now,
                        alivef,
                        session_stale_secs,
                        working_stale_secs,
                    ),
            decreases old_sessions.len() - i,
        {
            let ghost prev = t.subrange(0, i as int);
            let ghost next = t.subrange(0, i + 1);
            proof {
                assert(next.drop_last() =~= prev);
                assert(next.last() == t[i as int]);
                assert(t[i as int] == sview(old_sessions@[i as int]));
            }
            let s = old_sessions[i].copy();
            let alive = match s.session {
                Some(id) => host_alive(id),
                None => true,
            };
            let d = decide(now, &s, alive, session_stale_secs, working_stale_secs);
            let ghost k0 = sviews(kept@);
            let ghost c0 = sviews(changed@);
            let ghost kk = kept@;
            let ghost sv = sview(s);
            match d {
                Some(Sweep::Drop) => {
                    let mut gone = s;
                    gone.state = AgentState::Done;
                    gone.pending = None;
                    changed.push(gone);
                    assert(sviews(changed@) =~= c0.push(done_view(sv)));
                    assert(sviews(kept@) =~= k0 + Seq::<SessionView>::empty());
                },
                Some(Sweep::MarkIdle) => {
                    let mut idle = s;
                    idle.state = AgentState::Idle;
                    let c = idle.copy();
                    changed.push(c);
                    kept.push(idle);
                    proof {
                        src = src.push(i as int);
                    }
                    assert(sviews(changed@) =~= c0.push(SessionView { state: AgentState::Idle, ..sv }));
                    assert(sviews(kept@) =~= k0.push(SessionView { state: AgentState::Idle, ..sv }));
                },
                None => {
                    kept.push(s);
                    proof {
                        src = src.push(i as int);
                    }
                    assert(sviews(kept@) =~= k0.push(sv));
                    assert(sviews(changed@) =~= c0 + Seq::<SessionView>::empty());
                },
            }
            proof {
                assert forall|a: int| 0 <= a < kept@.len() implies skey(sview(#[trigger] kept@[a])) == skey(t[src[a]]) by {
                    if a < kk.len() {
                        assert(kept@[a] == kk[a]);
                    }
                }
                assert forall|alivef: spec_fn(u64) -> bool|
                    alive_agrees(*host_alive, alivef) implies sviews(kept@) == #[trigger] sweep_kept(
                        next,
                        now,
                        alivef,
                        session_stale_secs,
                        working_stale_secs,
                    ) by {
                    assert(k0 == sweep_kept(prev, now, alivef, session_stale_secs, working_stale_secs));
                    assert(alive == host_alive_of(sv, alivef));
                }
                assert forall|alivef: spec_fn(u64) -> bool|
                    alive_agrees(*host_alive, alivef) implies sviews(changed@) == #[trigger] sweep_changes(
                        next,
                        now,
                        alivef,
                        session_stale_secs,
                        working_stale_secs,
                    ) by {
                    assert(c0 == sweep_changes(prev, now, alivef, session_stale_secs, working_stale_secs));
                    assert(alive == host_alive_of(sv, alivef));
                }
            }
            i = i + 1;
        }
        assert(t.subrange(0, old_sessions.len() as int) =~= t);
        proof {
            lemma_sub_sorted(t, sviews(kept@), src);
        }
        self.sessions = kept;
        changed
    }
}

/// The index of the pending request with id `id`, or -1.
pub open spec fn find_pending(p: Seq<PendingView>, id: Seq<char>) -> int
    decreases p.len(),
{
    if p.len() == 0 {
        -1
    } else if find_pending(p.drop_last(), id) >= 0 {
        find_pending(p.drop_last(), id)
    } else if pid(p.last()) == id {
        p.len() - 1
    } else {
        -1
    }
}

/// How many requests of `p` come before `v`.
pub open spec fn pending_pos(p: Seq<PendingView>, v: PendingView) -> int
    decreases p.len(),
{
    if p.len() == 0 {
        0
    } else {
        pending_pos(p.drop_last(), v) + if pending_lt(p.last(), v) {
            1int
        } else {
            0int
        }
    }
}

/// Registering `meta`: a request with the same id is replaced, and the new one,
/// unanswered, takes its place in order.
pub open spec fn spec_insert_pending(p: Seq<PendingView>, meta: PendingRequest) -> Seq<PendingView> {
    let v = pview(meta, false);
    let q = if find_pending(p, meta.id@) >= 0 {
        p.remove(find_pending(p, meta.id@))
    } else {
        p
    };
    q.insert(pending_pos(q, v), v)
}

/// The session a request belongs to is now waiting for a human, on that request.
pub open spec fn spec_mark_waiting(
    t: Seq<SessionView>,
    key: (Seq<char>, Seq<char>),
    id: Seq<char>,
    now: u64,
) -> Seq<SessionView> {
    let i = find_key(t, key);
    if i >= 0 {
        t.update(i, SessionView { state: AgentState::Waiting, pending: Some(id), updated_at: now, ..t[i] })
    } else {
        t
    }
}

/// The request `id` is gone: if its session was waiting on it, the session no
/// longer waits and is shown working until the next event says otherwise.
pub open spec fn spec_clear_pending(
    t: Seq<SessionView>,
    key: (Seq<char>, Seq<char>),
    id: Seq<char>,
    now: u64,
) -> Seq<SessionView> {
    let i = find_key(t, key);
    if i >= 0 && t[i].pending == Some(id) {
        t.update(i, SessionView { state: AgentState::Working, pending: None, updated_at: now, ..t[i] })
    } else {
        t
    }
}

/// What answering `id` gives: a request still registered is recorded unless it was
/// answered; one that is gone was answered if it is remembered, else unknown.
pub open spec fn spec_answer_result(p: Seq<PendingView>, a: Seq<Seq<char>>, id: Seq<char>) -> AnswerResult {
    let i = find_pending(p, id);
    if i >= 0 {
        if p[i].answered {
            AnswerResult::AlreadyAnswered
        } else {
            AnswerResult::Recorded
        }
    } else if a.contains(id) {
        AnswerResult::AlreadyAnswered
    } else {
        AnswerResult::NotFound
    }
}

/// The requests after answering `id`.
pub open spec fn spec_answer_pendings(p: Seq<PendingView>, id: Seq<char>) -> Seq<PendingView> {
    let i = find_pending(p, id);
    if i >= 0 && !p[i].answered {
        p.update(i, PendingView { answered: true, ..p[i] })
    } else {
        p
    }
}

/// The memory of answers after remembering `id`: the oldest is forgotten beyond
/// [`ANSWERED_MEMORY`].
pub open spec fn remember(a: Seq<Seq<char>>, id: Seq<char>) -> Seq<Seq<char>> {
    if a.len() + 1 > ANSWERED_MEMORY {
        a.push(id).drop_first()
    } else {
        a.push(id)
    }
}

proof fn lemma_find_pending_at(p: Seq<PendingView>, id: Seq<char>, i: int)
    requires
        0 <= i < p.len(),
        forall|j: int| 0 <= j < i ==> pid(#[trigger] p[j]) != id,
        pid(p[i]) == id,
    ensures
        find_pending(p, id) == i,
    decreases p.len(),
{
    if i < p.len() - 1 {
        assert forall|j: int| 0 <= j < i implies pid(#[trigger] p.drop_last()[j]) != id by {
            assert(p.drop_last()[j] == p[j]);
        }
        assert(p.drop_last()[i] == p[i]);
        lemma_find_pending_at(p.drop_last(), id, i);
    } else {
        assert forall|j: int| 0 <= j < p.drop_last().len() implies pid(#[trigger] p.drop_last()[j]) != id by {
            assert(p.drop_last()[j] == p[j]);
        }
        lemma_find_pending_none(p.drop_last(), id);
    }
}

proof fn lemma_find_pending_none(p: Seq<PendingView>, id: Seq<char>)
    requires
        forall|j: int| 0 <= j < p.len() ==> pid(#[trigger] p[j]) != id,
    ensures
        find_pending(p, id) == -1,
    decreases p.len(),
{
    if p.len() > 0 {
        assert forall|j: int| 0 <= j < p.drop_last().len() implies pid(#[trigger] p.drop_last()[j]) != id by {
            assert(p.drop_last()[j] == p[j]);
        }
        lemma_find_pending_none(p.drop_last(), id);
        assert(pid(p[p.len() - 1]) != id);
    }
}

proof fn lemma_pending_lt_total(a: PendingView, b: PendingView)
    ensures
        pid(a) != pid(b) ==> pending_lt(a, b) || pending_lt(b, a),
        !(pending_lt(a, b) && pending_lt(b, a)),
        pending_lt(a, b) ==> pid(a) != pid(b) || a.meta.created_at != b.meta.created_at,
{
    lemma_seq_lt_total(pid(a), pid(b));
}

proof fn lemma_pending_lt_transitive(a: PendingView, b: PendingView, c: PendingView)
    requires
        pending_lt(a, b),
        pending_lt(b, c),
    ensures
        pending_lt(a, c),
{
    if a.meta.created_at == b.meta.created_at && b.meta.created_at == c.meta.created_at {
        lemma_seq_lt_transitive(pid(a), pid(b), pid(c));
    }
}

proof fn lemma_pending_pos(p: Seq<PendingView>, v: PendingView, i: int)
    requires
        0 <= i <= p.len(),
        forall|j: int| 0 <= j < i ==> pending_lt(#[trigger] p[j], v),
        forall|j: int| i <= j < p.len() ==> pending_lt(v, #[trigger] p[j]),
    ensures
        pending_pos(p, v) == i,
    decreases p.len(),
{
    if p.len() > 0 {
        if i == p.len() {
            lemma_pending_pos(p.drop_last(), v, i - 1);
            assert(pending_lt(p[p.len() - 1], v));
        } else {
            assert(pending_lt(v, p[p.len() - 1]));
            lemma_pending_lt_total(v, p.last());
            assert forall|j: int| 0 <= j < i implies pending_lt(#[trigger] p.drop_last()[j], v) by {
                assert(p.drop_last()[j] == p[j]);
            }
            assert forall|j: int| i <= j < p.drop_last().len() implies pending_lt(v, #[trigger] p.drop_last()[j]) by {
                assert(p.drop_last()[j] == p[j]);
            }
            lemma_pending_pos(p.drop_last(), v, i);
        }
    }
}

/// Removing an entry keeps the requests in order with unique ids.
proof fn lemma_pending_remove_wf(p: Seq<PendingView>, i: int)
    requires
        pending_wf(p),
        0 <= i < p.len(),
    ensures
        pending_wf(p.remove(i)),
{
    let q = p.remove(i);
    assert forall|a: int, b: int| 0 <= a < b < q.len() implies pending_lt(q[a], q[b]) && pid(q[a]) != pid(q[b]) by {
        let sa = if a < i { a } else { a + 1 };
        let sb = if b < i { b } else { b + 1 };
        assert(q[a] == p[sa]);
        assert(q[b] == p[sb]);
        assert(sa < sb);
    }
}

/// Inserting a request whose id is new at its place keeps the order.
proof fn lemma_pending_insert_wf(q: Seq<PendingView>, v: PendingView, i: int)
    requires
        pending_wf(q),
        0 <= i <= q.len(),
        forall|j: int| 0 <= j < i ==> pending_lt(#[trigger] q[j], v),
        forall|j: int| i <= j < q.len() ==> pending_lt(v, #[trigger] q[j]),
        forall|j: int| 0 <= j < q.len() ==> pid(#[trigger] q[j]) != pid(v),
    ensures
        pending_wf(q.insert(i, v)),
{
    let t = q.insert(i, v);
    assert forall|a: int, b: int| 0 <= a < b < t.len() implies pending_lt(t[a], t[b]) && pid(t[a]) != pid(t[b]) by {
        if a < i && b < i {
            assert(t[a] == q[a] && t[b] == q[b]);
        } else if a < i && b == i {
            assert(t[a] == q[a]);
        } else if a < i {
            assert(t[a] == q[a] && t[b] == q[b - 1]);
        } else if a == i {
            assert(t[b] == q[b - 1]);
        } else {
            assert(t[a] == q[a - 1] && t[b] == q[b - 1]);
        }
    }
}

/// Whether request `a` comes before `b`.
fn pending_before(a: &PendingRequest, b: &PendingRequest) -> (r: bool)
    ensures
        r == pending_lt(pview(*a, false), pview(*b, false)),
{
    a.created_at < b.created_at || (a.created_at == b.created_at && compare_str(a.id.as_str(), b.id.as_str())
        == Order3::Less)
}

impl AgentSessionStore {
    /// The session with key `k` is updated by `f` when it exists.
    fn position_of(&self, agent_id: &str, agent_session_id: &str) -> (r: Option<usize>)
        ensures
            match r {
                Some(i) => i < self.sessions@.len() && find_key(self.table(), (agent_id@, agent_session_id@)) == i,
                None => find_key(self.table(), (agent_id@, agent_session_id@)) == -1,
            },
    {
        let ghost t = self.table();
        let ghost k = (agent_id@, agent_session_id@);
        let mut i: usize = 0;
        while i < self.sessions.len()
            invariant
                i <= self.sessions.len(),
                t == self.table(),
                t.len() == self.sessions@.len(),
                k == (agent_id@, agent_session_id@),
                forall|j: int| 0 <= j < i ==> skey(#[trigger] t[j]) != k,
            decreases self.sessions.len() - i,
        {
            assert(t[i as int] == sview(self.sessions@[i as int]));
            if compare_key(&self.sessions[i], agent_id, agent_session_id) == Order3::Equal {
                proof {
                    lemma_find_key_at(t, k, i as int);
                }
                return Some(i);
            }
            i = i + 1;
        }
        proof {
            lemma_find_key_none(t, k);
        }
        None
    }

    /// The index of the request with id `id`.
    fn pending_index(&self, id: &str) -> (r: Option<usize>)
        ensures
            match r {
                Some(i) => i < self.pending@.len() && find_pending(self.pendings(), id@) == i,
                None => find_pending(self.pendings(), id@) == -1,
            },
    {
        let ghost p = self.pendings();
        let mut i: usize = 0;
        while i < self.pending.len()
            invariant
                i <= self.pending.len(),
                p == self.pendings(),
                p.len() == self.pending@.len(),
                forall|j: int| 0 <= j < i ==> pid(#[trigger] p[j]) != id@,
            decreases self.pending.len() - i,
        {
            assert(p[i as int] == pview(self.pending@[i as int].meta, self.pending@[i as int].answered));
            if crate::text::str_eq(self.pending[i].meta.id.as_str(), id) {
                proof {
                    lemma_find_pending_at(p, id@, i as int);
                }
                return Some(i);
            }
            i = i + 1;
        }
        proof {
            lemma_find_pending_none(p, id@);
        }
        None
    }

    /// Registers a request waiting for a human, at time `now`. Its session (if
    /// known) is now waiting on it; a request with the same id is replaced.
    pub fn insert_pending(&mut self, meta: PendingRequest, now: u64)
        requires
            old(self).wf(),
        ensures
            final(self).wf(),
            final(self).table() == spec_mark_waiting(
                old(self).table(),
                (meta.agent_id@, meta.agent_session_id@),
                meta.id@,
                now,
            ),
            final(self).pendings() == spec_insert_pending(old(self).pendings(), meta),
            final(self).answered() == old(self).answered(),
    {
        let ghost t = self.table();
        let ghost p = self.pendings();
        let ghost a = self.answered();
        let ghost key = (meta.agent_id@, meta.agent_session_id@);
        match self.position_of(meta.agent_id.as_str(), meta.agent_session_id.as_str()) {
            Some(i) => {
                let mut cur = self.sessions[i].copy();
                cur.state = AgentState::Waiting;
                cur.pending = Some(meta.id.clone());
                cur.updated_at = now;
                proof {
                    lemma_find_key_bounds(t, key);
                    assert(t[i as int] == sview(self.sessions@[i as int]));
                }
                self.sessions.set(i, cur);
                proof {
                    let nt = self.table();
                    assert(nt =~= spec_mark_waiting(t, key, meta.id@, now));
                    assert forall|x: int, y: int| 0 <= x < y < nt.len() implies pair_lt(skey(nt[x]), skey(nt[y])) by {
                        assert(skey(nt[x]) == skey(t[x]));
                        assert(skey(nt[y]) == skey(t[y]));
                    }
                }
            },
            None => {},
        }
        assert(self.table() == spec_mark_waiting(t, key, meta.id@, now));
        assert(self.pendings() == p);
        match self.pending_index(meta.id.as_str()) {
            Some(j) => {
                let ghost p0 = self.pendings();
                self.pending.remove(j);
                proof {
                    assert(self.pendings() =~= p0.remove(j as int));
                    lemma_pending_remove_wf(p0, j as int);
                }
            },
            None => {},
        }
        let ghost q = self.pendings();
        let ghost v = pview(meta, false);
        assert(q == if find_pending(p, meta.id@) >= 0 {
            p.remove(find_pending(p, meta.id@))
        } else {
            p
        });
        proof {
            assert forall|j: int| 0 <= j < q.len() implies pid(#[trigger] q[j]) != pid(v) by {
                if find_pending(p, meta.id@) >= 0 {
                    let r = find_pending(p, meta.id@);
                    lemma_find_pending_bounds(p, meta.id@);
                    let sj = if j < r { j } else { j + 1 };
                    assert(q[j] == p[sj]);
                    assert(sj != r);
                    if sj < r {
                        assert(pid(p[sj]) != pid(p[r]));
                    } else {
                        assert(pid(p[r]) != pid(p[sj]));
                    }
                } else {
                    lemma_find_pending_bounds(p, meta.id@);
                }
            }
        }
        let mut i: usize = 0;
        let mut stop = false;
        while i < self.pending.len() && !stop
            invariant
                i <= self.pending.len(),
                q == self.pendings(),
                q.len() == self.pending@.len(),
                pending_wf(q),
                v == pview(meta, false),
                forall|j: int| 0 <= j < q.len() ==> pid(#[trigger] q[j]) != pid(v),
                forall|j: int| 0 <= j < i ==> pending_lt(#[trigger] q[j], v),
                stop ==> i < q.len() && pending_lt(v, q[i as int]),
            decreases self.pending.len() - i + (if stop { 0int } else { 1int }),
        {
            assert(q[i as int] == pview(self.pending@[i as int].meta, self.pending@[i as int].answered));
            if pending_before(&self.pending[i].meta, &meta) {
                i = i + 1;
            } else {
                proof {
                    assert(pid(q[i as int]) != pid(v));
                    lemma_pending_lt_total(q[i as int], v);
                }
                stop = true;
            }
        }
        proof {
            assert forall|j: int| i <= j < q.len() implies pending_lt(v, #[trigger] q[j]) by {
                if j > i {
                    lemma_pending_lt_transitive(v, q[i as int], q[j]);
                }
            }
            lemma_pending_pos(q, v, i as int);
            lemma_pending_insert_wf(q, v, i as int);
        }
        self.pending.insert(i, PendingEntry { meta, answered: false });
        proof {
            assert(self.pendings() =~= q.insert(i as int, v));
            assert(self.answered() =~= a);
        }
    }
}

proof fn lemma_find_pending_bounds(p: Seq<PendingView>, id: Seq<char>)
    ensures
        -1 <= find_pending(p, id) < p.len(),
        find_pending(p, id) >= 0 ==> pid(p[find_pending(p, id)]) == id,
        find_pending(p, id) == -1 ==> forall|j: int| 0 <= j < p.len() ==> pid(#[trigger] p[j]) != id,
    decreases p.len(),
{
    if p.len() > 0 {
        lemma_find_pending_bounds(p.drop_last(), id);
        if find_pending(p.drop_last(), id) == -1 && pid(p.last()) != id {
            assert forall|j: int| 0 <= j < p.len() implies pid(#[trigger] p[j]) != id by {
                if j < p.len() - 1 {
                    assert(p[j] == p.drop_last()[j]);
                }
            }
        }
    }
}

impl AgentSessionStore {
    /// Takes a request out (its hook gave up or was answered), at time `now`. If its
    /// session was waiting on it, the session stops waiting and shows working until
    /// the next event; see [`spec_clear_pending`].
    pub fn remove_pending(&mut self, id: &str, now: u64) -> (r: Option<PendingRequest>)
        requires
            old(self).wf(),
        ensures
            final(self).wf(),
            final(self).answered() == old(self).answered(),
            ({
                let i = find_pending(old(self).pendings(), id@);
                if i >= 0 {
                    &&& r == Some(old(self).pendings()[i].meta)
                    &&& final(self).pendings() == old(self).pendings().remove(i)
                    &&& final(self).table() == spec_clear_pending(
                        old(self).table(),
                        pkey(old(self).pendings()[i]),
                        id@,
                        now,
                    )
                } else {
                    &&& r is None
                    &&& final(self).pendings() == old(self).pendings()
                    &&& final(self).table() == old(self).table()
                }
            }),
    {
        let ghost t = self.table();
        let ghost p = self.pendings();
        let ghost a = self.answered();
        let j = match self.pending_index(id) {
            Some(j) => j,
            None => {
                return None;
            },
        };
        assert(p[j as int] == pview(self.pending@[j as int].meta, self.pending@[j as int].answered));
        let e = self.pending.remove(j);
        proof {
            assert(self.pendings() =~= p.remove(j as int));
            lemma_pending_remove_wf(p, j as int);
        }
        let ghost key = pkey(p[j as int]);
        match self.position_of(e.meta.agent_id.as_str(), e.meta.agent_session_id.as_str()) {
            Some(i) => {
                proof {
                    lemma_find_key_bounds(t, key);
                    assert(t[i as int] == sview(self.sessions@[i as int]));
                }
                let waiting_on_it = match &self.sessions[i].pending {
                    Some(x) => crate::text::str_eq(x.as_str(), id),
                    None => false,
                };
                if waiting_on_it {
                    let mut cur = self.sessions[i].copy();
                    cur.pending = None;
                    cur.state = AgentState::Working;
                    cur.updated_at = now;
                    self.sessions.set(i, cur);
                    proof {
                        let nt = self.table();
                        assert(nt =~= spec_clear_pending(t, key, id@, now));
                        assert forall|x: int, y: int| 0 <= x < y < nt.len() implies pair_lt(skey(nt[x]), skey(nt[y])) by {
                            assert(skey(nt[x]) == skey(t[x]));
                            assert(skey(nt[y]) == skey(t[y]));
                        }
                    }
                }
            },
            None => {},
        }
        assert(self.answered() == a);
        Some(e.meta)
    }

    fn remember_answered(&mut self, id: &str)
        requires
            old(self).answered@.len() <= ANSWERED_MEMORY,
        ensures
            final(self).answered() == remember(old(self).answered(), id@),
            final(self).answered@.len() <= ANSWERED_MEMORY,
            final(self).sessions == old(self).sessions,
            final(self).pending == old(self).pending,
    {
        let ghost a = self.answered();
        self.answered.push(id.to_string());
        if self.answered.len() > ANSWERED_MEMORY {
            self.answered.remove(0);
            assert(self.answered() =~= a.push(id@).drop_first());
        } else {
            assert(self.answered() =~= a.push(id@));
        }
    }

    /// Records the answer to request `id`; see [`spec_answer_result`]. The answer
    /// itself is delivered by the caller to the hook that waits for it, only when
    /// this says [`AnswerResult::Recorded`]: a request is answered once.
    pub fn answer(&mut self, id: &str) -> (r: AnswerResult)
        requires
            old(self).wf(),
        ensures
            final(self).wf(),
            r == spec_answer_result(old(self).pendings(), old(self).answered(), id@),
            final(self).pendings() == spec_answer_pendings(old(self).pendings(), id@),
            final(self).answered() == if r == AnswerResult::Recorded {
                remember(old(self).answered(), id@)
            } else {
                old(self).answered()
            },
            final(self).table() == old(self).table(),
    {
        let ghost p = self.pendings();
        let ghost a = self.answered();
        match self.pending_index(id) {
            Some(j) => {
                assert(p[j as int] == pview(self.pending@[j as int].meta, self.pending@[j as int].answered));
                if self.pending[j].answered {
                    return AnswerResult::AlreadyAnswered;
                }
                let mut e = self.pending.remove(j);
                e.answered = true;
                self.pending.insert(j, e);
                proof {
                    let np = self.pendings();
                    assert(np =~= p.update(j as int, PendingView { answered: true, ..p[j as int] }));
                    assert forall|x: int, y: int| 0 <= x < y < np.len() implies pending_lt(#[trigger] np[x], #[trigger] np[y]) && pid(np[x]) != pid(np[y]) by {
                        assert(np[x].meta == p[x].meta);
                        assert(np[y].meta == p[y].meta);
                    }
                }
                self.remember_answered(id);
                AnswerResult::Recorded
            },
            None => {
                let mut i: usize = 0;
                while i < self.answered.len()
                    invariant
                        i <= self.answered.len(),
                        a == self.answered(),
                        a == old(self).answered(),
                        self.wf(),
                        p == self.pendings(),
                        p == old(self).pendings(),
                        self.table() == old(self).table(),
                        find_pending(p, id@) == -1,
                        forall|x: int| 0 <= x < i ==> a[x] != id@,
                    decreases self.answered.len() - i,
                {
                    if crate::text::str_eq(self.answered[i].as_str(), id) {
                        assert(a[i as int] == id@);
                        return AnswerResult::AlreadyAnswered;
                    }
                    i = i + 1;
                }
                AnswerResult::NotFound
            },
        }
    }

    /// The requests waiting for a human, by creation time then id.
    pub fn list_pending(&self) -> (r: Vec<&PendingRequest>)
        ensures
            r@.len() == self.pendings().len(),
            forall|i: int| 0 <= i < r@.len() ==> *r@[i] == self.pendings()[i].meta,
    {
        let mut out: Vec<&PendingRequest> = Vec::new();
        let mut i: usize = 0;
        while i < self.pending.len()
            invariant
                i <= self.pending.len(),
                out@.len() == i,
                forall|j: int| 0 <= j < i ==> *out@[j] == self.pendings()[j].meta,
            decreases self.pending.len() - i,
        {
            out.push(&self.pending[i].meta);
            i = i + 1;
        }
        out
    }
}

/// Law: a request is answered once. After an answer is recorded, answering the same
/// id again is refused as already answered, both while the request is registered
/// and after it was taken out (as long as it is among the remembered answers, which
/// it is right after).
pub proof fn answering_twice_is_refused(p: Seq<PendingView>, a: Seq<Seq<char>>, id: Seq<char>)
    requires
        pending_wf(p),
        spec_answer_result(p, a, id) == AnswerResult::Recorded,
    ensures
        spec_answer_result(spec_answer_pendings(p, id), remember(a, id), id) == AnswerResult::AlreadyAnswered,
        spec_answer_result(
            spec_answer_pendings(p, id).remove(find_pending(p, id)),
            remember(a, id),
            id,
        ) == AnswerResult::AlreadyAnswered,
{
    let i = find_pending(p, id);
    lemma_find_pending_bounds(p, id);
    let np = spec_answer_pendings(p, id);
    assert forall|j: int| 0 <= j < i implies pid(#[trigger] np[j]) != id by {
        assert(np[j] == p[j]);
        lemma_find_pending_bounds(p.subrange(0, i + 1), id);
        if pid(p[j]) == id {
            assert(pid(p[j]) == pid(p[i]));
        }
    }
    lemma_find_pending_at(np, id, i);
    let q = np.remove(i);
    assert forall|j: int| 0 <= j < q.len() implies pid(#[trigger] q[j]) != id by {
        let sj = if j < i { j } else { j + 1 };
        assert(q[j] == np[sj]);
        assert(np[sj].meta == p[sj].meta);
        if sj < i {
            assert(pid(p[sj]) != pid(p[i]));
        } else {
            assert(pid(p[i]) != pid(p[sj]));
        }
    }
    lemma_find_pending_none(q, id);
    let m = remember(a, id);
    assert(m[m.len() - 1] == id);
}

/// Law: a session whose host session is gone is dropped, however fresh it is and
/// even while it waits for a human.
pub proof fn a_dead_host_drops_its_session(
    now: u64,
    s: SessionView,
    session_stale_secs: u64,
    working_stale_secs: u64,
)
    ensures
        spec_decide(now, s, false, session_stale_secs, working_stale_secs) == Some(Sweep::Drop),
{
}

/// Law: while a session waits for a human (and its host lives) sweeping never
/// touches it, however long the wait.
pub proof fn a_waiting_session_is_never_swept(
    now: u64,
    s: SessionView,
    session_stale_secs: u64,
    working_stale_secs: u64,
)
    requires
        s.pending is Some,
    ensures
        spec_decide(now, s, true, session_stale_secs, working_stale_secs) is None,
{
}

/// Law: a sweep never moves a session's clock: what it keeps has the timestamps it
/// had.
pub proof fn sweeping_keeps_the_clock(
    s: SessionView,
    now: u64,
    alivef: spec_fn(u64) -> bool,
    session_stale_secs: u64,
    working_stale_secs: u64,
)
    ensures
        swept_one(s, now, alivef, session_stale_secs, working_stale_secs) matches Some(v) ==> v.updated_at
            == s.updated_at && v.acked_at == s.acked_at && skey(v) == skey(s),
{
}

/// Law: any event finds its session afterwards, created if needed, with exactly the
/// fields the event carried replaced.
pub proof fn an_event_always_lands(
    t: Seq<SessionView>,
    agent_id: Seq<char>,
    agent_session_id: Seq<char>,
    session: Option<u64>,
    up: UpdateView,
    now: u64,
)
    requires
        sorted_by_key(t),
    ensures
        lookup(spec_apply_table(t, agent_id, agent_session_id, session, up, now), (agent_id, agent_session_id))
            == Some(
            spec_updated(
                match lookup(t, (agent_id, agent_session_id)) {
                    Some(old) => old,
                    None => fresh_session(agent_id, agent_session_id, session, now),
                },
                session,
                up,
                now,
            ),
        ),
{
    let k = (agent_id, agent_session_id);
    lemma_find_key_bounds(t, k);
    let nt = spec_apply_table(t, agent_id, agent_session_id, session, up, now);
    let i = find_key(t, k);
    if i >= 0 {
        assert forall|j: int| 0 <= j < i implies skey(#[trigger] nt[j]) != k by {
            assert(nt[j] == t[j]);
            lemma_find_key_bounds(t.subrange(0, i + 1), k);
            if skey(t[j]) == k {
                lemma_pair_lt_total(skey(t[j]), skey(t[i]));
            }
        }
        lemma_find_key_at(nt, k, i);
    } else {
        let pos = insert_pos(t, k);
        lemma_insert_pos_bounds(t, k);
        assert forall|j: int| 0 <= j < pos implies skey(#[trigger] nt[j]) != k by {
            assert(nt[j] == t[j]);
        }
        lemma_find_key_at(nt, k, pos);
    }
}

proof fn lemma_insert_pos_bounds(s: Seq<SessionView>, k: (Seq<char>, Seq<char>))
    ensures
        0 <= insert_pos(s, k) <= s.len(),
    decreases s.len(),
{
    if s.len() > 0 {
        lemma_insert_pos_bounds(s.drop_last(), k);
    }
}

} // verus!
