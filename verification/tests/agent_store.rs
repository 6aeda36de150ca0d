use octoterm::agent::store::{decide, AgentSession, AgentSessionStore, AnswerResult, PendingRequest, Sweep, Update};
use octoterm::json::Json;
use octoterm::protocol::messages::AgentState;

fn session(state: AgentState, updated_at: u64) -> AgentSession {
    AgentSession {
        agent_id: "agent-a".into(),
        agent_session_id: "s1".into(),
        session: Some(1),
        state,
        detail: None,
        cwd: None,
        title: None,
        pending: None,
        updated_at,
        acked_at: 0,
    }
}

#[test]
fn dead_host_beats_every_timeout() {
    let s = session(AgentState::Working, 1000);
    assert_eq!(decide(1000, &s, false, 600, 300), Some(Sweep::Drop));
}

#[test]
fn fresh_session_is_left_alone() {
    let s = session(AgentState::Working, 1000);
    assert_eq!(decide(1010, &s, true, 600, 300), None);
}

#[test]
fn waiting_for_a_human_is_never_swept() {
    let mut s = session(AgentState::Waiting, 0);
    s.pending = Some("p1".into());
    assert_eq!(decide(99_999, &s, true, 600, 300), None);
}

#[test]
fn stuck_working_becomes_idle() {
    let s = session(AgentState::Working, 0);
    assert_eq!(decide(301, &s, true, 600, 300), Some(Sweep::MarkIdle));
}

#[test]
fn idle_session_is_not_marked_again() {
    let s = session(AgentState::Idle, 0);
    assert_eq!(decide(301, &s, true, 600, 300), None);
}

#[test]
fn very_old_session_is_dropped() {
    let s = session(AgentState::Idle, 0);
    assert_eq!(decide(601, &s, true, 600, 300), Some(Sweep::Drop));
}

#[test]
fn ack_extends_the_clock() {
    let mut s = session(AgentState::Idle, 0);
    s.acked_at = 600;
    assert_eq!(decide(900, &s, true, 600, 300), None);
    assert_eq!(decide(1201, &s, true, 600, 300), Some(Sweep::Drop));
}

#[test]
fn mark_idle_does_not_extend_life() {
    let mut store = AgentSessionStore::new();
    store.apply(
        "agent-a",
        "s1",
        Some(1),
        Update { state: Some(AgentState::Working), ..Default::default() },
        1_000,
    );
    let before = store.list()[0].updated_at;
    let changed = store.sweep(before + 301, &|_| true, 600, 300);
    assert_eq!(changed.len(), 1);
    assert_eq!(store.list()[0].state, AgentState::Idle);
    assert_eq!(store.list()[0].updated_at, before, "MarkIdle 不该续命");
    let changed = store.sweep(before + 601, &|_| true, 600, 300);
    assert_eq!(changed.len(), 1);
    assert!(store.list().is_empty(), "转成 idle 之后仍然必须能被删掉");
}

#[test]
fn sweep_drops_sessions_whose_host_is_gone() {
    let mut store = AgentSessionStore::new();
    store.apply("agent-a", "s1", Some(7), Update::default(), 1_000);
    let changed = store.sweep(1_000, &|_| false, 600, 300);
    assert_eq!(changed.len(), 1);
    assert_eq!(changed[0].state, AgentState::Done);
    assert!(store.list().is_empty());
}

#[test]
fn events_only_overwrite_the_fields_they_carry() {
    let mut store = AgentSessionStore::new();
    store.apply(
        "a",
        "s",
        Some(3),
        Update { cwd: Some("/w".into()), title: Some("t".into()), ..Default::default() },
        10,
    );
    let s = store.apply("a", "s", None, Update { detail: Some("Bash".into()), ..Default::default() }, 20);
    assert_eq!(s.cwd.as_deref(), Some("/w"));
    assert_eq!(s.title.as_deref(), Some("t"));
    assert_eq!(s.detail.as_deref(), Some("Bash"));
    assert_eq!(s.session, Some(3));
    assert_eq!(s.state, AgentState::Idle);
    assert_eq!(s.updated_at, 20);
    assert_eq!(store.snapshot("a", "s").unwrap().updated_at, 20);
    assert!(store.snapshot("a", "other").is_none());
}

#[test]
fn sessions_are_listed_by_agent_then_session_id() {
    let mut store = AgentSessionStore::new();
    for (a, s) in [("b", "1"), ("a", "2"), ("a", "10"), ("b", "0")] {
        store.apply(a, s, None, Update::default(), 1);
    }
    let keys: Vec<(String, String)> =
        store.list().into_iter().map(|s| (s.agent_id, s.agent_session_id)).collect();
    let want: Vec<(String, String)> = [("a", "10"), ("a", "2"), ("b", "0"), ("b", "1")]
        .iter()
        .map(|(a, s)| (a.to_string(), s.to_string()))
        .collect();
    assert_eq!(keys, want);
}

fn request(id: &str, created_at: u64) -> PendingRequest {
    PendingRequest {
        id: id.into(),
        agent_id: "a".into(),
        agent_session_id: "s".into(),
        session: None,
        tool_name: Some("Bash".into()),
        tool_input: Json::Null,
        created_at,
        expires_at: created_at + 590,
    }
}

#[test]
fn a_request_is_answered_once() {
    let mut store = AgentSessionStore::new();
    store.apply("a", "s", None, Update::default(), 1);
    store.insert_pending(request("p1", 5), 5);
    let s = store.snapshot("a", "s").unwrap();
    assert_eq!(s.state, AgentState::Waiting);
    assert_eq!(s.pending.as_deref(), Some("p1"));
    assert_eq!(store.answer("nope"), AnswerResult::NotFound);
    assert_eq!(store.answer("p1"), AnswerResult::Recorded);
    assert_eq!(store.answer("p1"), AnswerResult::AlreadyAnswered);
    let meta = store.remove_pending("p1", 9).unwrap();
    assert_eq!(meta.id, "p1");
    assert_eq!(store.answer("p1"), AnswerResult::AlreadyAnswered);
    let s = store.snapshot("a", "s").unwrap();
    assert_eq!(s.state, AgentState::Working);
    assert_eq!(s.pending, None);
    assert_eq!(s.updated_at, 9);
    assert!(store.remove_pending("p1", 10).is_none());
}

#[test]
fn pending_requests_are_listed_by_creation_time() {
    let mut store = AgentSessionStore::new();
    store.insert_pending(request("z", 3), 3);
    store.insert_pending(request("b", 1), 3);
    store.insert_pending(request("a", 3), 3);
    let ids: Vec<&str> = store.list_pending().into_iter().map(|p| p.id.as_str()).collect();
    assert_eq!(ids, ["b", "a", "z"]);
}

#[test]
fn answer_memory_forgets_the_oldest() {
    let mut store = AgentSessionStore::new();
    for i in 0..65 {
        let id = format!("p{i}");
        store.insert_pending(request(&id, i), i);
        assert_eq!(store.answer(&id), AnswerResult::Recorded);
        store.remove_pending(&id, i);
    }
    assert_eq!(store.answer("p0"), AnswerResult::NotFound);
    assert_eq!(store.answer("p1"), AnswerResult::AlreadyAnswered);
    assert_eq!(store.answer("p64"), AnswerResult::AlreadyAnswered);
}

#[test]
fn dropping_a_host_ends_its_agents() {
    let mut store = AgentSessionStore::new();
    store.apply("a", "1", Some(7), Update::default(), 1);
    store.apply("a", "2", Some(8), Update::default(), 1);
    let dead = store.drop_by_session(7);
    assert_eq!(dead.len(), 1);
    assert_eq!(dead[0].agent_session_id, "1");
    assert_eq!(dead[0].state, AgentState::Done);
    assert_eq!(store.list().len(), 1);
}
