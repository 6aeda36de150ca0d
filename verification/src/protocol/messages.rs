//! Control messages (carried as JSON on the control channel; the JSON form lives
//! with the I/O layer).
use vstd::prelude::*;

verus! {

#[derive(Debug, Clone, PartialEq, Eq)]
pub struct SessionInfo {
    pub id: u64,
    pub name: String,
    pub cols: u16,
    pub rows: u16,
    pub created_at: u64,
}

#[derive(Debug, Clone, Copy, PartialEq, Eq, Structural)]
pub enum AttachMode {
    Replay,
    Resync,
}

/// What an agent session is doing right now. `Waiting` means a human is needed.
#[derive(Debug, Clone, Copy, PartialEq, Eq, Structural)]
pub enum AgentState {
    Idle,
    Thinking,
    Working,
    Waiting,
    Done,
    Error,
}

#[derive(Debug, Clone, Copy, PartialEq, Eq, Structural)]
pub enum SessionEventKind {
    Created,
    Renamed,
    Closed,
}

#[derive(Debug, Clone, PartialEq, Eq)]
pub enum ClientMsg {
    Hello { token: String, proto: u32 },
    ListSessions,
    NewSession { name: Option<String>, command: Option<Vec<String>>, cwd: Option<String> },
    KillSession { id: u64 },
    RenameSession { id: u64, name: String },
    Preview { id: u64 },
    Attach { id: u64, channel: u32, last_seq: Option<u64>, cols: u16, rows: u16 },
    Detach { channel: u32 },
    Resize { channel: u32, cols: u16, rows: u16 },
}

#[derive(Debug, Clone, PartialEq, Eq)]
pub enum ServerMsg {
    HelloOk { proto: u32 },
    /// `channel` set: the failure concerns that channel; unset: connection or session level.
    Error { message: String, channel: Option<u32> },
    Sessions { sessions: Vec<SessionInfo> },
    SessionEvent { event: SessionEventKind, session: SessionInfo },
    /// `data` is the base64 of an ANSI repaint.
    PreviewData { id: u64, data: String },
    /// `seq` is only where the replay will end; the client anchors on its own
    /// `last_seq` (replay) or on `ResyncEnd.seq` (resync).
    Attached { channel: u32, seq: u64, mode: AttachMode },
    /// The authoritative size of the session.
    Resized { channel: u32, cols: u16, rows: u16 },
    ResyncBegin { channel: u32 },
    /// The resync anchor: the repaint is not counted, data frames add their length.
    ResyncEnd { channel: u32, seq: u64 },
    SessionExited { channel: u32, id: u64 },
    /// An agent session changed state.
    AgentEvent {
        agent_id: String,
        agent_session_id: String,
        session: Option<u64>,
        state: AgentState,
        pending: Option<String>,
        detail: Option<String>,
    },
}

} // verus!
