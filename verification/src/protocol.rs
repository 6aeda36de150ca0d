//! Wire protocol: binary frames and the control messages they carry.
pub mod frame;
pub mod messages;

pub use frame::{Frame, FrameError, CONTROL_CHANNEL};
pub use messages::{AgentState, AttachMode, ClientMsg, ServerMsg, SessionEventKind, SessionInfo};

use vstd::prelude::*;

verus! {

/// Version of the control-message protocol.
pub const PROTO_VERSION: u32 = 1;

} // verus!
