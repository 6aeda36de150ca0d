//! Agent integration: hooks, sessions, transcripts.
//!
//! One extension point, [`AgentAdapter`]. Discovery only reads; writing another
//! program's configuration happens only on an explicit user action, behind the
//! `agents.install_enabled` switch, with a backup first and an uninstall that restores.
pub mod claude_transcript;
pub mod hook_cli;
pub mod store;
pub mod transcript;
pub mod edit;
pub mod edit_laws;
pub mod codex;
pub mod routes;
pub mod apply;
pub mod http_hooks;

use vstd::prelude::*;
use crate::json::Json;
use crate::text::str_eq;
use self::edit::{ConfigEdit, InstallCtx};
use self::store::{Decision, Update};

verus! {

#[derive(Debug, Clone, Copy, PartialEq, Eq, Structural)]
pub enum Confidence {
    High,
    Medium,
    Low,
}

/// Whether this machine has the agent, and on what evidence.
#[derive(Debug, Clone)]
pub struct Detected {
    pub installed: bool,
    pub confidence: Confidence,
    /// Machine-readable grounds; clients may group by it but not hard-code wording.
    pub reason: String,
    /// One sentence for humans, shown as it is and never parsed.
    pub detail: String,
    pub config_path: Option<String>,
}

/// The state of our integration.
#[derive(Debug, Clone, Copy, PartialEq, Eq, Structural)]
pub enum Integration {
    NotInstalled,
    Installed,
    /// Installed, but for a port other than the one listened on: installed and
    /// without effect, which has no outward symptom unless it is reported.
    StalePort,
}

#[derive(Debug, Clone)]
pub struct AgentStatus {
    pub id: String,
    pub name: String,
    pub detected: Detected,
    pub integration: Integration,
    /// Other programs' blocking hooks on the same events, one line each.
    pub conflicts: Vec<String>,
}

/// An agent this server integrates with. Planning never writes: it says which file
/// gets which change.
pub trait AgentAdapter: Send + Sync {
    fn id(&self) -> String;
    fn name(&self) -> String;
    fn plan_install(&self, ctx: &InstallCtx) -> Vec<ConfigEdit>;
    fn plan_uninstall(&self, ctx: &InstallCtx) -> Vec<ConfigEdit>;
    /// The step the user must take in the agent itself before installed hooks take
    /// effect, if the agent gates them (`None`: installed is in effect).
    fn activation(&self) -> Option<&'static str>;
    /// Whether the event waits for a human's decision.
    fn is_blocking(&self, event: &str) -> bool;
    /// The session update a hook call carries; `None` for an event it does not know.
    fn parse(&self, event: &str, body: &Json) -> Option<Update>;
    /// The reply a blocking hook gets for a decision.
    fn render(&self, decision: &Decision) -> Json;
    /// The integration's state read from the hook file's text (`None`: missing or
    /// unreadable; either, or text that is not JSON, counts as not installed), with
    /// the conflicting blocking hooks.
    fn integration(&self, ctx: &InstallCtx, hooks_text: Option<&str>) -> (Integration, Vec<String>);
}

/// The ids of the agents this build integrates with.
pub open spec fn known_agent(id: Seq<char>) -> bool {
    id == codex::codex_id()
}

/// Whether `id` names an agent this build integrates with.
pub fn is_known_agent(id: &str) -> (r: bool)
    ensures
        r == known_agent(id@),
{
    str_eq(id, "codex")
}

/// Every adapter, in a fixed order: Codex (one adapter). The contract states the
/// count and leaves unsaid which adapter it is: Verus proves a spec function of a
/// boxed trait object held in a variable, but nothing of one once it sits in a `Vec`
/// or an `Option`.
pub fn registry() -> (r: Vec<Box<dyn AgentAdapter>>)
    ensures
        r@.len() == 1,
{
    let b: Box<dyn AgentAdapter> = Box::new(codex::Codex);
    vec![b]
}

/// The adapter with id `id`: there is one exactly for a known agent. Which adapter
/// comes back is left unsaid, for the reason given at [`registry`].
pub fn find(id: &str) -> (r: Option<Box<dyn AgentAdapter>>)
    ensures
        r is Some <==> known_agent(id@),
{
    if is_known_agent(id) {
        Some(Box::new(codex::Codex))
    } else {
        None
    }
}

} // verus!
