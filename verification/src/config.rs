//! The server's configuration values (the file format is read by the I/O layer).
use vstd::prelude::*;
use crate::desktop::settings::Listen;

verus! {

/// When several clients attach one session, which size the pty takes (tmux's
/// `window-size`).
#[derive(Debug, Clone, Copy, PartialEq, Eq)]
pub enum WindowSize {
    /// The smallest of each dimension: nobody sees a cut-off screen.
    Smallest,
    /// The largest of each dimension.
    Largest,
    /// Whichever client attached or resized last.
    Latest,
}

impl Default for WindowSize {
    fn default() -> (w: Self)
        ensures
            w == WindowSize::Smallest,
    {
        WindowSize::Smallest
    }
}

/// One `[[launcher]]` of config.toml. `command` is already an argv.
#[derive(Debug, Clone, PartialEq, Eq)]
pub struct LauncherSpec {
    pub name: String,
    pub command: Vec<String>,
    pub cwd: Option<String>,
}

/// `[agents]`: the agent integration.
#[derive(Debug, Clone, Copy)]
pub struct AgentsConfig {
    /// Installing hooks rewrites another program's settings: off unless chosen.
    pub install_enabled: bool,
    pub session_stale_secs: u64,
    pub working_stale_secs: u64,
    /// How long a pending request waits for a human; shorter than the hook's own
    /// 600-second timeout, so that the "no decision" answer is ours.
    pub pending_timeout_secs: u64,
}

pub fn default_pending_timeout() -> (r: u64)
    ensures
        r == 590,
{
    590
}

pub fn default_session_stale() -> (r: u64)
    ensures
        r == 600,
{
    600
}

pub fn default_working_stale() -> (r: u64)
    ensures
        r == 300,
{
    300
}

impl Default for AgentsConfig {
    fn default() -> (c: Self)
        ensures
            !c.install_enabled,
            c.session_stale_secs == 600,
            c.working_stale_secs == 300,
            c.pending_timeout_secs == 590,
    {
        AgentsConfig {
            install_enabled: false,
            session_stale_secs: default_session_stale(),
            working_stale_secs: default_working_stale(),
            pending_timeout_secs: default_pending_timeout(),
        }
    }
}

/// A lowercase hexadecimal digit.
pub open spec fn is_lower_hex(c: char) -> bool {
    ('0' <= c && c <= '9') || ('a' <= c && c <= 'f')
}

/// `uuid::Uuid::new_v4().simple().to_string()`: a fresh random token. What it is
/// depends on the random source; the contract states only its shape, 32 lowercase
/// hexadecimal digits, as the simple format writes every UUID.
#[verifier::external_body]
pub(crate) fn random_token() -> (r: String)
    ensures
        r@.len() == 32,
        forall|i: int| 0 <= i < 32 ==> is_lower_hex(#[trigger] r@[i]),
{
    uuid::Uuid::new_v4().simple().to_string()
}

/// A configured token, trimmed; a blank one counts as not given.
pub open spec fn pick_token(v: Option<Seq<char>>) -> Option<Seq<char>> {
    match v {
        Some(t) => if crate::text::trim(t).len() == 0 {
            None
        } else {
            Some(crate::text::trim(t))
        },
        None => None,
    }
}

fn pick(v: Option<String>) -> (r: Option<String>)
    ensures
        crate::launcher::opt_view(r) == pick_token(crate::launcher::opt_view(v)),
{
    match v {
        Some(t) => {
            let c = crate::text::trimmed_chars(t.as_str());
            if c.len() == 0 {
                None
            } else {
                Some(crate::text::string_of(c.as_slice()))
            }
        },
        None => None,
    }
}

/// The token: `--token` first, then the config file, else a fresh random one
/// (Jupyter-style). Returns it and whether it was generated. A blank value is the
/// same as none, so `--token ""` never shadows a good configured token and an empty
/// token can never take effect (authentication compares literally); surrounding
/// whitespace is trimmed.
pub fn resolve_token(cli: Option<String>, config: Option<String>) -> (r: (String, bool))
    ensures
        match pick_token(crate::launcher::opt_view(cli)) {
            Some(t) => r.0@ == t && !r.1,
            None => match pick_token(crate::launcher::opt_view(config)) {
                Some(t) => r.0@ == t && !r.1,
                None => r.1 && r.0@.len() == 32 && forall|i: int|
                    0 <= i < 32 ==> is_lower_hex(#[trigger] r.0@[i]),
            },
        },
{
    match pick(cli) {
        Some(t) => (t, false),
        None => match pick(config) {
            Some(t) => (t, false),
            None => (random_token(), true),
        },
    }
}

/// Law: the token in effect is never blank and never has surrounding whitespace,
/// whatever was configured.
pub proof fn effective_token_is_never_blank(v: Option<Seq<char>>)
    ensures
        pick_token(v) matches Some(t) ==> t.len() > 0 && t == crate::text::trim(t),
{
    match v {
        Some(t) => {
            crate::text::lemma_trim_idempotent(t);
        },
        None => {},
    }
}

/// The address to listen on: the configured (or default) one, with the host and the
/// port overridden independently (from the command line).
pub fn effective_listen(base: &Listen, host: Option<String>, port: Option<u16>) -> (r: Listen)
    ensures
        r.host@ == match host {
            Some(h) => h@,
            None => base.host@,
        },
        r.port == match port {
            Some(p) => p,
            None => base.port,
        },
{
    let host = match host {
        Some(h) => h,
        None => base.host.clone(),
    };
    let port = match port {
        Some(p) => p,
        None => base.port,
    };
    Listen { host, port }
}

} // verus!
