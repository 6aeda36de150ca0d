//! The tray application's events, and when a failed tray is tried again.
//!
//! The tray is the process's only interface. If it cannot be created (at login the
//! shell that hosts it may not be up yet) and is neither retried nor given up on, the
//! process keeps its port and its single-instance lock while nobody can see or close
//! it. So the retries are few, quick at first, and end.
use std::time::Duration;
use vstd::prelude::*;
use crate::client_core::{duration_of_millis, millis};
use crate::text::{decimal_text, spec_decimal, str_eq};
use super::settings::Listen;

verus! {

#[derive(Debug, Clone, Copy, PartialEq, Eq, Structural)]
pub enum MenuAction {
    OpenWeb,
    CopyUrl,
    Settings,
    ViewLogs,
    Quit,
}

#[derive(Debug, Clone, Copy, PartialEq, Eq, Structural)]
pub enum UserEvent {
    MenuClicked(MenuAction),
    SessionsChanged,
}

/// The wait before the first retry, in milliseconds.
pub const TRAY_FIRST_RETRY_MS: u64 = 500;

/// How many times a failed tray is retried.
pub const TRAY_RETRIES: u32 = 4;

/// The wait before retry `n` (counted from 1), in milliseconds: doubling from
/// [`TRAY_FIRST_RETRY_MS`]; `None` past the last retry (and for `n == 0`).
pub open spec fn spec_tray_retry_ms(n: u32) -> Option<u64> {
    if n == 1 {
        Some(500)
    } else if n == 2 {
        Some(1000)
    } else if n == 3 {
        Some(2000)
    } else if n == 4 {
        Some(4000)
    } else {
        None
    }
}

/// How long to wait after failure `n` before trying the tray again; `None` means give
/// up (tell the user and exit).
pub fn tray_retry_delay(n: u32) -> (r: Option<Duration>)
    ensures
        match spec_tray_retry_ms(n) {
            Some(ms) => r == Some(duration_of_millis(ms)),
            None => r is None,
        },
{
    if n == 0 || n > TRAY_RETRIES {
        return None;
    }
    let mut ms: u64 = TRAY_FIRST_RETRY_MS;
    let mut k: u32 = 1;
    while k < n
        invariant
            1 <= k <= n,
            n <= 4,
            ms == if k == 1 { 500u64 } else if k == 2 { 1000u64 } else if k == 3 { 2000u64 } else { 4000u64 },
        decreases n - k,
    {
        ms = ms * 2;
        k = k + 1;
    }
    Some(millis(ms))
}

/// The waits back off, and all of them together stay between 5 and 15 seconds: long
/// enough to cover the shell starting at login, short enough not to keep the user
/// waiting.
pub proof fn tray_retries_back_off_and_end(n: u32)
    ensures
        1 <= n < 4 ==> (spec_tray_retry_ms(n) matches Some(a) && spec_tray_retry_ms((n + 1) as u32) matches Some(b) && a < b),
        n > 4 || n == 0 ==> spec_tray_retry_ms(n) is None,
        5000 <= 500 + 1000 + 2000 + 4000 <= 15000,
{
}

/// The host a person can type into a browser for a listening address: an address
/// that listens on every interface (`0.0.0.0`, `::`) is reached as `127.0.0.1`, and an
/// IPv6 address goes in brackets. The status line and the access URL both use it, so
/// they name the same host.
pub open spec fn spec_display_host(host: Seq<char>) -> Seq<char> {
    if host == "0.0.0.0"@ || host == "::"@ {
        "127.0.0.1"@
    } else if host.contains(':') {
        "["@ + host + "]"@
    } else {
        host
    }
}

pub fn display_host(listen: &Listen) -> (r: String)
    ensures
        r@ == spec_display_host(listen.host@),
{
    let host = listen.host.as_str();
    if str_eq(host, "0.0.0.0") || str_eq(host, "::") {
        return String::from_str("127.0.0.1");
    }
    let cs = crate::text::chars_of(host);
    let mut colon = false;
    let mut i: usize = 0;
    while i < cs.len() && !colon
        invariant
            i <= cs.len(),
            cs@ == host@,
            colon ==> cs@.contains(':'),
            !colon ==> forall|k: int| 0 <= k < i ==> cs@[k] != ':',
        decreases cs.len() - i,
    {
        if cs[i] == ':' {
            colon = true;
            assert(cs@[i as int] == ':');
        }
        i = i + 1;
    }
    if colon {
        let mut out = String::from_str("[");
        out.append(host);
        out.append("]");
        out
    } else {
        listen.host.clone()
    }
}

/// The access URL with the token, in the form the server prints at startup.
pub open spec fn spec_access_url(listen: Listen, token: Seq<char>) -> Seq<char> {
    "http://"@ + spec_display_host(listen.host@) + ":"@ + spec_decimal(listen.port as nat) + "/#token="@ + token
}

/// The access URL; `None` unless the server listens and has a token.
pub fn access_url(listen: &Option<Listen>, token: Option<&str>) -> (r: Option<String>)
    ensures
        match (*listen, token) {
            (Some(l), Some(t)) => r matches Some(u) && u@ == spec_access_url(l, t@),
            _ => r is None,
        },
{
    match (listen, token) {
        (Some(l), Some(t)) => {
            let mut out = String::from_str("http://");
            let host = display_host(l);
            out.append(host.as_str());
            out.append(":");
            let port = decimal_text(l.port as u64);
            out.append(port.as_str());
            out.append("/#token=");
            out.append(t);
            Some(out)
        },
        _ => None,
    }
}

/// The tray's status line: where the server can be reached and how many sessions
/// run, or that it does not listen.
pub open spec fn spec_status_text(listen: Option<Listen>, sessions: nat) -> Seq<char> {
    match listen {
        Some(l) => "octoterm · "@ + spec_display_host(l.host@) + ":"@ + spec_decimal(l.port as nat) + " · "@
            + spec_decimal(sessions) + " 个会话"@,
        None => "octoterm · 未监听"@,
    }
}

pub fn status_text(listen: &Option<Listen>, sessions: usize) -> (r: String)
    ensures
        r@ == spec_status_text(*listen, sessions as nat),
{
    match listen {
        Some(l) => {
            let mut out = String::from_str("octoterm · ");
            let host = display_host(l);
            out.append(host.as_str());
            out.append(":");
            let port = decimal_text(l.port as u64);
            out.append(port.as_str());
            out.append(" · ");
            let n = decimal_text(sessions as u64);
            out.append(n.as_str());
            out.append(" 个会话");
            out
        },
        None => String::from_str("octoterm · 未监听"),
    }
}

} // verus!
