//! When the embedded server's HTTP layer is rebuilt, in which order: the session
//! manager outlives every restart, so clients only see a dropped connection.
//!
//! A new address is bound before the old listener stops, so the most common failure
//! (the port is taken) does not lock the user out. The same address cannot be bound
//! twice, so there the old listener stops first and binding is retried a few times
//! while the system releases the port.
use std::time::Duration;
use vstd::prelude::*;
use crate::client_core::{duration_of_millis, millis};
use crate::text::str_eq;
use super::settings::Listen;

verus! {

/// How many times binding the same address is tried.
pub const BIND_RETRIES: u32 = 10;

/// The wait between two tries, in milliseconds.
pub const BIND_RETRY_INTERVAL_MS: u64 = 20;

/// In which order a restart replaces the listener.
#[derive(Debug, Clone, Copy, PartialEq, Eq, Structural)]
pub enum RestartOrder {
    /// A new address: bind it first, stop the old listener once that worked; a
    /// failure leaves the old one running.
    BindThenStop,
    /// The address in use: stop the old listener, then bind with retries; a failure
    /// leaves no HTTP layer.
    StopThenBind,
}

/// The order of a restart onto `target`, `running` being the address listened on now.
pub fn restart_order(running: &Option<Listen>, target: &Listen) -> (r: RestartOrder)
    ensures
        r == match *running {
            Some(l) => if l.host@ == target.host@ && l.port == target.port {
                RestartOrder::StopThenBind
            } else {
                RestartOrder::BindThenStop
            },
            None => RestartOrder::BindThenStop,
        },
{
    match running {
        Some(l) => if l.port == target.port && str_eq(l.host.as_str(), target.host.as_str()) {
            RestartOrder::StopThenBind
        } else {
            RestartOrder::BindThenStop
        },
        None => RestartOrder::BindThenStop,
    }
}

/// What follows failed try `attempt` (counted from 0): wait and try again, or, after
/// the last try, give up at once (no wait with nothing after it).
pub fn bind_retry_wait(attempt: u32) -> (r: Option<Duration>)
    ensures
        attempt + 1 < BIND_RETRIES ==> r == Some(duration_of_millis(BIND_RETRY_INTERVAL_MS)),
        attempt + 1 >= BIND_RETRIES ==> r is None,
{
    if attempt < BIND_RETRIES - 1 {
        Some(millis(BIND_RETRY_INTERVAL_MS))
    } else {
        None
    }
}

} // verus!
