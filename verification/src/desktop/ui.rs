//! What the settings window shows and what the user asks of it in a frame; drawing
//! stays outside the library.
use vstd::prelude::*;
use super::settings::{Applied, Form, Message};

verus! {

/// What the user asked for in one frame of the settings window (`Nothing`: no
/// button was pressed).
#[derive(Debug, Clone, Copy, PartialEq, Eq, Structural)]
pub enum Outcome {
    Nothing,
    Save,
    Cancel,
    OpenConfigFile,
    RegenerateToken,
}

/// Everything the settings window shows.
pub struct View {
    pub form: Form,
    /// Shown read-only.
    pub window_size: String,
    /// (name, command), read-only.
    pub launchers: Vec<(String, String)>,
    /// A startup problem (config not parsed, not listening) shown on top until fixed;
    /// unlike `message`, which is the last save's result.
    pub banner: Option<String>,
    pub message: Option<Message>,
}

/// The buttons pressed in one frame of the settings window.
pub struct Presses {
    pub regenerate: bool,
    pub open_config: bool,
    pub cancel: bool,
    pub save: bool,
}

/// What a frame asks for. The window lays its buttons out as regenerate, open the
/// config file, cancel, save; should a frame hold several presses, the later one in
/// that order wins.
pub fn frame_outcome(p: Presses) -> (r: Outcome)
    ensures
        r == if p.save {
            Outcome::Save
        } else if p.cancel {
            Outcome::Cancel
        } else if p.open_config {
            Outcome::OpenConfigFile
        } else if p.regenerate {
            Outcome::RegenerateToken
        } else {
            Outcome::Nothing
        },
{
    let mut outcome = Outcome::Nothing;
    if p.regenerate {
        outcome = Outcome::RegenerateToken;
    }
    if p.open_config {
        outcome = Outcome::OpenConfigFile;
    }
    if p.cancel {
        outcome = Outcome::Cancel;
    }
    if p.save {
        outcome = Outcome::Save;
    }
    outcome
}

impl View {
    /// Ends a frame: once the form was edited, or a new token was drawn, the last
    /// save's result no longer describes the form and is cleared.
    pub fn end_frame(&mut self, edited: bool, outcome: Outcome)
        ensures
            final(self).message == if edited || outcome == Outcome::RegenerateToken {
                None
            } else {
                old(self).message
            },
            final(self).form == old(self).form,
            final(self).window_size == old(self).window_size,
            final(self).launchers == old(self).launchers,
            final(self).banner == old(self).banner,
    {
        let regenerated = match outcome {
            Outcome::RegenerateToken => true,
            _ => false,
        };
        if edited || regenerated {
            self.message = None;
        }
    }
}

impl View {
    /// Shows the outcome of "save and apply". After a restart the token in effect
    /// goes into the form, as it may have been made up on the spot; otherwise the
    /// form keeps what the user typed.
    pub fn after_apply(&mut self, applied: Applied, live_token: Option<String>)
        ensures
            final(self).message == Some(applied.message),
            final(self).form.token == match live_token {
                Some(t) => if applied.restarted {
                    t
                } else {
                    old(self).form.token
                },
                None => old(self).form.token,
            },
            final(self).form.host == old(self).form.host,
            final(self).form.port == old(self).form.port,
            final(self).form.autostart == old(self).form.autostart,
            final(self).window_size == old(self).window_size,
            final(self).launchers == old(self).launchers,
            final(self).banner == old(self).banner,
    {
        if applied.restarted {
            if let Some(t) = live_token {
                self.form.token = t;
            }
        }
        self.message = Some(applied.message);
    }
}

} // verus!
