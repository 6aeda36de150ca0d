//! The settings window's state and the "save and apply" flow, without any UI.
//!
//! Saving runs in a fixed order with its own failure meaning at each step: an invalid
//! form or a failed login-item change stops before anything else is touched; when
//! neither the address nor a pinned token changed, only the file is written;
//! otherwise the HTTP layer is restarted first (a failed restart leaves everything as
//! it was) and the file written after (a failed write is reported as "running, not
//! saved"). The flow is a state machine: each function takes what the previous step's
//! effect returned and names the next effect.
use vstd::prelude::*;
use crate::launcher::opt_view;
use crate::config::{LauncherSpec, WindowSize};
use crate::launcher::cmdline::{join_spaces, join_with_spaces};
use crate::text::{chars_of, decimal_text, parse_u16, spec_decimal, spec_parse_u16, str_eq, trim, trim_string, trimmed_chars};

verus! {

/// A listening address: the IP in the text `IpAddr`'s `Display` writes (one text per
/// address), and the port.
#[derive(Debug, Clone, PartialEq, Eq)]
pub struct Listen {
    pub host: String,
    pub port: u16,
}

pub open spec fn same_listen(a: Listen, b: Listen) -> bool {
    a.host@ == b.host@ && a.port == b.port
}

/// `host:port`, with an IPv6 host in brackets (as `SocketAddr` writes it).
pub open spec fn listen_text(l: Listen) -> Seq<char> {
    if l.host@.contains(':') {
        "["@ + l.host@ + "]:"@ + spec_decimal(l.port as nat)
    } else {
        l.host@ + ":"@ + spec_decimal(l.port as nat)
    }
}

impl Listen {
    pub fn copy(&self) -> (r: Listen)
        ensures
            same_listen(r, *self),
    {
        Listen { host: self.host.clone(), port: self.port }
    }

    pub fn text(&self) -> (r: String)
        ensures
            r@ == listen_text(*self),
    {
        let cs = chars_of(self.host.as_str());
        let mut colon = false;
        let mut i: usize = 0;
        while i < cs.len() && !colon
            invariant
                i <= cs.len(),
                cs@ == self.host@,
                colon ==> cs@.contains(':'),
                !colon ==> forall|k: int| 0 <= k < i ==> cs@[k] != ':',
            decreases cs.len() - i,
        {
            if cs[i] == ':' {
                colon = true;
                assert(cs@[i as int] == ':');
            }
            i = i + 1;
        }
        let p = decimal_text(self.port as u64);
        if colon {
            let mut s = String::from_str("[");
            s.append(self.host.as_str());
            s.append("]:");
            s.append(p.as_str());
            s
        } else {
            let mut s = self.host.clone();
            s.append(":");
            s.append(p.as_str());
            s
        }
    }
}

/// The fields the desktop lets the user change; every other key of the config file
/// is kept as it is.
#[derive(Debug, Clone, PartialEq, Eq)]
pub struct Editable {
    pub listen: Listen,
    /// `None`: no pinned token; the key is removed and the server makes one up at its
    /// next start.
    pub token: Option<String>,
}

pub open spec fn same_edit(a: Editable, b: Editable) -> bool {
    same_listen(a.listen, b.listen) && opt_view(a.token) == opt_view(b.token)
}

impl Editable {
    pub fn copy(&self) -> (r: Editable)
        ensures
            same_edit(r, *self),
    {
        Editable { listen: self.listen.copy(), token: self.token.clone() }
    }
}

/// The form keeps strings: while the user types, the content is mostly invalid.
#[derive(Debug, Clone, PartialEq, Eq)]
pub struct Form {
    pub host: String,
    pub port: String,
    /// Blank means "not pinned".
    pub token: String,
    pub autostart: bool,
}

/// The sentence shown after saving.
#[derive(Debug, Clone, PartialEq, Eq)]
pub enum Message {
    Success(String),
    Failure(String),
}

#[derive(Debug, Clone, PartialEq, Eq)]
pub enum FieldError {
    Host(String),
    Port(String),
}

impl FieldError {
    pub fn message(&self) -> (r: String)
        ensures
            r@ == match *self {
                FieldError::Host(m) => m@,
                FieldError::Port(m) => m@,
            },
    {
        match self {
            FieldError::Host(m) => m.clone(),
            FieldError::Port(m) => m.clone(),
        }
    }
}

/// Whether the query gives, for each text, the canonical text of the IP address it
/// spells (`None` when it spells none).
pub open spec fn ip_agrees<F: Fn(&str) -> Option<String>>(f: F, ipf: spec_fn(Seq<char>) -> Option<Seq<char>>) -> bool {
    forall|k: &str, o: Option<String>| #[trigger] call_ensures(f, (k,), o) ==> opt_view(o) == ipf(k@)
}

/// The token field: `None` when blank, else its trimmed text.
pub open spec fn spec_token(t: Seq<char>) -> Option<Seq<char>> {
    if trim(t).len() == 0 {
        None
    } else {
        Some(trim(t))
    }
}

/// What validating a form gives, given the address parser `ipf`: the host error,
/// the port error (not a port; zero, which would let the system pick one), or the
/// editable values.
pub open spec fn validate_ok(form: Form, ipf: spec_fn(Seq<char>) -> Option<Seq<char>>, r: Result<Editable, FieldError>) -> bool {
    let host = trim(form.host@);
    let port = trim(form.port@);
    match ipf(host) {
        None => r matches Err(FieldError::Host(m)) && m@ == "不是合法的 IP 地址:"@ + host,
        Some(ip) => match spec_parse_u16(port) {
            None => r matches Err(FieldError::Port(m)) && m@ == "端口必须是 1-65535 的整数:"@ + port,
            Some(p) => if p == 0 {
                r matches Err(FieldError::Port(m)) && m@ == "端口不能是 0"@
            } else {
                r matches Ok(e) && e.listen.host@ == ip && e.listen.port == p && opt_view(e.token) == spec_token(form.token@)
            },
        },
    }
}

impl Form {
    /// Validates the form; `canonical_ip` parses an IP address and writes it back in
    /// its canonical text.
    pub fn validate<F: Fn(&str) -> Option<String>>(&self, canonical_ip: &F) -> (r: Result<Editable, FieldError>)
        requires
            forall|k: &str| call_requires(*canonical_ip, (k,)),
        ensures
            forall|ipf: spec_fn(Seq<char>) -> Option<Seq<char>>| #[trigger] ip_agrees(*canonical_ip, ipf) ==> validate_ok(*self, ipf, r),
    {
        let host = trim_string(self.host.as_str());
        let ip = match canonical_ip(host.as_str()) {
            Some(ip) => ip,
            None => {
                let mut m = String::from_str("不是合法的 IP 地址:");
                m.append(host.as_str());
                return Err(FieldError::Host(m));
            },
        };
        let port_text = trimmed_chars(self.port.as_str());
        let port = match parse_u16(port_text.as_slice()) {
            Some(p) => p,
            None => {
                let mut m = String::from_str("端口必须是 1-65535 的整数:");
                let t = crate::text::string_of(port_text.as_slice());
                m.append(t.as_str());
                return Err(FieldError::Port(m));
            },
        };
        if port == 0 {
            return Err(FieldError::Port(String::from_str("端口不能是 0")));
        }
        let token = trim_string(self.token.as_str());
        let token = if token.unicode_len() == 0 {
            None
        } else {
            Some(token)
        };
        Ok(Editable { listen: Listen { host: ip, port }, token })
    }
}

/// Whether saving restarts the HTTP layer: when the address changes, or a pinned
/// token differs from the one in use. Unpinning does not restart: the key leaves the
/// file and this run keeps its token, or saving would lock the user out.
pub open spec fn spec_needs_rebind(current: Listen, current_token: Seq<char>, next: Editable) -> bool {
    !same_listen(next.listen, current) || (next.token matches Some(t) && t@ != current_token)
}

pub fn needs_rebind(current: &Listen, current_token: &str, next: &Editable) -> (r: bool)
    ensures
        r == spec_needs_rebind(*current, current_token@, *next),
{
    if !str_eq(next.listen.host.as_str(), current.host.as_str()) || next.listen.port != current.port {
        return true;
    }
    match &next.token {
        Some(t) => !str_eq(t.as_str(), current_token),
        None => false,
    }
}

/// What is in effect when the user saves.
#[derive(Debug, Clone)]
pub struct Current {
    /// `None`: not listening (for example the port was taken at startup).
    pub listen: Option<Listen>,
    /// The token in use; empty when not listening.
    pub token: String,
    /// How many sessions run, for the message.
    pub sessions: usize,
}

/// The outcome of saving: the message, and whether the HTTP layer was restarted (the
/// caller then refreshes the tray's status line).
#[derive(Debug, Clone, PartialEq, Eq)]
pub struct Applied {
    pub message: Message,
    pub restarted: bool,
}

/// The next effect of a save, or its end.
#[derive(Debug)]
pub enum SaveStep {
    /// Turn starting at login on or off.
    SetAutostart(bool),
    /// Find the config file's path.
    FindConfigPath,
    /// Write the editable values into the config file.
    Write(Editable),
    /// Restart the HTTP layer on `listen` with `token`; the effect answers with the
    /// address actually bound.
    Restart { listen: Listen, token: String },
    Finish(Applied),
}

/// A save in progress.
pub struct SaveFlow {
    pub next: Editable,
    pub autostart: bool,
    pub current: Current,
    /// Where the restarted layer listens, once it was restarted.
    pub restarted_at: Option<Listen>,
}

pub open spec fn is_failure(s: SaveStep, text: Seq<char>, restarted: bool) -> bool {
    &&& s matches SaveStep::Finish(a)
    &&& s->Finish_0.restarted == restarted
    &&& s->Finish_0.message matches Message::Failure(m)
    &&& s->Finish_0.message->Failure_0@ == text
}

pub open spec fn is_success(s: SaveStep, text: Seq<char>, restarted: bool) -> bool {
    &&& s matches SaveStep::Finish(a)
    &&& s->Finish_0.restarted == restarted
    &&& s->Finish_0.message matches Message::Success(m)
    &&& s->Finish_0.message->Success_0@ == text
}

fn failure(text: String, restarted: bool) -> (r: SaveStep)
    ensures
        is_failure(r, text@, restarted),
{
    SaveStep::Finish(Applied { message: Message::Failure(text), restarted })
}

/// Starts saving: an invalid form ends it with the field's error; otherwise the first
/// effect is setting the login item.
pub fn begin_save<F: Fn(&str) -> Option<String>>(form: &Form, current: Current, canonical_ip: &F) -> (r: (Option<SaveFlow>, SaveStep))
    requires
        forall|k: &str| call_requires(*canonical_ip, (k,)),
    ensures
        forall|ipf: spec_fn(Seq<char>) -> Option<Seq<char>>| #[trigger] ip_agrees(*canonical_ip, ipf) ==> {
            let host = trim(form.host@);
            let port = trim(form.port@);
            match ipf(host) {
                None => r.0 is None && is_failure(r.1, "不是合法的 IP 地址:"@ + host, false),
                Some(ip) => match spec_parse_u16(port) {
                    None => r.0 is None && is_failure(r.1, "端口必须是 1-65535 的整数:"@ + port, false),
                    Some(p) => if p == 0 {
                        r.0 is None && is_failure(r.1, "端口不能是 0"@, false)
                    } else {
                        &&& r.0 matches Some(f) && f.next.listen.host@ == ip && f.next.listen.port == p
                            && opt_view(f.next.token) == spec_token(form.token@) && f.autostart == form.autostart
                            && f.current.listen == current.listen && f.current.token@ == current.token@
                            && f.current.sessions == current.sessions && f.restarted_at is None
                        &&& r.1 matches SaveStep::SetAutostart(b) && b == form.autostart
                    },
                },
            }
        },
{
    match form.validate(canonical_ip) {
        Err(e) => (None, failure(e.message(), false)),
        Ok(next) => {
            let autostart = form.autostart;
            (Some(SaveFlow { next, autostart, current, restarted_at: None }), SaveStep::SetAutostart(autostart))
        },
    }
}

/// After setting the login item: a failure stops the save (reporting "saved" would
/// be a lie about the box the user ticked); otherwise find the config path.
pub fn after_autostart(res: Result<(), String>) -> (r: SaveStep)
    ensures
        match res {
            Err(e) => is_failure(r, "开机自启设置失败:"@ + e@, false),
            Ok(_) => r is FindConfigPath,
        },
{
    match res {
        Err(e) => {
            let mut m = String::from_str("开机自启设置失败:");
            m.append(e.as_str());
            failure(m, false)
        },
        Ok(()) => SaveStep::FindConfigPath,
    }
}

/// Whether this save restarts the HTTP layer: always when not listening.
pub open spec fn flow_rebinds(flow: SaveFlow) -> bool {
    match flow.current.listen {
        Some(l) => spec_needs_rebind(l, flow.current.token@, flow.next),
        None => true,
    }
}

/// After finding the config path: a failure stops the save; otherwise restart first
/// when the address or the pinned token changes (with the current token when none is
/// pinned), else only write the file.
pub fn after_config_path(flow: &SaveFlow, res: Result<(), String>) -> (r: SaveStep)
    ensures
        match res {
            Err(e) => is_failure(r, e@, false),
            Ok(_) => if flow_rebinds(*flow) {
                r matches SaveStep::Restart { listen, token } && same_listen(listen, flow.next.listen) && token@ == match flow.next.token {
                    Some(t) => t@,
                    None => flow.current.token@,
                }
            } else {
                r matches SaveStep::Write(e) && same_edit(e, flow.next)
            },
        },
{
    if let Err(e) = res {
        return failure(e, false);
    }
    let rebind = match &flow.current.listen {
        Some(l) => needs_rebind(l, flow.current.token.as_str(), &flow.next),
        None => true,
    };
    if rebind {
        let token = match &flow.next.token {
            Some(t) => t.clone(),
            None => flow.current.token.clone(),
        };
        SaveStep::Restart { listen: flow.next.listen.copy(), token }
    } else {
        SaveStep::Write(flow.next.copy())
    }
}

/// After restarting: a failure stops the save with nothing touched (the old layer
/// still runs when the address changed); otherwise write the file next.
pub fn after_restart(flow: &mut SaveFlow, res: Result<Listen, String>) -> (r: SaveStep)
    ensures
        final(flow).next == old(flow).next,
        final(flow).current.sessions == old(flow).current.sessions,
        match res {
            Err(e) => is_failure(r, e@, false) && final(flow).restarted_at == old(flow).restarted_at,
            Ok(actual) => final(flow).restarted_at == Some(actual) && (r matches SaveStep::Write(e) && same_edit(e, old(flow).next)),
        },
{
    match res {
        Err(e) => failure(e, false),
        Ok(actual) => {
            flow.restarted_at = Some(actual);
            SaveStep::Write(flow.next.copy())
        },
    }
}

/// After writing the file. Without a restart: "saved", or the write error. After a
/// restart: where it now runs and that the sessions were not affected, or, when the
/// write failed, that it runs there but was not saved (the next start goes back to
/// the old settings).
pub fn after_write(flow: &SaveFlow, res: Result<(), String>) -> (r: SaveStep)
    ensures
        match flow.restarted_at {
            None => match res {
                Ok(_) => is_success(r, "已保存"@, false),
                Err(e) => is_failure(r, e@, false),
            },
            Some(actual) => match res {
                Ok(_) => is_success(
                    r,
                    "已生效 · "@ + listen_text(actual) + " · "@ + spec_decimal(flow.current.sessions as nat) + " 个会话未受影响"@,
                    true,
                ),
                Err(e) => is_failure(r, "已在 "@ + listen_text(actual) + " 生效,但写入配置失败:"@ + e@ + "(重启后会回到旧配置)"@, true),
            },
        },
{
    match &flow.restarted_at {
        None => match res {
            Ok(()) => SaveStep::Finish(Applied { message: Message::Success(String::from_str("已保存")), restarted: false }),
            Err(e) => failure(e, false),
        },
        Some(actual) => {
            let at = actual.text();
            match res {
                Ok(()) => {
                    let mut m = String::from_str("已生效 · ");
                    m.append(at.as_str());
                    m.append(" · ");
                    let n = decimal_text(flow.current.sessions as u64);
                    m.append(n.as_str());
                    m.append(" 个会话未受影响");
                    SaveStep::Finish(Applied { message: Message::Success(m), restarted: true })
                },
                Err(e) => {
                    let mut m = String::from_str("已在 ");
                    m.append(at.as_str());
                    m.append(" 生效,但写入配置失败:");
                    m.append(e.as_str());
                    m.append("(重启后会回到旧配置)");
                    failure(m, true)
                },
            }
        },
    }
}

/// How the window names a size policy: the word `config.toml` uses for it.
pub open spec fn spec_window_size_label(w: WindowSize) -> Seq<char> {
    match w {
        WindowSize::Smallest => "smallest"@,
        WindowSize::Largest => "largest"@,
        WindowSize::Latest => "latest"@,
    }
}

pub fn window_size_label(w: WindowSize) -> (r: String)
    ensures
        r@ == spec_window_size_label(w),
{
    match w {
        WindowSize::Smallest => String::from_str("smallest"),
        WindowSize::Largest => String::from_str("largest"),
        WindowSize::Latest => String::from_str("latest"),
    }
}

/// The configured launchers as the window lists them: each name with its command
/// joined by spaces.
pub fn launcher_rows(specs: &Vec<LauncherSpec>) -> (r: Vec<(String, String)>)
    ensures
        r@.len() == specs@.len(),
        forall|i: int| 0 <= i < r@.len() ==> (#[trigger] r@[i]).0@ == specs@[i].name@
            && r@[i].1@ == join_spaces(specs@[i].command.deep_view()),
{
    let mut rows: Vec<(String, String)> = Vec::new();
    let mut i: usize = 0;
    while i < specs.len()
        invariant
            i <= specs.len(),
            rows@.len() == i,
            forall|k: int| 0 <= k < i ==> (#[trigger] rows@[k]).0@ == specs@[k].name@
                && rows@[k].1@ == join_spaces(specs@[k].command.deep_view()),
        decreases specs.len() - i,
    {
        let s = &specs[i];
        let line = join_with_spaces(s.command.as_slice());
        rows.push((s.name.clone(), line));
        i = i + 1;
    }
    rows
}

} // verus!
