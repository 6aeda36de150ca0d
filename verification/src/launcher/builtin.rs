//! The built-in provider: the system's default shell.
//!
//! It is the one provider that never comes back empty: every other source may be
//! missing, unconfigured or broken, and "new session" must still have something to
//! run. A `new-session` without a command uses the same first entry
//! ([`default_command`]), so the menu's first item and the default cannot drift.
//! The environment is read by the caller and handed in.
use vstd::prelude::*;
use crate::text::{chars_of, string_of};
use crate::launcher::{Launcher, LauncherView, lview, lviews, new_launcher};

verus! {

pub const ID: &'static str = "builtin";

/// The shell when `SHELL` is not set.
pub const FALLBACK_SHELL: &'static str = "/bin/sh";

/// The provider of the default shell. What it offers is found when it is made, from
/// the environment the caller read ([`Builtin::unix`], [`Builtin::windows`]).
pub struct Builtin {
    launchers: Vec<Launcher>,
}

impl Builtin {
    pub closed spec fn launchers(&self) -> Seq<LauncherView> {
        lviews(self.launchers@)
    }

    /// The Unix shell provider for the value of `SHELL`.
    pub fn unix(shell: Option<String>) -> (b: Self)
        ensures
            b.launchers() == spec_unix_discover(crate::launcher::opt_view(shell)),
    {
        Builtin { launchers: discover_unix(shell) }
    }

    /// The Windows shell provider for `SystemRoot`, `ComSpec` and a file-existence
    /// check.
    pub fn windows<G: Fn(&str) -> bool>(
        system_root: Option<String>,
        comspec: Option<String>,
        is_file: &G,
    ) -> (b: Self)
        requires
            forall|k: &str| call_requires(*is_file, (k,)),
        ensures
            forall|filef: spec_fn(Seq<char>) -> bool|
                crate::launcher::cmdline::file_agrees(*is_file, filef) ==> b.launchers()
                    == #[trigger] spec_windows_discover(
                    crate::launcher::opt_view(system_root),
                    crate::launcher::opt_view(comspec),
                    filef,
                ),
    {
        Builtin { launchers: discover_windows(system_root, comspec, is_file) }
    }
}

impl crate::launcher::LauncherProvider for Builtin {
    fn id(&self) -> (r: &'static str)
        ensures
            r@ == ID@,
    {
        ID
    }

    /// The shells found when the provider was made.
    fn discover(&self) -> (r: Result<Vec<Launcher>, anyhow::Error>)
        ensures
            r matches Ok(v) && lviews(v@) == self.launchers(),
    {
        Ok(crate::launcher::copy_launchers(&self.launchers))
    }
}

/// Whether `c` separates path components (`\` too on Windows).
pub open spec fn is_sep(c: char, windows: bool) -> bool {
    c == '/' || (windows && c == '\\')
}

/// A component that names something (not empty, not `.`).
pub open spec fn is_named(seg: Seq<char>) -> bool {
    seg.len() > 0 && seg != seq!['.']
}

/// Scanning `s`: the component being read, and the last named component before it.
pub open spec fn scan_components(s: Seq<char>, windows: bool) -> (Seq<char>, Option<Seq<char>>)
    decreases s.len(),
{
    if s.len() == 0 {
        (Seq::empty(), None)
    } else {
        let st = scan_components(s.drop_last(), windows);
        if is_sep(s.last(), windows) {
            (Seq::empty(), if is_named(st.0) { Some(st.0) } else { st.1 })
        } else {
            (st.0.push(s.last()), st.1)
        }
    }
}

/// `s` without a Windows drive prefix (`C:`).
pub open spec fn without_drive(s: Seq<char>, windows: bool) -> Seq<char> {
    if windows && s.len() >= 2 && s[1] == ':' {
        s.subrange(2, s.len() as int)
    } else {
        s
    }
}

/// `Path::file_name`: the last named component, unless it is `..`.
pub open spec fn spec_file_name(s: Seq<char>, windows: bool) -> Option<Seq<char>> {
    let st = scan_components(without_drive(s, windows), windows);
    let last = if is_named(st.0) { Some(st.0) } else { st.1 };
    match last {
        Some(x) => if x == seq!['.', '.'] { None } else { Some(x) },
        None => None,
    }
}

/// The index of the last `.` in `s`, or -1.
pub open spec fn last_dot(s: Seq<char>) -> int
    decreases s.len(),
{
    if s.len() == 0 {
        -1
    } else if s.last() == '.' {
        s.len() - 1
    } else {
        last_dot(s.drop_last())
    }
}

/// `Path::file_stem` of a file name: up to its last `.`, unless that is the first
/// character or there is none.
pub open spec fn stem_of_name(name: Seq<char>) -> Seq<char> {
    if last_dot(name) <= 0 {
        name
    } else {
        name.subrange(0, last_dot(name))
    }
}

/// A display name for a program path: its file stem (`/bin/zsh` gives `zsh`), or
/// the whole path when it has no file name.
pub open spec fn spec_stem(path: Seq<char>, windows: bool) -> Seq<char> {
    match spec_file_name(path, windows) {
        Some(n) => stem_of_name(n),
        None => path,
    }
}

fn file_name(v: &Vec<char>, windows: bool) -> (r: Option<Vec<char>>)
    ensures
        match r {
            Some(x) => spec_file_name(v@, windows) == Some(x@),
            None => spec_file_name(v@, windows) is None,
        },
{
    let start: usize = if windows && v.len() >= 2 && v[1] == ':' {
        2
    } else {
        0
    };
    let ghost s = without_drive(v@, windows);
    assert(s =~= v@.subrange(start as int, v.len() as int));
    let mut cur: Vec<char> = Vec::new();
    let mut done: Option<Vec<char>> = None;
    let mut i: usize = start;
    while i < v.len()
        invariant
            start <= i <= v.len(),
            s == v@.subrange(start as int, v.len() as int),
            cur@ == scan_components(s.subrange(0, i - start), windows).0,
            match done {
                Some(d) => scan_components(s.subrange(0, i - start), windows).1 == Some(d@),
                None => scan_components(s.subrange(0, i - start), windows).1 is None,
            },
        decreases v.len() - i,
    {
        proof {
            let p = s.subrange(0, i - start + 1);
            assert(p.drop_last() =~= s.subrange(0, i - start));
            assert(p.last() == v@[i as int]);
        }
        let c = v[i];
        if c == '/' || (windows && c == '\\') {
            let named = cur.len() > 0 && !(cur.len() == 1 && cur[0] == '.');
            proof {
                if cur.len() == 1 && cur[0] == '.' {
                    assert(cur@ =~= seq!['.']);
                }
            }
            if named {
                done = Some(cur);
            }
            cur = Vec::new();
        } else {
            cur.push(c);
        }
        i = i + 1;
    }
    assert(s.subrange(0, v.len() - start) =~= s);
    let named = cur.len() > 0 && !(cur.len() == 1 && cur[0] == '.');
    proof {
        if cur.len() == 1 && cur[0] == '.' {
            assert(cur@ =~= seq!['.']);
        }
    }
    let last = if named {
        Some(cur)
    } else {
        done
    };
    match last {
        Some(x) => {
            if x.len() == 2 && x[0] == '.' && x[1] == '.' {
                assert(x@ =~= seq!['.', '.']);
                None
            } else {
                Some(x)
            }
        },
        None => None,
    }
}

/// The display name of a program path; see [`spec_stem`] (Unix separators, or
/// Windows ones when `windows`).
pub fn stem_for(path: &str, windows: bool) -> (r: String)
    ensures
        r@ == spec_stem(path@, windows),
{
    let v = chars_of(path);
    match file_name(&v, windows) {
        Some(n) => {
            let mut d: usize = n.len();
            let mut found = false;
            assert(n@.subrange(0, n.len() as int) =~= n@);
            while d > 0 && !found
                invariant
                    d <= n.len(),
                    !found ==> last_dot(n@) == last_dot(n@.subrange(0, d as int)),
                    found ==> d > 0 && last_dot(n@) == d - 1,
                decreases d + (if found { 0int } else { 1int }),
            {
                proof {
                    let p = n@.subrange(0, d as int);
                    assert(p.drop_last() =~= n@.subrange(0, d - 1));
                }
                if n[d - 1] == '.' {
                    found = true;
                } else {
                    d = d - 1;
                }
            }
            proof {
                if !found {
                    assert(n@.subrange(0, 0) =~= Seq::<char>::empty());
                }
            }
            if found && d > 1 {
                let mut out: Vec<char> = Vec::new();
                let mut i: usize = 0;
                while i < d - 1
                    invariant
                        i <= d - 1 < n.len(),
                        out@ == n@.subrange(0, i as int),
                    decreases d - 1 - i,
                {
                    out.push(n[i]);
                    i = i + 1;
                    assert(out@ =~= n@.subrange(0, i as int));
                }
                string_of(out.as_slice())
            } else {
                string_of(n.as_slice())
            }
        },
        None => string_of(v.as_slice()),
    }
}

/// `Path::file_stem` of a Unix program path, or the path itself.
pub fn stem(path: &str) -> (r: String)
    ensures
        r@ == spec_stem(path@, false),
{
    stem_for(path, false)
}

/// The shell launcher: `$SHELL` (given as `shell`), or `/bin/sh` without it.
pub open spec fn spec_unix_discover(shell: Option<Seq<char>>) -> Seq<LauncherView> {
    let sh = match shell {
        Some(s) => s,
        None => FALLBACK_SHELL@,
    };
    seq![new_launcher(ID@, "default"@, spec_stem(sh, false), seq![sh], None)]
}

/// The built-in launchers on Unix, given the value of `SHELL`.
pub fn discover_unix(shell: Option<String>) -> (r: Vec<Launcher>)
    ensures
        lviews(r@) == spec_unix_discover(crate::launcher::opt_view(shell)),
{
    let sh = match shell {
        Some(s) => s,
        None => FALLBACK_SHELL.to_string(),
    };
    let ghost shv = sh@;
    let name = stem(sh.as_str());
    let mut cmd: Vec<String> = Vec::new();
    cmd.push(sh);
    assert(cmd.deep_view() =~= seq![shv]);
    let l = Launcher::new(ID, "default", name.as_str(), cmd);
    let mut out: Vec<Launcher> = Vec::new();
    out.push(l);
    proof {
        let want = new_launcher(ID@, "default"@, spec_stem(shv, false), seq![shv], None);
        assert(lview(l) == want);
        assert(lviews(out@) =~= seq![want]);
    }
    out
}

/// `PathBuf::join` on Windows for a relative `rest`: a `\` goes between unless
/// `base` is empty, ends with a separator, or is a bare drive (`C:`).
pub open spec fn windows_join(base: Seq<char>, rest: Seq<char>) -> Seq<char> {
    if base.len() == 0 || is_sep(base.last(), true) || (base.len() == 2 && base[1] == ':') {
        base + rest
    } else {
        base + seq!['\\'] + rest
    }
}

pub fn join_windows(base: &str, rest: &str) -> (r: String)
    ensures
        r@ == windows_join(base@, rest@),
{
    let b = chars_of(base);
    let t = chars_of(rest);
    let mut out = b.clone();
    if !(b.len() == 0 || b[b.len() - 1] == '/' || b[b.len() - 1] == '\\' || (b.len() == 2 && b[1]
        == ':')) {
        out.push('\\');
    }
    let mut i: usize = 0;
    let ghost o0 = out@;
    while i < t.len()
        invariant
            i <= t.len(),
            out@ == o0 + t@.subrange(0, i as int),
        decreases t.len() - i,
    {
        out.push(t[i]);
        i = i + 1;
        assert(out@ =~= o0 + t@.subrange(0, i as int));
    }
    assert(t@.subrange(0, t.len() as int) =~= t@);
    assert(out@ =~= windows_join(base@, rest@));
    string_of(out.as_slice())
}

/// The Windows directory when `SystemRoot` is not set.
pub const FALLBACK_SYSTEM_ROOT: &'static str = "C:\\Windows";

/// The built-in launchers on Windows, given `SystemRoot`, `ComSpec` and whether each
/// path is a file (`filef`): Windows PowerShell when its executable is there, then
/// cmd (`ComSpec` when that is a file, else `System32\cmd.exe`). Absolute paths,
/// because the pty layer does not search `PATH`.
pub open spec fn spec_windows_discover(
    system_root: Option<Seq<char>>,
    comspec: Option<Seq<char>>,
    filef: spec_fn(Seq<char>) -> bool,
) -> Seq<LauncherView> {
    let root = match system_root {
        Some(r) => r,
        None => FALLBACK_SYSTEM_ROOT@,
    };
    let ps = windows_join(root, "System32\\WindowsPowerShell\\v1.0\\powershell.exe"@);
    let cmd = match comspec {
        Some(c) => if filef(c) { c } else { windows_join(root, "System32\\cmd.exe"@) },
        None => windows_join(root, "System32\\cmd.exe"@),
    };
    (if filef(ps) {
        seq![new_launcher(ID@, "powershell"@, "Windows PowerShell"@, seq![ps, "-NoLogo"@], None)]
    } else {
        Seq::empty()
    }) + seq![new_launcher(ID@, "cmd"@, spec_stem(cmd, true), seq![cmd], None)]
}

/// The built-in launchers on Windows; see [`spec_windows_discover`].
pub fn discover_windows<G: Fn(&str) -> bool>(
    system_root: Option<String>,
    comspec: Option<String>,
    is_file: &G,
) -> (r: Vec<Launcher>)
    requires
        forall|k: &str| call_requires(*is_file, (k,)),
    ensures
        forall|filef: spec_fn(Seq<char>) -> bool|
            crate::launcher::cmdline::file_agrees(*is_file, filef) ==> lviews(r@)
                == #[trigger] spec_windows_discover(
                crate::launcher::opt_view(system_root),
                crate::launcher::opt_view(comspec),
                filef,
            ),
{
    let root = match &system_root {
        Some(r) => r.clone(),
        None => FALLBACK_SYSTEM_ROOT.to_string(),
    };
    let ps = join_windows(root.as_str(), "System32\\WindowsPowerShell\\v1.0\\powershell.exe");
    let has_ps = is_file(ps.as_str());
    let cmd = match &comspec {
        Some(c) => {
            let ok = is_file(c.as_str());
            if ok {
                c.clone()
            } else {
                join_windows(root.as_str(), "System32\\cmd.exe")
            }
        },
        None => join_windows(root.as_str(), "System32\\cmd.exe"),
    };
    let ghost psv = ps@;
    let ghost cmdv = cmd@;
    let mut out: Vec<Launcher> = Vec::new();
    if has_ps {
        let mut argv: Vec<String> = Vec::new();
        argv.push(ps.clone());
        argv.push("-NoLogo".to_string());
        assert(argv.deep_view() =~= seq![psv, "-NoLogo"@]);
        let l = Launcher::new(ID, "powershell", "Windows PowerShell", argv);
        assert(lview(l) == new_launcher(ID@, "powershell"@, "Windows PowerShell"@, seq![psv, "-NoLogo"@], None));
        out.push(l);
    }
    let ghost first = lviews(out@);
    let name = stem_for(cmd.as_str(), true);
    let mut argv: Vec<String> = Vec::new();
    argv.push(cmd);
    assert(argv.deep_view() =~= seq![cmdv]);
    let l = Launcher::new(ID, "cmd", name.as_str(), argv);
    assert(lview(l) == new_launcher(ID@, "cmd"@, spec_stem(cmdv, true), seq![cmdv], None));
    let ghost o0 = out@;
    out.push(l);
    assert(lviews(out@) =~= first + seq![lview(l)]);
    proof {
        assert forall|filef: spec_fn(Seq<char>) -> bool|
            crate::launcher::cmdline::file_agrees(*is_file, filef) implies lviews(out@)
                == #[trigger] spec_windows_discover(
                crate::launcher::opt_view(system_root),
                crate::launcher::opt_view(comspec),
                filef,
            ) by {
            let want = spec_windows_discover(
                crate::launcher::opt_view(system_root),
                crate::launcher::opt_view(comspec),
                filef,
            );
            assert(lviews(out@) =~= want);
        }
    }
    out
}

/// What `new-session` runs when it names no command: the first built-in launcher's
/// argv, or `/bin/sh` should there be none.
pub open spec fn spec_default_command(discovered: Seq<LauncherView>) -> Seq<Seq<char>> {
    if discovered.len() > 0 && discovered[0].command.len() > 0 {
        discovered[0].command
    } else {
        seq![FALLBACK_SHELL@]
    }
}

/// The default command: the first entry of the built-in menu (`discovered`), so the
/// two can never disagree.
pub fn default_command(discovered: &[Launcher]) -> (r: Vec<String>)
    ensures
        r.deep_view() == spec_default_command(lviews(discovered@)),
{
    if discovered.len() > 0 && discovered[0].command.len() > 0 {
        discovered[0].command.clone()
    } else {
        let mut v: Vec<String> = Vec::new();
        v.push(FALLBACK_SHELL.to_string());
        assert(v.deep_view() =~= seq![FALLBACK_SHELL@]);
        v
    }
}

} // verus!
