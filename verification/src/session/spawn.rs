//! What a new session runs, where, and with which environment, decided before the
//! pseudo-terminal is opened.
use vstd::prelude::*;
use crate::launcher::{Launcher, LauncherView, lviews, opt_view};
use crate::launcher::builtin::{default_command, spec_default_command};
use crate::launcher::cmdline::{file_agrees, glue_by, glue_unquoted_windows_exe};

verus! {

/// What to run and where; both come from the same launcher.
#[derive(Debug, Clone, Default)]
pub struct Launch {
    /// `None`: the built-in default shell.
    pub command: Option<Vec<String>>,
    /// `None`, or a directory that does not exist: the server's default directory.
    pub cwd: Option<String>,
}

/// The process a session starts.
#[derive(Debug, Clone)]
pub struct SpawnPlan {
    pub argv: Vec<String>,
    pub cwd: Option<String>,
    /// Variables set for the child, in order.
    pub env: Vec<(String, String)>,
}

#[derive(Debug, Clone, Copy, PartialEq, Eq, Structural)]
pub enum SpawnError {
    /// The command, or its program name, is empty.
    EmptyCommand,
}

impl SpawnError {
    pub fn message(&self) -> (r: String)
        ensures
            r@ == "empty command"@,
    {
        String::from_str("empty command")
    }
}

/// The argv asked for, or the default shell's.
pub open spec fn chosen_argv(command: Option<Vec<String>>, discovered: Seq<LauncherView>) -> Seq<Seq<char>> {
    match command {
        Some(c) => c.deep_view(),
        None => spec_default_command(discovered),
    }
}

/// The directory asked for when it exists, else the default one.
pub open spec fn spec_pick_cwd(asked: Option<Seq<char>>, dirf: spec_fn(Seq<char>) -> bool, default_cwd: Option<Seq<char>>) -> Option<Seq<char>> {
    match asked {
        Some(c) => if dirf(c) {
            Some(c)
        } else {
            default_cwd
        },
        None => default_cwd,
    }
}

/// The child's environment: the clients render like xterm, so `TERM` and `COLORTERM`
/// say so instead of inheriting the host's; on Windows, `HOME` is pointed at the
/// start directory when the inherited one is no directory (Git for Windows often sets
/// a `/c/Users/...` path that confuses the child).
pub open spec fn spec_env(windows: bool, cwd: Option<Seq<char>>, home_is_dir: bool) -> Seq<(Seq<char>, Seq<char>)> {
    let home = match cwd {
        Some(c) => if windows && !home_is_dir {
            seq![("HOME"@, c)]
        } else {
            Seq::empty()
        },
        None => Seq::empty(),
    };
    home + seq![("TERM"@, "xterm-256color"@), ("COLORTERM"@, "truecolor"@)]
}

pub open spec fn env_view(env: Seq<(String, String)>) -> Seq<(Seq<char>, Seq<char>)> {
    env.map_values(|p: (String, String)| (p.0@, p.1@))
}

fn push_var(env: &mut Vec<(String, String)>, k: &str, v: String)
    ensures
        env_view(final(env)@) == env_view(old(env)@).push((k@, v@)),
{
    let ghost e0 = env@;
    env.push((k.to_string(), v));
    assert(env_view(env@) =~= env_view(e0).push((k@, v@)));
}

/// Plans a session's process. An empty command, or one whose program is empty, is
/// refused. On Windows an unquoted program path split at its spaces is glued back
/// (`is_file` answers whether a path names a file). A start directory that does not
/// exist (`is_dir`) falls back to `default_cwd` instead of failing: profiles may come
/// from another machine.
pub fn plan_spawn<F: Fn(&str) -> bool, G: Fn(&str) -> bool>(
    launch: Launch,
    discovered: &[Launcher],
    windows: bool,
    is_file: &F,
    is_dir: &G,
    default_cwd: Option<String>,
    home_is_dir: bool,
) -> (r: Result<SpawnPlan, SpawnError>)
    requires
        forall|k: &str| call_requires(*is_file, (k,)),
        forall|k: &str| call_requires(*is_dir, (k,)),
    ensures
        ({
            let a = chosen_argv(launch.command, lviews(discovered@));
            if a.len() == 0 || a[0].len() == 0 {
                r == Err::<SpawnPlan, SpawnError>(SpawnError::EmptyCommand)
            } else {
                &&& r is Ok
                &&& forall|filef: spec_fn(Seq<char>) -> bool| #[trigger] file_agrees(*is_file, filef) ==> r->Ok_0.argv.deep_view() == if windows {
                    glue_by(a, filef)
                } else {
                    a
                }
                &&& forall|dirf: spec_fn(Seq<char>) -> bool| #[trigger] file_agrees(*is_dir, dirf) ==> opt_view(r->Ok_0.cwd) == spec_pick_cwd(opt_view(launch.cwd), dirf, opt_view(default_cwd))
                &&& env_view(r->Ok_0.env@) == spec_env(windows, opt_view(r->Ok_0.cwd), home_is_dir)
            }
        }),
{
    let argv = match launch.command {
        Some(c) => c,
        None => default_command(discovered),
    };
    if argv.len() == 0 || argv[0].unicode_len() == 0 {
        return Err(SpawnError::EmptyCommand);
    }
    let ghost a = argv.deep_view();
    assert(a[0] == argv@[0]@);
    let argv = if windows {
        glue_unquoted_windows_exe(argv, is_file)
    } else {
        argv
    };
    let ghost asked = opt_view(launch.cwd);
    let cwd = match launch.cwd {
        Some(c) => {
            if is_dir(c.as_str()) {
                Some(c)
            } else {
                default_cwd
            }
        },
        None => default_cwd,
    };
    let mut env: Vec<(String, String)> = Vec::new();
    assert(env_view(env@) =~= Seq::empty());
    match &cwd {
        Some(c) => {
            if windows && !home_is_dir {
                push_var(&mut env, "HOME", c.clone());
            }
        },
        None => {},
    }
    push_var(&mut env, "TERM", String::from_str("xterm-256color"));
    push_var(&mut env, "COLORTERM", String::from_str("truecolor"));
    proof {
        let home = match opt_view(cwd) {
            Some(c) => if windows && !home_is_dir {
                seq![("HOME"@, c)]
            } else {
                Seq::empty()
            },
            None => Seq::empty(),
        };
        assert(env_view(env@) =~= home + seq![("TERM"@, "xterm-256color"@), ("COLORTERM"@, "truecolor"@)]);
    }
    Ok(SpawnPlan { argv, cwd, env })
}

/// Where a session starts when it names no usable directory, in order of preference:
/// on Windows `USERPROFILE`, then `HOMEDRIVE` + `HOMEPATH`; then `HOME`; then the
/// platform's home directory.
pub open spec fn spec_cwd_candidates(
    windows: bool,
    userprofile: Option<Seq<char>>,
    homedrive: Option<Seq<char>>,
    homepath: Option<Seq<char>>,
    home: Option<Seq<char>>,
    user_home: Option<Seq<char>>,
) -> Seq<Seq<char>> {
    let w1 = match userprofile {
        Some(p) => if windows { seq![p] } else { Seq::empty() },
        None => Seq::empty(),
    };
    let w2 = match (homedrive, homepath) {
        (Some(d), Some(p)) => if windows { seq![d + p] } else { Seq::empty() },
        _ => Seq::empty(),
    };
    let h = match home {
        Some(p) => seq![p],
        None => Seq::empty(),
    };
    let u = match user_home {
        Some(p) => seq![p],
        None => Seq::empty(),
    };
    w1 + w2 + h + u
}

fn push_opt(v: &mut Vec<String>, s: Option<String>)
    ensures
        final(v).deep_view() == old(v).deep_view() + match opt_view(s) {
            Some(t) => seq![t],
            None => Seq::<Seq<char>>::empty(),
        },
{
    let ghost v0 = v.deep_view();
    match s {
        Some(t) => {
            v.push(t);
            assert(v.deep_view() =~= v0 + seq![v@.last()@]);
        },
        None => {
            assert(v.deep_view() =~= v0 + Seq::<Seq<char>>::empty());
        },
    }
}

pub fn cwd_candidates(
    windows: bool,
    userprofile: Option<String>,
    homedrive: Option<String>,
    homepath: Option<String>,
    home: Option<String>,
    user_home: Option<String>,
) -> (r: Vec<String>)
    ensures
        r.deep_view() == spec_cwd_candidates(
            windows,
            opt_view(userprofile),
            opt_view(homedrive),
            opt_view(homepath),
            opt_view(home),
            opt_view(user_home),
        ),
{
    let mut v: Vec<String> = Vec::new();
    assert(v.deep_view() =~= Seq::<Seq<char>>::empty());
    let ghost up = opt_view(userprofile);
    let ghost hd = opt_view(homedrive);
    let ghost hp = opt_view(homepath);
    if windows {
        push_opt(&mut v, userprofile);
        let joined = match (homedrive, homepath) {
            (Some(d), Some(p)) => {
                let mut j = d;
                j.append(p.as_str());
                Some(j)
            },
            _ => None,
        };
        push_opt(&mut v, joined);
    }
    push_opt(&mut v, home);
    push_opt(&mut v, user_home);
    proof {
        if !windows {
            assert(v.deep_view() =~= spec_cwd_candidates(windows, up, hd, hp, opt_view(home), opt_view(user_home)));
        } else {
            assert(v.deep_view() =~= spec_cwd_candidates(windows, up, hd, hp, opt_view(home), opt_view(user_home)));
        }
    }
    v
}

/// The first candidate that is a directory, else the current directory when it is
/// one.
pub open spec fn spec_pick_default_cwd(cands: Seq<Seq<char>>, current: Option<Seq<char>>, dirf: spec_fn(Seq<char>) -> bool) -> Option<Seq<char>>
    decreases cands.len(),
{
    if cands.len() == 0 {
        match current {
            Some(c) => if dirf(c) { Some(c) } else { None },
            None => None,
        }
    } else if dirf(cands[0]) {
        Some(cands[0])
    } else {
        spec_pick_default_cwd(cands.drop_first(), current, dirf)
    }
}

pub fn pick_default_cwd<G: Fn(&str) -> bool>(cands: &Vec<String>, current: Option<String>, is_dir: &G) -> (r: Option<String>)
    requires
        forall|k: &str| call_requires(*is_dir, (k,)),
    ensures
        forall|dirf: spec_fn(Seq<char>) -> bool| #[trigger] file_agrees(*is_dir, dirf) ==> opt_view(r) == spec_pick_default_cwd(cands.deep_view(), opt_view(current), dirf),
{
    let mut i: usize = 0;
    let ghost cv = cands.deep_view();
    assert(cv.subrange(0, cv.len() as int) =~= cv);
    while i < cands.len()
        invariant
            i <= cands.len(),
            cv == cands.deep_view(),
            forall|k: &str| call_requires(*is_dir, (k,)),
            forall|dirf: spec_fn(Seq<char>) -> bool| #[trigger] file_agrees(*is_dir, dirf) ==> spec_pick_default_cwd(cv, opt_view(current), dirf) == spec_pick_default_cwd(cv.subrange(i as int, cv.len() as int), opt_view(current), dirf),
        decreases cands.len() - i,
    {
        let hit = is_dir(cands[i].as_str());
        proof {
            assert forall|dirf: spec_fn(Seq<char>) -> bool| #[trigger] file_agrees(*is_dir, dirf) implies spec_pick_default_cwd(cv, opt_view(current), dirf) == (if hit { Some(cv[i as int]) } else { spec_pick_default_cwd(cv.subrange(i + 1, cv.len() as int), opt_view(current), dirf) }) by {
                let rest = cv.subrange(i as int, cv.len() as int);
                assert(rest[0] == cv[i as int]);
                assert(rest.drop_first() =~= cv.subrange(i + 1, cv.len() as int));
                assert(hit == dirf(cands@[i as int]@));
            }
        }
        if hit {
            return Some(cands[i].clone());
        }
        i = i + 1;
    }
    assert(cv.subrange(i as int, cv.len() as int) =~= Seq::<Seq<char>>::empty());
    match current {
        Some(c) => {
            if is_dir(c.as_str()) {
                Some(c)
            } else {
                None
            }
        },
        None => None,
    }
}

/// A session's screen at one moment: the repaint that reproduces it, the size it was
/// rendered at, and the stream position it corresponds to (taken together).
pub struct Snapshot {
    pub end_seq: u64,
    pub repaint: Vec<u8>,
    pub cols: u16,
    pub rows: u16,
}

} // verus!
