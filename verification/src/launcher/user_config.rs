//! Launchers the user wrote in octoterm's own config.toml (`[[launcher]]`).
use vstd::prelude::*;
use crate::config::LauncherSpec;
use crate::text::{trim, trimmed_chars, chars_of};
use crate::launcher::{Launcher, LauncherView, lview, lviews, new_launcher};
use crate::launcher::cmdline::{expand_tilde, spec_expand_tilde};

verus! {

pub const ID: &'static str = "config";

pub struct UserConfig {
    specs: Vec<LauncherSpec>,
}

impl UserConfig {
    pub closed spec fn specs(&self) -> Seq<LauncherSpec> {
        self.specs@
    }

    pub fn new(specs: Vec<LauncherSpec>) -> (u: Self)
        ensures
            u.specs() == specs@,
    {
        UserConfig { specs }
    }
}

/// `Some(h)` as a view.
pub open spec fn home_view(home: Option<&str>) -> Option<Seq<char>> {
    match home {
        Some(h) => Some(h@),
        None => None,
    }
}

/// The launcher one `[[launcher]]` entry gives, or `None` when its command is empty
/// or its program is blank. A blank name falls back to the program; the name is the
/// id, so reordering config.toml keeps "the one used last".
pub open spec fn spec_user_launcher(spec: LauncherSpec, home: Option<Seq<char>>) -> Option<LauncherView> {
    let cmd = spec.command.deep_view();
    if cmd.len() == 0 || trim(cmd[0]).len() == 0 {
        None
    } else {
        let name = if trim(spec.name@).len() == 0 {
            cmd[0]
        } else {
            spec.name@
        };
        Some(
            new_launcher(
                "config"@,
                name,
                name,
                cmd,
                match spec.cwd {
                    Some(c) => Some(spec_expand_tilde(c@, home)),
                    None => None,
                },
            ),
        )
    }
}

/// All launchers of `specs`, in order, skipping the broken ones.
pub open spec fn spec_user_build(specs: Seq<LauncherSpec>, home: Option<Seq<char>>) -> Seq<LauncherView>
    decreases specs.len(),
{
    if specs.len() == 0 {
        Seq::empty()
    } else {
        spec_user_build(specs.drop_last(), home) + match spec_user_launcher(specs.last(), home) {
            Some(l) => seq![l],
            None => Seq::empty(),
        }
    }
}

/// Launchers from config.toml entries; `home` expands a `~` in `cwd`. A broken entry
/// only drops itself.
pub fn build(specs: &[LauncherSpec], home: Option<&str>) -> (out: Vec<Launcher>)
    ensures
        lviews(out@) == spec_user_build(specs@, home_view(home)),
{
    let mut out: Vec<Launcher> = Vec::new();
    let mut i: usize = 0;
    assert(specs@.subrange(0, 0) =~= Seq::<LauncherSpec>::empty());
    while i < specs.len()
        invariant
            i <= specs.len(),
            lviews(out@) == spec_user_build(specs@.subrange(0, i as int), home_view(home)),
        decreases specs.len() - i,
    {
        let spec = &specs[i];
        let ghost pre = specs@.subrange(0, i + 1);
        assert(pre.drop_last() =~= specs@.subrange(0, i as int));
        assert(pre.last() == *spec);
        let ghost old_out = lviews(out@);
        if spec.command.len() == 0 {
            i = i + 1;
            continue;
        }
        let prog = trimmed_chars(spec.command[0].as_str());
        if prog.len() == 0 {
            i = i + 1;
            continue;
        }
        let blank = trimmed_chars(spec.name.as_str()).len() == 0;
        let name = if blank {
            spec.command[0].clone()
        } else {
            spec.name.clone()
        };
        let cwd = match &spec.cwd {
            Some(c) => Some(expand_tilde(c.as_str(), home)),
            None => None,
        };
        let l = Launcher::new(ID, name.as_str(), name.as_str(), spec.command.clone()).with_cwd(cwd);
        proof {
            reveal_strlit("config");
        }
        out.push(l);
        assert(lviews(out@) =~= old_out.push(lview(l)));
        i = i + 1;
    }
    assert(specs@.subrange(0, specs.len() as int) =~= specs@);
    out
}

/// The user's home directory, as `directories` finds it (from the environment and
/// the user database). What it finds depends on the machine; nothing is promised
/// of it.
#[verifier::external_body]
pub(crate) fn home_dir() -> (r: Option<String>) {
    directories::UserDirs::new().map(|d| d.home_dir().to_string_lossy().into_owned())
}

impl crate::launcher::LauncherProvider for UserConfig {
    fn id(&self) -> (r: &'static str)
        ensures
            r@ == ID@,
    {
        ID
    }

    /// The configured entries as launchers, a `~` in a `cwd` expanded to the home
    /// directory found on this machine (none found: left as written).
    fn discover(&self) -> (r: Result<Vec<Launcher>, anyhow::Error>)
        ensures
            r matches Ok(v) && exists|home: Option<Seq<char>>|
                #[trigger] spec_user_build(self.specs(), home) == lviews(v@),
    {
        let home = home_dir();
        let h = match &home {
            Some(x) => Some(x.as_str()),
            None => None,
        };
        let out = build(self.specs.as_slice(), h);
        assert(spec_user_build(self.specs(), home_view(h)) == lviews(out@));
        Ok(out)
    }
}

} // verus!
