//! iTerm2 profiles ("bookmarks"): `New Bookmarks` in the main plist and the JSON
//! files under `DynamicProfiles/`. Both use the same keys, so each is first reduced
//! to [`Raw`] and the decisions are made once.
//!
//! Only profiles whose command or working directory differs from the default become
//! launchers: a profile that changes colours alone is, for "new session", the same
//! as the built-in shell.
use vstd::prelude::*;
use crate::json::{Json, spec_get, parse_json, spec_parse_json};
use crate::property_list::{PlistValue, spec_dict_get, spec_plist_str, dict_get, parse_plist, spec_parse_plist};
use crate::text::{trim, trimmed_chars, string_of, str_eq};
use crate::launcher::{Launcher, LauncherView, lview, lviews, new_launcher};
use crate::launcher::cmdline::{spec_split_posix, split_posix, expand_tilde, spec_expand_tilde, join_unix, path_join, file_agrees};
use crate::launcher::user_config::home_view;
use crate::launcher::windows_terminal::overlay::{spec_str_field, str_field};

verus! {

pub const ID: &'static str = "iterm2";

/// The provider of iTerm2 profiles.
pub struct ITerm2;

impl ITerm2 {
    pub fn new() -> (r: Self)
        ensures
            r == ITerm2,
    {
        ITerm2
    }
}

/// The keys of a profile this module reads, already taken out of the plist or JSON
/// and trimmed; a blank value counts as missing.
#[derive(Debug, Default, Clone, PartialEq, Eq)]
pub struct Raw {
    pub guid: Option<String>,
    pub name: Option<String>,
    /// `"No"` | `"Yes"` | `"Custom Shell"`
    pub custom_command: Option<String>,
    pub command: Option<String>,
    /// `"No"` | `"Yes"` | `"Recycle"` | `"Advanced"`
    pub custom_directory: Option<String>,
    pub working_directory: Option<String>,
}

pub ghost struct RawView {
    pub guid: Option<Seq<char>>,
    pub name: Option<Seq<char>>,
    pub custom_command: Option<Seq<char>>,
    pub command: Option<Seq<char>>,
    pub custom_directory: Option<Seq<char>>,
    pub working_directory: Option<Seq<char>>,
}

pub open spec fn rview(r: Raw) -> RawView {
    RawView {
        guid: crate::launcher::opt_view(r.guid),
        name: crate::launcher::opt_view(r.name),
        custom_command: crate::launcher::opt_view(r.custom_command),
        command: crate::launcher::opt_view(r.command),
        custom_directory: crate::launcher::opt_view(r.custom_directory),
        working_directory: crate::launcher::opt_view(r.working_directory),
    }
}

pub open spec fn rviews(v: Seq<Raw>) -> Seq<RawView> {
    v.map_values(|r: Raw| rview(r))
}

/// A value trimmed, and dropped when blank.
pub open spec fn spec_clean(o: Option<Seq<char>>) -> Option<Seq<char>> {
    match o {
        Some(s) => if trim(s).len() == 0 {
            None
        } else {
            Some(trim(s))
        },
        None => None,
    }
}

fn clean(s: Option<&str>) -> (r: Option<String>)
    ensures
        crate::launcher::opt_view(r) == spec_clean(match s {
            Some(x) => Some(x@),
            None => None,
        }),
{
    match s {
        Some(x) => {
            let t = trimmed_chars(x);
            if t.len() == 0 {
                None
            } else {
                Some(string_of(t.as_slice()))
            }
        },
        None => None,
    }
}

/// A string entry of a plist dictionary.
pub open spec fn plist_field(d: Seq<(String, PlistValue)>, key: Seq<char>) -> Option<Seq<char>> {
    spec_clean(
        match spec_dict_get(d, key) {
            Some(v) => spec_plist_str(v),
            None => None,
        },
    )
}

/// The profile keys of a plist dictionary.
pub open spec fn spec_raw_of_dict(d: Seq<(String, PlistValue)>) -> RawView {
    RawView {
        guid: plist_field(d, "Guid"@),
        name: plist_field(d, "Name"@),
        custom_command: plist_field(d, "Custom Command"@),
        command: plist_field(d, "Command"@),
        custom_directory: plist_field(d, "Custom Directory"@),
        working_directory: plist_field(d, "Working Directory"@),
    }
}

/// The dictionaries among the bookmarks, as profiles.
pub open spec fn raws_of_bookmarks(list: Seq<PlistValue>) -> Seq<RawView>
    decreases list.len(),
{
    if list.len() == 0 {
        Seq::empty()
    } else {
        raws_of_bookmarks(list.drop_last()) + match list.last() {
            PlistValue::Dictionary(d) => seq![spec_raw_of_dict(d@)],
            _ => Seq::empty(),
        }
    }
}

/// `New Bookmarks` of the main preferences plist.
pub open spec fn spec_from_prefs_plist(value: PlistValue) -> Seq<RawView> {
    match value {
        PlistValue::Dictionary(d) => match spec_dict_get(d@, "New Bookmarks"@) {
            Some(b) => match b {
                PlistValue::Array(list) => raws_of_bookmarks(list@),
                _ => Seq::empty(),
            },
            None => Seq::empty(),
        },
        _ => Seq::empty(),
    }
}

fn plist_get(d: &Vec<(String, PlistValue)>, key: &str) -> (r: Option<String>)
    ensures
        crate::launcher::opt_view(r) == plist_field(d@, key@),
{
    match dict_get(d, key) {
        Some(v) => clean(v.as_string()),
        None => clean(None),
    }
}

fn raw_of_dict(d: &Vec<(String, PlistValue)>) -> (r: Raw)
    ensures
        rview(r) == spec_raw_of_dict(d@),
{
    Raw {
        guid: plist_get(d, "Guid"),
        name: plist_get(d, "Name"),
        custom_command: plist_get(d, "Custom Command"),
        command: plist_get(d, "Command"),
        custom_directory: plist_get(d, "Custom Directory"),
        working_directory: plist_get(d, "Working Directory"),
    }
}

/// The profiles of the main preferences plist (`New Bookmarks`); an entry that is
/// not a dictionary is skipped, missing keys give nothing.
pub fn from_prefs_plist(value: &PlistValue) -> (r: Vec<Raw>)
    ensures
        rviews(r@) == spec_from_prefs_plist(*value),
{
    let mut out: Vec<Raw> = Vec::new();
    let d = match value.as_dictionary() {
        Some(d) => d,
        None => {
            assert(rviews(out@) =~= Seq::<RawView>::empty());
            return out;
        },
    };
    let list = match dict_get(d, "New Bookmarks") {
        Some(b) => match b.as_array() {
            Some(l) => l,
            None => {
                assert(rviews(out@) =~= Seq::<RawView>::empty());
                return out;
            },
        },
        None => {
            assert(rviews(out@) =~= Seq::<RawView>::empty());
            return out;
        },
    };
    let mut i: usize = 0;
    assert(rviews(out@) =~= raws_of_bookmarks(list@.subrange(0, 0)));
    while i < list.len()
        invariant
            i <= list.len(),
            rviews(out@) == raws_of_bookmarks(list@.subrange(0, i as int)),
        decreases list.len() - i,
    {
        proof {
            let p = list@.subrange(0, i + 1);
            assert(p.drop_last() =~= list@.subrange(0, i as int));
        }
        let ghost o0 = rviews(out@);
        match list[i].as_dictionary() {
            Some(e) => {
                let r = raw_of_dict(e);
                out.push(r);
                assert(rviews(out@) =~= o0 + seq![rview(r)]);
            },
            None => {
                assert(rviews(out@) =~= o0 + Seq::<RawView>::empty());
            },
        }
        i = i + 1;
    }
    assert(list@.subrange(0, list.len() as int) =~= list@);
    out
}

/// The profile keys of a dynamic-profile JSON entry.
pub open spec fn spec_raw_of_json(p: Json) -> RawView {
    RawView {
        guid: spec_str_field(p, "Guid"@),
        name: spec_str_field(p, "Name"@),
        custom_command: spec_str_field(p, "Custom Command"@),
        command: spec_str_field(p, "Command"@),
        custom_directory: spec_str_field(p, "Custom Directory"@),
        working_directory: spec_str_field(p, "Working Directory"@),
    }
}

/// `Profiles` of a dynamic-profile document.
pub open spec fn spec_from_dynamic_json(value: Json) -> Seq<RawView> {
    match spec_get(value, "Profiles"@) {
        Some(l) => match l {
            Json::Array(list) => list@.map_values(|p: Json| spec_raw_of_json(p)),
            _ => Seq::empty(),
        },
        None => Seq::empty(),
    }
}

/// The profiles of a dynamic-profile document (`Profiles`); missing keys give
/// nothing.
pub fn from_dynamic_json(value: &Json) -> (r: Vec<Raw>)
    ensures
        rviews(r@) == spec_from_dynamic_json(*value),
{
    let mut out: Vec<Raw> = Vec::new();
    let list = match value.get("Profiles") {
        Some(l) => match l.as_array() {
            Some(l) => l,
            None => {
                assert(rviews(out@) =~= Seq::<RawView>::empty());
                return out;
            },
        },
        None => {
            assert(rviews(out@) =~= Seq::<RawView>::empty());
            return out;
        },
    };
    let mut i: usize = 0;
    while i < list.len()
        invariant
            i <= list.len(),
            rviews(out@) == list@.subrange(0, i as int).map_values(|p: Json| spec_raw_of_json(p)),
        decreases list.len() - i,
    {
        let p = &list[i];
        let r = Raw {
            guid: str_field(p, "Guid"),
            name: str_field(p, "Name"),
            custom_command: str_field(p, "Custom Command"),
            command: str_field(p, "Command"),
            custom_directory: str_field(p, "Custom Directory"),
            working_directory: str_field(p, "Working Directory"),
        };
        let ghost o0 = rviews(out@);
        out.push(r);
        assert(rviews(out@) =~= o0.push(rview(r)));
        i = i + 1;
        assert(rviews(out@) =~= list@.subrange(0, i as int).map_values(|p: Json| spec_raw_of_json(p)));
    }
    assert(list@.subrange(0, list.len() as int) =~= list@);
    out
}

/// `Custom Command` is `Yes` or `Custom Shell`.
pub open spec fn spec_custom_cmd(r: RawView) -> bool {
    r.custom_command == Some("Yes"@) || r.custom_command == Some("Custom Shell"@)
}

/// `Custom Directory` is `Yes` or `Advanced` (`Recycle`, "the previous window's
/// directory", means nothing here).
pub open spec fn spec_custom_dir(r: RawView) -> bool {
    r.custom_directory == Some("Yes"@) || r.custom_directory == Some("Advanced"@)
}

/// The argv of a profile: its own command split like a shell (none when it is
/// marked custom but blank or empty), else the default command.
pub open spec fn spec_raw_command(r: RawView, default_command: Seq<Seq<char>>) -> Option<Seq<Seq<char>>> {
    if spec_custom_cmd(r) {
        match r.command {
            Some(c) => if spec_split_posix(c).len() == 0 {
                None
            } else {
                Some(spec_split_posix(c))
            },
            None => None,
        }
    } else {
        Some(default_command)
    }
}

/// The working directory of a profile, `~` expanded against `home`.
pub open spec fn spec_raw_cwd(r: RawView, home: Option<Seq<char>>) -> Option<Seq<char>> {
    if spec_custom_dir(r) {
        match r.working_directory {
            Some(d) => Some(spec_expand_tilde(d, home)),
            None => None,
        }
    } else {
        None
    }
}

/// The launcher of one profile: none without a name, with a broken custom command,
/// or when neither the command nor the directory differs from the default.
pub open spec fn spec_iterm_launcher(
    r: RawView,
    default_command: Seq<Seq<char>>,
    home: Option<Seq<char>>,
) -> Option<LauncherView> {
    match r.name {
        Some(name) => match spec_raw_command(r, default_command) {
            Some(cmd) => if !spec_custom_cmd(r) && spec_raw_cwd(r, home) is None {
                None
            } else {
                Some(
                    new_launcher(
                        ID@,
                        match r.guid {
                            Some(g) => g,
                            None => name,
                        },
                        name,
                        cmd,
                        spec_raw_cwd(r, home),
                    ),
                )
            },
            None => None,
        },
        None => None,
    }
}

/// The launchers of `raws`, in order.
pub open spec fn spec_iterm_build(
    raws: Seq<RawView>,
    default_command: Seq<Seq<char>>,
    home: Option<Seq<char>>,
) -> Seq<LauncherView>
    decreases raws.len(),
{
    if raws.len() == 0 {
        Seq::empty()
    } else {
        spec_iterm_build(raws.drop_last(), default_command, home) + match spec_iterm_launcher(
            raws.last(),
            default_command,
            home,
        ) {
            Some(l) => seq![l],
            None => Seq::empty(),
        }
    }
}

/// Law: a profile whose `Custom Directory` is `Advanced` is imported exactly as if it
/// were `Yes`.
pub proof fn an_advanced_directory_counts_as_custom(
    r: RawView,
    default_command: Seq<Seq<char>>,
    home: Option<Seq<char>>,
)
    requires
        r.custom_directory == Some("Advanced"@),
    ensures
        spec_iterm_launcher(r, default_command, home) == spec_iterm_launcher(
            RawView { custom_directory: Some("Yes"@), ..r },
            default_command,
            home,
        ),
{
}

/// Law: a named profile that keeps the default command, has `Custom Directory` set
/// to `Advanced` and a working directory `w`, becomes one launcher that runs the
/// default command in `w` (`~` expanded), whatever list it stands in alone.
pub proof fn an_advanced_directory_is_used(
    r: RawView,
    w: Seq<char>,
    default_command: Seq<Seq<char>>,
    home: Option<Seq<char>>,
)
    requires
        r.name is Some,
        r.custom_command != Some("Yes"@),
        r.custom_command != Some("Custom Shell"@),
        r.custom_directory == Some("Advanced"@),
        r.working_directory == Some(w),
    ensures
        spec_iterm_launcher(r, default_command, home) is Some,
        spec_iterm_launcher(r, default_command, home)->0.command == default_command,
        spec_iterm_launcher(r, default_command, home)->0.cwd == Some(spec_expand_tilde(w, home)),
        spec_iterm_build(seq![r], default_command, home) == seq![
            spec_iterm_launcher(r, default_command, home)->0,
        ],
{
    let l = spec_iterm_launcher(r, default_command, home)->0;
    assert(seq![r].drop_last() =~= Seq::<RawView>::empty());
    assert(seq![r].last() == r);
    assert(spec_iterm_build(Seq::<RawView>::empty(), default_command, home) =~= Seq::<LauncherView>::empty());
    assert(Seq::<LauncherView>::empty() + seq![l] =~= seq![l]);
}

/// Law: `Custom Command` set to `Custom Shell` is imported exactly as `Yes`.
pub proof fn a_custom_shell_counts_as_a_custom_command(
    r: RawView,
    default_command: Seq<Seq<char>>,
    home: Option<Seq<char>>,
)
    requires
        r.custom_command == Some("Custom Shell"@),
    ensures
        spec_iterm_launcher(r, default_command, home) == spec_iterm_launcher(
            RawView { custom_command: Some("Yes"@), ..r },
            default_command,
            home,
        ),
{
}

/// Law: any `Custom Directory` other than `Yes` or `Advanced` (`Recycle`, `No`, none)
/// means the working directory is not read: the profile imports as if it had none.
pub proof fn other_directory_settings_ignore_the_directory(
    r: RawView,
    default_command: Seq<Seq<char>>,
    home: Option<Seq<char>>,
)
    requires
        r.custom_directory != Some("Yes"@),
        r.custom_directory != Some("Advanced"@),
    ensures
        spec_iterm_launcher(r, default_command, home) == spec_iterm_launcher(
            RawView { working_directory: None, ..r },
            default_command,
            home,
        ),
        spec_iterm_launcher(r, default_command, home) is Some ==> spec_iterm_launcher(
            r,
            default_command,
            home,
        )->0.cwd is None,
{
}

/// Law: a profile is imported only when it has a name and differs from the default
/// session in its command or its directory. One with a custom command runs that
/// command split like a shell (and is dropped when that gives no word); it is known
/// as `iterm2:` and its GUID, or its name when it has no GUID.
pub proof fn what_a_profile_becomes(
    r: RawView,
    default_command: Seq<Seq<char>>,
    home: Option<Seq<char>>,
)
    ensures
        r.name is None ==> spec_iterm_launcher(r, default_command, home) is None,
        r.custom_command != Some("Yes"@) && r.custom_command != Some("Custom Shell"@)
            && r.custom_directory != Some("Yes"@) && r.custom_directory != Some("Advanced"@)
            ==> spec_iterm_launcher(r, default_command, home) is None,
        (r.custom_command == Some("Yes"@) || r.custom_command == Some("Custom Shell"@)) && r.name is Some
            ==> match r.command {
            Some(c) => if spec_split_posix(c).len() == 0 {
                spec_iterm_launcher(r, default_command, home) is None
            } else {
                &&& spec_iterm_launcher(r, default_command, home) is Some
                &&& spec_iterm_launcher(r, default_command, home)->0.command == spec_split_posix(c)
            },
            None => spec_iterm_launcher(r, default_command, home) is None,
        },
        spec_iterm_launcher(r, default_command, home) is Some ==> {
            &&& r.name is Some
            &&& spec_iterm_launcher(r, default_command, home)->0.name == r.name->0
            &&& spec_iterm_launcher(r, default_command, home)->0.id == ID@ + seq![':'] + match r.guid {
                Some(g) => g,
                None => r.name->0,
            }
        },
{
}

fn is_one_of(o: &Option<String>, a: &str, b: &str) -> (r: bool)
    ensures
        r == (crate::launcher::opt_view(*o) == Some(a@) || crate::launcher::opt_view(*o) == Some(
            b@,
        )),
{
    match o {
        Some(s) => str_eq(s.as_str(), a) || str_eq(s.as_str(), b),
        None => false,
    }
}

fn copy_argv(v: &[String]) -> (r: Vec<String>)
    ensures
        r.deep_view() == v@.map_values(|s: String| s@),
{
    let mut out: Vec<String> = Vec::new();
    let mut i: usize = 0;
    while i < v.len()
        invariant
            i <= v.len(),
            out.deep_view() == v@.subrange(0, i as int).map_values(|s: String| s@),
        decreases v.len() - i,
    {
        let ghost o0 = out.deep_view();
        let c = v[i].clone();
        assert(c@ == v@[i as int]@);
        out.push(c);
        assert(out.deep_view() =~= o0.push(c@));
        assert(out.deep_view() =~= v@.subrange(0, i + 1).map_values(|s: String| s@));
        i = i + 1;
    }
    assert(v@.subrange(0, v.len() as int) =~= v@);
    out
}

/// The launcher of one profile; see [`spec_iterm_launcher`].
fn raw_launcher(raw: &Raw, default_command: &[String], home: Option<&str>) -> (r: Option<Launcher>)
    ensures
        match r {
            Some(l) => spec_iterm_launcher(rview(*raw), default_command@.map_values(|s: String| s@), home_view(home))
                == Some(lview(l)),
            None => spec_iterm_launcher(rview(*raw), default_command@.map_values(|s: String| s@), home_view(home))
                is None,
        },
{
    let name = match &raw.name {
        Some(n) => n,
        None => {
            return None;
        },
    };
    let custom_cmd = is_one_of(&raw.custom_command, "Yes", "Custom Shell");
    let command = if custom_cmd {
        match &raw.command {
            Some(c) => {
                let argv = split_posix(c.as_str());
                if argv.len() == 0 {
                    return None;
                }
                argv
            },
            None => {
                return None;
            },
        }
    } else {
        copy_argv(default_command)
    };
    let custom_dir = is_one_of(&raw.custom_directory, "Yes", "Advanced");
    let cwd = if custom_dir {
        match &raw.working_directory {
            Some(d) => Some(expand_tilde(d.as_str(), home)),
            None => None,
        }
    } else {
        None
    };
    if !custom_cmd && cwd.is_none() {
        return None;
    }
    let local_id = match &raw.guid {
        Some(g) => g,
        None => name,
    };
    let l = Launcher::new(ID, local_id.as_str(), name.as_str(), command).with_cwd(cwd);
    Some(l)
}

/// Launchers of the profiles that differ from the default in command or directory.
/// `default_command` is what runs without a custom command (the built-in shell);
/// `home` expands `~` in working directories.
pub fn build(raws: &[Raw], default_command: &[String], home: Option<&str>) -> (out: Vec<Launcher>)
    ensures
        lviews(out@) == spec_iterm_build(rviews(raws@), default_command@.map_values(|s: String| s@), home_view(home)),
{
    let ghost dc = default_command@.map_values(|s: String| s@);
    let mut out: Vec<Launcher> = Vec::new();
    let mut i: usize = 0;
    assert(rviews(raws@.subrange(0, 0)) =~= Seq::<RawView>::empty());
    while i < raws.len()
        invariant
            i <= raws.len(),
            dc == default_command@.map_values(|s: String| s@),
            lviews(out@) == spec_iterm_build(rviews(raws@.subrange(0, i as int)), dc, home_view(home)),
        decreases raws.len() - i,
    {
        proof {
            let p = rviews(raws@.subrange(0, i + 1));
            assert(p.drop_last() =~= rviews(raws@.subrange(0, i as int)));
            assert(p.last() == rview(raws@[i as int]));
        }
        let ghost o0 = lviews(out@);
        match raw_launcher(&raws[i], default_command, home) {
            Some(l) => {
                out.push(l);
                assert(lviews(out@) =~= o0 + seq![lview(l)]);
            },
            None => {
                assert(lviews(out@) =~= o0 + Seq::<LauncherView>::empty());
            },
        }
        i = i + 1;
    }
    assert(raws@.subrange(0, raws.len() as int) =~= raws@);
    out
}

/// iTerm2's preferences file name.
pub open spec fn prefs_file() -> Seq<char> {
    "com.googlecode.iterm2.plist"@
}

/// The preferences file at its standard place under `home`.
pub open spec fn spec_standard_prefs(home: Seq<char>) -> Seq<char> {
    path_join(path_join(home, "Library/Preferences"@), prefs_file())
}

/// The preferences file in the custom folder the standard preferences point at, when
/// loading from a custom folder is switched on and the folder is not blank.
pub open spec fn spec_custom_prefs(home: Seq<char>, standard: Option<PlistValue>) -> Option<Seq<char>> {
    match standard {
        Some(PlistValue::Dictionary(d)) => {
            let enabled = match spec_dict_get(d@, "LoadPrefsFromCustomFolder"@) {
                Some(PlistValue::Boolean(b)) => b,
                _ => false,
            };
            match spec_dict_get(d@, "PrefsCustomFolder"@) {
                Some(PlistValue::String(f)) => if !enabled || trim(f@).len() == 0 {
                    None
                } else {
                    Some(path_join(spec_expand_tilde(f@, Some(home)), prefs_file()))
                },
                _ => None,
            }
        },
        _ => None,
    }
}

/// Where iTerm2's preferences are read from: the custom folder's file when it is
/// switched on and exists (the standard copy is stale then), else the standard file;
/// nothing without a home directory. `standard` is the standard file parsed, when it
/// could be.
pub open spec fn spec_prefs_path(home: Option<Seq<char>>, standard: Option<PlistValue>, filef: spec_fn(Seq<char>) -> bool) -> Option<Seq<char>> {
    match home {
        None => None,
        Some(h) => match spec_custom_prefs(h, standard) {
            Some(c) => if filef(c) {
                Some(c)
            } else {
                Some(spec_standard_prefs(h))
            },
            None => Some(spec_standard_prefs(h)),
        },
    }
}

fn standard_prefs(home: &str) -> (r: String)
    ensures
        r@ == spec_standard_prefs(home@),
{
    let dir = join_unix(home, "Library/Preferences");
    join_unix(dir.as_str(), "com.googlecode.iterm2.plist")
}

fn custom_prefs(home: &str, standard: Option<&PlistValue>) -> (r: Option<String>)
    ensures
        crate::launcher::opt_view(r) == spec_custom_prefs(home@, match standard {
            Some(v) => Some(*v),
            None => None,
        }),
{
    let d = match standard {
        Some(v) => match v.as_dictionary() {
            Some(d) => d,
            None => return None,
        },
        None => return None,
    };
    let enabled = match dict_get(d, "LoadPrefsFromCustomFolder") {
        Some(PlistValue::Boolean(b)) => *b,
        _ => false,
    };
    let folder = match dict_get(d, "PrefsCustomFolder") {
        Some(PlistValue::String(f)) => f,
        _ => return None,
    };
    let t = trimmed_chars(folder.as_str());
    if !enabled || t.len() == 0 {
        return None;
    }
    let dir = expand_tilde(folder.as_str(), Some(home));
    Some(join_unix(dir.as_str(), "com.googlecode.iterm2.plist"))
}

/// The standard preferences file's bytes parsed, when they are a plist.
pub open spec fn parsed_standard(bytes: Option<Seq<u8>>) -> Option<PlistValue> {
    match bytes {
        Some(b) => spec_parse_plist(b),
        None => None,
    }
}

/// Where the preferences are read from, given the standard file's bytes (`None` when
/// it could not be read) and a file-existence check.
pub fn prefs_path<G: Fn(&str) -> bool>(home: Option<&str>, standard: Option<&[u8]>, is_file: &G) -> (r: Option<String>)
    requires
        forall|k: &str| call_requires(*is_file, (k,)),
    ensures
        forall|filef: spec_fn(Seq<char>) -> bool| #[trigger] file_agrees(*is_file, filef) ==> crate::launcher::opt_view(r) == spec_prefs_path(
            match home {
                Some(h) => Some(h@),
                None => None,
            },
            parsed_standard(match standard {
                Some(b) => Some(b@),
                None => None,
            }),
            filef,
        ),
{
    let h = match home {
        Some(h) => h,
        None => return None,
    };
    let parsed = match standard {
        Some(b) => match parse_plist(b) {
            Ok(v) => Some(v),
            Err(_) => None,
        },
        None => None,
    };
    let std_path = standard_prefs(h);
    let pref = match &parsed {
        Some(v) => Some(v),
        None => None,
    };
    match custom_prefs(h, pref) {
        Some(c) => {
            if is_file(c.as_str()) {
                Some(c)
            } else {
                Some(std_path)
            }
        },
        None => Some(std_path),
    }
}

/// The profiles of the main preferences file's bytes; an error when they are no plist.
pub fn from_prefs_bytes(bytes: &[u8]) -> (r: Result<Vec<Raw>, plist::Error>)
    ensures
        match spec_parse_plist(bytes@) {
            Some(v) => r matches Ok(raws) && rviews(raws@) == spec_from_prefs_plist(v),
            None => r is Err,
        },
{
    match parse_plist(bytes) {
        Ok(v) => Ok(from_prefs_plist(&v)),
        Err(e) => Err(e),
    }
}

/// The profiles of a dynamic-profile file's text; an error when it is not JSON (one
/// broken file is skipped, not fatal, by the caller).
pub fn from_dynamic_text(text: &str) -> (r: Result<Vec<Raw>, serde_json::Error>)
    ensures
        match spec_parse_json(text@) {
            Some(v) => r matches Ok(raws) && rviews(raws@) == spec_from_dynamic_json(v),
            None => r is Err,
        },
{
    match parse_json(text) {
        Ok(v) => Ok(from_dynamic_json(&v)),
        Err(e) => Err(e),
    }
}

} // verus!
