//! Windows Terminal profiles, read-only: the user's `settings.json` layered over the
//! JSON fragments that installers drop in `Fragments/{source}/*.json`.
//!
//! Dynamic profiles (newer WSL, ESP-IDF, ...) usually appear in settings with only a
//! guid, a source and the user's overrides; the command line lives in the fragment,
//! and the GUID joins the two. Parsing is a pure function of the texts, with the
//! environment lookup and the file-existence check passed in.
pub mod guid;
pub mod overlay;
pub mod ingest;

pub use self::guid::fragment_profile_guid;
pub use self::ingest::FragmentFile;

use vstd::prelude::*;
use crate::json::{Json, spec_get, spec_as_str, spec_parse_json, parse_json};
use crate::launcher::{Launcher, LauncherView, lview, lviews, launcher_id, opt_view};
use crate::launcher::cmdline::{
    env_agrees, expand_by, file_agrees, glue_by, spec_split_windows, join_spaces,
    expand_windows_env, split_windows, glue_unquoted_windows_exe, join_with_spaces,
};
use crate::launcher::jsonc::{spec_strip, strip};
use crate::text::{trim, trimmed_chars, str_eq, chars_of, string_of};
use self::guid::{spec_guid_key, guid_key, spec_fragment_guid};
use self::overlay::{
    Overlay, OverlayView, oview, empty_view, spec_apply, spec_str_field, spec_overlay_of, str_field,
};
use self::ingest::{
    Generated, GenView, gview, entries_view, key_index, updates_for, spec_defaults,
    spec_list, spec_ingest_docs, spec_fragment_docs, profiles_of, ingest_fragments,
};

verus! {

pub const ID: &'static str = "windows-terminal";

/// The `source` of the old WSL profiles that Windows Terminal's built-in generator
/// makes, with no command line in the settings. Their command is always
/// `wsl.exe -d <name>`. Newer WSL uses a fragment (`Microsoft.WSL`) instead.
pub const WSL_SOURCE: &'static str = "Windows.Terminal.Wsl";

/// The provider of Windows Terminal profiles.
pub struct WindowsTerminal;

impl WindowsTerminal {
    pub fn new() -> (r: Self)
        ensures
            r == WindowsTerminal,
    {
        WindowsTerminal
    }
}

/// The view of an optional launcher.
pub open spec fn opt_lview(o: Option<Launcher>) -> Option<LauncherView> {
    match o {
        Some(l) => Some(lview(l)),
        None => None,
    }
}

/// `base` with each overlay of `us` laid over it in turn.
pub open spec fn fold_apply(base: OverlayView, us: Seq<OverlayView>) -> OverlayView
    decreases us.len(),
{
    if us.len() == 0 {
        base
    } else {
        spec_apply(fold_apply(base, us.drop_last()), us.last())
    }
}

/// The layers of one profile, bottom up: `profiles.defaults`, the fragment profile
/// with its key, the fragments' `updates` for that key, and finally `top`.
pub open spec fn spec_merge(
    defaults: OverlayView,
    g: GenView,
    key: Option<Seq<char>>,
    top: OverlayView,
) -> OverlayView {
    let below = match key {
        Some(k) => {
            let i = key_index(g.created, k);
            let based = if i >= 0 {
                spec_apply(defaults, g.created[i].1)
            } else {
                defaults
            };
            fold_apply(based, updates_for(g.updates, k))
        },
        None => defaults,
    };
    spec_apply(below, top)
}

/// Whether the trimmed text is a home-relative WSL path (`~`, `~/..`, `~\..`).
pub open spec fn is_wsl_home(t: Seq<char>) -> bool {
    t == seq!['~'] || (t.len() >= 2 && t[0] == '~' && (t[1] == '/' || t[1] == '\\'))
}

/// The working directory: `%VAR%` expanded; none when blank or a WSL home path,
/// which is not a Windows path.
pub open spec fn spec_normalize_cwd(
    raw: Option<Seq<char>>,
    envf: spec_fn(Seq<char>) -> Option<Seq<char>>,
) -> Option<Seq<char>> {
    match raw {
        Some(r) => {
            let e = expand_by(r, envf);
            if trim(e).len() == 0 || is_wsl_home(trim(e)) {
                None
            } else {
                Some(e)
            }
        },
        None => None,
    }
}

/// The argv of a command line, `%VAR%` expanded, split as `CommandLineToArgvW`
/// does and with an unquoted program path glued back; none when it has no words.
pub open spec fn spec_to_argv(
    raw: Seq<char>,
    envf: spec_fn(Seq<char>) -> Option<Seq<char>>,
    filef: spec_fn(Seq<char>) -> bool,
) -> Option<Seq<Seq<char>>> {
    let argv = spec_split_windows(expand_by(raw, envf));
    if argv.len() == 0 {
        None
    } else {
        Some(glue_by(argv, filef))
    }
}

/// `wsl.exe -d <name>`.
pub open spec fn wsl_argv(name: Seq<char>) -> Seq<Seq<char>> {
    seq!["wsl.exe"@, "-d"@, name]
}

/// The command and its one-line preview for a merged profile named `name`: its own
/// command line (the preview is the text as written), or the WSL command for an old
/// WSL profile.
pub open spec fn spec_command(
    merged: OverlayView,
    name: Seq<char>,
    envf: spec_fn(Seq<char>) -> Option<Seq<char>>,
    filef: spec_fn(Seq<char>) -> bool,
) -> Option<(Seq<Seq<char>>, Seq<char>)> {
    match merged.commandline {
        Some(raw) => match spec_to_argv(raw, envf, filef) {
            Some(argv) => Some((argv, raw)),
            None => None,
        },
        None => if merged.source == Some(WSL_SOURCE@) {
            Some((wsl_argv(name), join_spaces(wsl_argv(name))))
        } else {
            None
        },
    }
}

/// The launcher a merged profile gives: none when it is hidden, its source is
/// disabled, it has no name, or no command can be had for it.
pub open spec fn spec_emit(
    local_id: Seq<char>,
    merged: OverlayView,
    disabled: Seq<Seq<char>>,
    envf: spec_fn(Seq<char>) -> Option<Seq<char>>,
    filef: spec_fn(Seq<char>) -> bool,
) -> Option<LauncherView> {
    if merged.hidden == Some(true) {
        None
    } else if merged.source is Some && disabled.contains(merged.source->0) {
        None
    } else {
        match merged.name {
            Some(name) => match spec_command(merged, name, envf, filef) {
                Some(c) => Some(
                    LauncherView {
                        id: launcher_id(ID@, local_id),
                        provider: ID@,
                        name,
                        detail: c.1,
                        command: c.0,
                        cwd: spec_normalize_cwd(merged.starting_directory, envf),
                    },
                ),
                None => None,
            },
            None => None,
        }
    }
}

/// The trimmed, non-blank strings among `items`.
pub open spec fn disabled_from(items: Seq<Json>) -> Seq<Seq<char>>
    decreases items.len(),
{
    if items.len() == 0 {
        Seq::empty()
    } else {
        disabled_from(items.drop_last()) + match spec_as_str(items.last()) {
            Some(s) => if trim(s).len() == 0 {
                Seq::empty()
            } else {
                seq![trim(s)]
            },
            None => Seq::empty(),
        }
    }
}

/// `disabledProfileSources`.
pub open spec fn spec_disabled(root: Json) -> Seq<Seq<char>> {
    match spec_get(root, "disabledProfileSources"@) {
        Some(d) => match d {
            Json::Array(items) => disabled_from(items@),
            _ => Seq::empty(),
        },
        None => Seq::empty(),
    }
}

/// The key of a settings entry: its GUID, or the one derived from its source and
/// name the way fragments derive theirs.
pub open spec fn spec_user_key(p: Json) -> Option<Seq<char>> {
    match spec_str_field(p, "guid"@) {
        Some(g) => Some(spec_guid_key(g)),
        None => match spec_str_field(p, "source"@) {
            Some(s) => match spec_str_field(p, "name"@) {
                Some(n) => Some(spec_guid_key(spec_fragment_guid(s, n))),
                None => None,
            },
            None => None,
        },
    }
}

/// The settings entry `p` with everything below it.
pub open spec fn spec_user_merged(p: Json, defaults: OverlayView, g: GenView) -> OverlayView {
    spec_merge(defaults, g, spec_user_key(p), spec_overlay_of(p, spec_str_field(p, "source"@)))
}

/// The launcher of one settings entry. Its id is the GUID as written in the
/// settings (else the merged name), so ids clients stored do not drift.
#[verifier::opaque]
pub open spec fn spec_user_entry(
    p: Json,
    defaults: OverlayView,
    g: GenView,
    disabled: Seq<Seq<char>>,
    envf: spec_fn(Seq<char>) -> Option<Seq<char>>,
    filef: spec_fn(Seq<char>) -> bool,
) -> Option<LauncherView> {
    if !(p is Object) {
        None
    } else {
        let merged = spec_user_merged(p, defaults, g);
        match spec_str_field(p, "guid"@) {
            Some(id) => spec_emit(id, merged, disabled, envf, filef),
            None => match merged.name {
                Some(id) => spec_emit(id, merged, disabled, envf, filef),
                None => None,
            },
        }
    }
}

/// The launchers of the settings list, in order.
pub open spec fn spec_user_part(
    list: Seq<Json>,
    defaults: OverlayView,
    g: GenView,
    disabled: Seq<Seq<char>>,
    envf: spec_fn(Seq<char>) -> Option<Seq<char>>,
    filef: spec_fn(Seq<char>) -> bool,
) -> Seq<LauncherView>
    decreases list.len(),
{
    if list.len() == 0 {
        Seq::empty()
    } else {
        spec_user_part(list.drop_last(), defaults, g, disabled, envf, filef) + match spec_user_entry(
            list.last(),
            defaults,
            g,
            disabled,
            envf,
            filef,
        ) {
            Some(l) => seq![l],
            None => Seq::empty(),
        }
    }
}

/// The keys of the settings entries.
pub open spec fn spec_seen(list: Seq<Json>) -> Seq<Seq<char>>
    decreases list.len(),
{
    if list.len() == 0 {
        Seq::empty()
    } else {
        spec_seen(list.drop_last()) + if list.last() is Object && spec_user_key(list.last()) is Some {
            seq![spec_user_key(list.last())->0]
        } else {
            Seq::empty()
        }
    }
}

/// The keys of keyed overlays.
pub open spec fn keys_of(cs: Seq<(Seq<char>, OverlayView)>) -> Seq<Seq<char>> {
    cs.map_values(|e: (Seq<char>, OverlayView)| e.0)
}

/// The launchers of the fragment profiles that no settings entry names, in the
/// order the fragments created them.
pub open spec fn spec_fragment_part(
    cs: Seq<(Seq<char>, OverlayView)>,
    seen: Seq<Seq<char>>,
    defaults: OverlayView,
    g: GenView,
    disabled: Seq<Seq<char>>,
    envf: spec_fn(Seq<char>) -> Option<Seq<char>>,
    filef: spec_fn(Seq<char>) -> bool,
) -> Seq<LauncherView>
    decreases cs.len(),
{
    if cs.len() == 0 {
        Seq::empty()
    } else {
        let k = cs.last().0;
        spec_fragment_part(cs.drop_last(), seen, defaults, g, disabled, envf, filef) + if seen.contains(
            k,
        ) || keys_of(cs.drop_last()).contains(k) {
            Seq::empty()
        } else {
            match spec_emit(k, spec_merge(defaults, g, Some(k), empty_view()), disabled, envf, filef) {
                Some(l) => seq![l],
                None => Seq::empty(),
            }
        }
    }
}

/// The `profiles.defaults` layer.
pub open spec fn spec_defaults_overlay(root: Json) -> OverlayView {
    match spec_defaults(root) {
        Some(d) => spec_overlay_of(d, None),
        None => empty_view(),
    }
}

/// The launchers of a settings document over what the fragments contributed:
/// the settings entries in order, then the fragment profiles the settings do not
/// mention yet.
pub open spec fn spec_launchers(
    root: Json,
    g: GenView,
    envf: spec_fn(Seq<char>) -> Option<Seq<char>>,
    filef: spec_fn(Seq<char>) -> bool,
) -> Seq<LauncherView> {
    let defaults = spec_defaults_overlay(root);
    let disabled = spec_disabled(root);
    let list = spec_list(root);
    spec_user_part(list, defaults, g, disabled, envf, filef) + spec_fragment_part(
        g.created,
        spec_seen(list),
        defaults,
        g,
        disabled,
        envf,
        filef,
    )
}

/// Whether `v` holds `s`.
fn contains_str(v: &Vec<String>, s: &str) -> (r: bool)
    ensures
        r == v.deep_view().contains(s@),
{
    let mut i: usize = 0;
    while i < v.len()
        invariant
            i <= v.len(),
            forall|j: int| 0 <= j < i ==> v.deep_view()[j] != s@,
        decreases v.len() - i,
    {
        if str_eq(v[i].as_str(), s) {
            assert(v.deep_view()[i as int] == s@);
            return true;
        }
        i = i + 1;
    }
    false
}

/// `disabledProfileSources`: the profile sources the user turned off.
pub fn disabled_sources(root: &Json) -> (r: Vec<String>)
    ensures
        r.deep_view() == spec_disabled(*root),
{
    let mut out: Vec<String> = Vec::new();
    match root.get("disabledProfileSources") {
        Some(d) => match d.as_array() {
            Some(items) => {
                let mut i: usize = 0;
                while i < items.len()
                    invariant
                        i <= items.len(),
                        out.deep_view() == disabled_from(items@.subrange(0, i as int)),
                    decreases items.len() - i,
                {
                    proof {
                        let p = items@.subrange(0, i + 1);
                        assert(p.drop_last() =~= items@.subrange(0, i as int));
                    }
                    match items[i].as_str() {
                        Some(s) => {
                            let t = trimmed_chars(s);
                            if t.len() > 0 {
                                let ghost o0 = out.deep_view();
                                out.push(string_of(t.as_slice()));
                                assert(out.deep_view() =~= o0 + seq![t@]);
                            } else {
                                assert(out.deep_view() =~= out.deep_view() + Seq::<Seq<char>>::empty());
                            }
                        },
                        None => {
                            assert(out.deep_view() =~= out.deep_view() + Seq::<Seq<char>>::empty());
                        },
                    }
                    i = i + 1;
                }
                assert(items@.subrange(0, items.len() as int) =~= items@);
            },
            None => {},
        },
        None => {},
    }
    out
}

/// Lays the fragment layers for `key` (the profile, then its `updates`) over `m`.
fn apply_generated(m: &mut Overlay, g: &Generated, key: &str)
    ensures
        oview(*final(m)) == ({
            let i = key_index(gview(*g).created, key@);
            let based = if i >= 0 {
                spec_apply(oview(*old(m)), gview(*g).created[i].1)
            } else {
                oview(*old(m))
            };
            fold_apply(based, updates_for(gview(*g).updates, key@))
        }),
{
    let ghost gv = gview(*g);
    let mut i: usize = 0;
    let mut found = false;
    while i < g.created.len() && !found
        invariant
            i <= g.created.len(),
            gv == gview(*g),
            !found ==> key_index(gv.created.subrange(0, i as int), key@) == -1,
            !found ==> oview(*m) == oview(*old(m)),
            found ==> 0 <= key_index(gv.created, key@) < gv.created.len(),
            found ==> oview(*m) == spec_apply(oview(*old(m)), gv.created[key_index(gv.created, key@)].1),
        decreases g.created.len() - i,
    {
        proof {
            let p = gv.created.subrange(0, i + 1);
            assert(p.drop_last() =~= gv.created.subrange(0, i as int));
        }
        if str_eq(g.created[i].0.as_str(), key) {
            proof {
                lemma_key_index_found(gv.created, key@, i as int);
            }
            m.apply(&g.created[i].1);
            found = true;
        }
        i = i + 1;
    }
    proof {
        if !found {
            assert(gv.created.subrange(0, g.created.len() as int) =~= gv.created);
        }
    }
    let ghost based = oview(*m);
    let mut j: usize = 0;
    while j < g.updates.len()
        invariant
            j <= g.updates.len(),
            gv == gview(*g),
            oview(*m) == fold_apply(based, updates_for(gv.updates.subrange(0, j as int), key@)),
        decreases g.updates.len() - j,
    {
        proof {
            let p = gv.updates.subrange(0, j + 1);
            assert(p.drop_last() =~= gv.updates.subrange(0, j as int));
        }
        let ghost before = updates_for(gv.updates.subrange(0, j as int), key@);
        if str_eq(g.updates[j].0.as_str(), key) {
            m.apply(&g.updates[j].1);
            proof {
                let after = updates_for(gv.updates.subrange(0, j + 1), key@);
                assert(after =~= before.push(gv.updates[j as int].1));
                assert(after.drop_last() =~= before);
            }
        } else {
            proof {
                let after = updates_for(gv.updates.subrange(0, j + 1), key@);
                assert(after =~= before);
            }
        }
        j = j + 1;
    }
    assert(gv.updates.subrange(0, g.updates.len() as int) =~= gv.updates);
}

proof fn lemma_key_index_found(s: Seq<(Seq<char>, OverlayView)>, key: Seq<char>, i: int)
    requires
        0 <= i < s.len(),
        key_index(s.subrange(0, i), key) == -1,
        s[i].0 == key,
    ensures
        key_index(s, key) == i,
    decreases s.len() - i,
{
    let p = s.subrange(0, i + 1);
    assert(p.drop_last() =~= s.subrange(0, i));
    lemma_key_index_extend(s, key, i + 1);
}

proof fn lemma_key_index_extend(s: Seq<(Seq<char>, OverlayView)>, key: Seq<char>, n: int)
    requires
        0 <= n <= s.len(),
        key_index(s.subrange(0, n), key) >= 0,
    ensures
        key_index(s, key) == key_index(s.subrange(0, n), key),
    decreases s.len() - n,
{
    if n < s.len() {
        assert(s.subrange(0, n + 1).drop_last() =~= s.subrange(0, n));
        lemma_key_index_extend(s, key, n + 1);
    } else {
        assert(s.subrange(0, n) =~= s);
    }
}

/// The profile `top` with every layer below it merged in.
fn merge_layers(defaults: &Overlay, g: &Generated, key: &Option<String>, top: &Overlay) -> (r: Overlay)
    ensures
        oview(r) == spec_merge(oview(*defaults), gview(*g), opt_view(*key), oview(*top)),
{
    let mut merged = defaults.copy();
    match key {
        Some(k) => apply_generated(&mut merged, g, k.as_str()),
        None => {},
    }
    merged.apply(top);
    merged
}

/// The working directory of a profile; see [`spec_normalize_cwd`].
fn normalize_cwd<F: Fn(&str) -> Option<String>>(raw: &Option<String>, env: &F) -> (r: Option<
    String,
>)
    requires
        forall|k: &str| call_requires(*env, (k,)),
    ensures
        forall|envf: spec_fn(Seq<char>) -> Option<Seq<char>>|
            env_agrees(*env, envf) ==> opt_view(r) == #[trigger] spec_normalize_cwd(opt_view(*raw), envf),
{
    match raw {
        Some(s) => {
            let e = expand_windows_env(s.as_str(), env);
            let t = trimmed_chars(e.as_str());
            let home = (t.len() == 1 && t[0] == '~') || (t.len() >= 2 && t[0] == '~' && (t[1] == '/'
                || t[1] == '\\'));
            proof {
                if t.len() == 1 && t[0] == '~' {
                    assert(t@ =~= seq!['~']);
                }
                assert(home == is_wsl_home(t@));
            }
            if t.len() == 0 || home {
                None
            } else {
                Some(e)
            }
        },
        None => None,
    }
}

/// The argv of a command line; see [`spec_to_argv`].
fn to_argv<F: Fn(&str) -> Option<String>, G: Fn(&str) -> bool>(raw: &str, env: &F, is_file: &G) -> (r:
    Option<Vec<String>>)
    requires
        forall|k: &str| call_requires(*env, (k,)),
        forall|k: &str| call_requires(*is_file, (k,)),
    ensures
        forall|envf: spec_fn(Seq<char>) -> Option<Seq<char>>, filef: spec_fn(Seq<char>) -> bool|
            env_agrees(*env, envf) && file_agrees(*is_file, filef) ==> match r {
                Some(v) => #[trigger] spec_to_argv(raw@, envf, filef) == Some(v.deep_view()),
                None => spec_to_argv(raw@, envf, filef) is None,
            },
{
    let e = expand_windows_env(raw, env);
    let argv = split_windows(e.as_str());
    if argv.len() == 0 {
        return None;
    }
    let ghost av = argv.deep_view();
    let glued = glue_unquoted_windows_exe(argv, is_file);
    proof {
        assert forall|envf: spec_fn(Seq<char>) -> Option<Seq<char>>, filef: spec_fn(Seq<char>) -> bool|
            env_agrees(*env, envf) && file_agrees(*is_file, filef) implies #[trigger] spec_to_argv(
            raw@,
            envf,
            filef,
        ) == Some(glued.deep_view()) by {
            assert(e@ == expand_by(raw@, envf));
            assert(glued.deep_view() == glue_by(av, filef));
        }
    }
    Some(glued)
}

/// The launcher of a merged profile; see [`spec_emit`].
fn emit<F: Fn(&str) -> Option<String>, G: Fn(&str) -> bool>(
    local_id: &str,
    merged: &Overlay,
    disabled: &Vec<String>,
    env: &F,
    is_file: &G,
) -> (r: Option<Launcher>)
    requires
        forall|k: &str| call_requires(*env, (k,)),
        forall|k: &str| call_requires(*is_file, (k,)),
    ensures
        forall|envf: spec_fn(Seq<char>) -> Option<Seq<char>>, filef: spec_fn(Seq<char>) -> bool|
            env_agrees(*env, envf) && file_agrees(*is_file, filef) ==> opt_lview(r)
                == #[trigger] spec_emit(local_id@, oview(*merged), disabled.deep_view(), envf, filef),
{
    match merged.hidden {
        Some(h) => {
            if h {
                return None;
            }
        },
        None => {},
    }
    match &merged.source {
        Some(src) => {
            if contains_str(disabled, src.as_str()) {
                return None;
            }
        },
        None => {},
    }
    let name = match &merged.name {
        Some(n) => n,
        None => {
            return None;
        },
    };
    let command: Vec<String>;
    let detail: String;
    match &merged.commandline {
        Some(raw) => match to_argv(raw.as_str(), env, is_file) {
            Some(argv) => {
                command = argv;
                detail = raw.clone();
            },
            None => {
                return None;
            },
        },
        None => {
            let wsl = match &merged.source {
                Some(src) => str_eq(src.as_str(), WSL_SOURCE),
                None => false,
            };
            if !wsl {
                return None;
            }
            let mut argv: Vec<String> = Vec::new();
            argv.push("wsl.exe".to_string());
            argv.push("-d".to_string());
            argv.push(name.clone());
            assert(argv.deep_view() =~= wsl_argv(name@));
            detail = join_with_spaces(argv.as_slice());
            command = argv;
        },
    }
    let cwd = normalize_cwd(&merged.starting_directory, env);
    let l = Launcher::new(ID, local_id, name.as_str(), command).with_detail(detail).with_cwd(cwd);
    Some(l)
}

/// The key of a settings entry; see [`spec_user_key`].
fn user_key(p: &Json) -> (r: Option<String>)
    ensures
        opt_view(r) == spec_user_key(*p),
{
    match str_field(p, "guid") {
        Some(g) => Some(guid_key(g.as_str())),
        None => match str_field(p, "source") {
            Some(s) => match str_field(p, "name") {
                Some(n) => {
                    let f = fragment_profile_guid(s.as_str(), n.as_str());
                    Some(guid_key(f.as_str()))
                },
                None => None,
            },
            None => None,
        },
    }
}

/// The launcher of one settings entry whose key is `key`; see [`spec_user_entry`].
fn user_entry<F: Fn(&str) -> Option<String>, G: Fn(&str) -> bool>(
    p: &Json,
    key: &Option<String>,
    defaults: &Overlay,
    g: &Generated,
    disabled: &Vec<String>,
    env: &F,
    is_file: &G,
) -> (r: Option<Launcher>)
    requires
        p is Object,
        opt_view(*key) == spec_user_key(*p),
        forall|k: &str| call_requires(*env, (k,)),
        forall|k: &str| call_requires(*is_file, (k,)),
    ensures
        forall|envf: spec_fn(Seq<char>) -> Option<Seq<char>>, filef: spec_fn(Seq<char>) -> bool|
            env_agrees(*env, envf) && file_agrees(*is_file, filef) ==> opt_lview(r)
                == #[trigger] spec_user_entry(
                *p,
                oview(*defaults),
                gview(*g),
                disabled.deep_view(),
                envf,
                filef,
            ),
{
    reveal(spec_user_entry);
    let user = Overlay::from_json(p, str_field(p, "source"));
    let merged = merge_layers(defaults, g, key, &user);
    match str_field(p, "guid") {
        Some(id) => emit(id.as_str(), &merged, disabled, env, is_file),
        None => match &merged.name {
            Some(id) => emit(id.as_str(), &merged, disabled, env, is_file),
            None => None,
        },
    }
}

/// Whether one of the first `n` keys of `cs` is `k`.
fn key_in_prefix(cs: &Vec<(String, Overlay)>, n: usize, k: &str) -> (r: bool)
    requires
        n <= cs.len(),
    ensures
        r == keys_of(entries_view(cs@).subrange(0, n as int)).contains(k@),
{
    let ghost ks = keys_of(entries_view(cs@).subrange(0, n as int));
    let mut i: usize = 0;
    while i < n
        invariant
            i <= n <= cs.len(),
            ks == keys_of(entries_view(cs@).subrange(0, n as int)),
            forall|j: int| 0 <= j < i ==> ks[j] != k@,
        decreases n - i,
    {
        if str_eq(cs[i].0.as_str(), k) {
            assert(ks[i as int] == k@);
            return true;
        }
        i = i + 1;
    }
    false
}

/// The launchers of the settings list, and the keys of its entries.
fn user_launchers<F: Fn(&str) -> Option<String>, G: Fn(&str) -> bool>(
    list: &Vec<Json>,
    defaults: &Overlay,
    g: &Generated,
    disabled: &Vec<String>,
    env: &F,
    is_file: &G,
) -> (r: (Vec<Launcher>, Vec<String>))
    requires
        forall|k: &str| call_requires(*env, (k,)),
        forall|k: &str| call_requires(*is_file, (k,)),
    ensures
        r.1.deep_view() == spec_seen(list@),
        forall|envf: spec_fn(Seq<char>) -> Option<Seq<char>>, filef: spec_fn(Seq<char>) -> bool|
            env_agrees(*env, envf) && file_agrees(*is_file, filef) ==> lviews(r.0@)
                == #[trigger] spec_user_part(
                list@,
                oview(*defaults),
                gview(*g),
                disabled.deep_view(),
                envf,
                filef,
            ),
{
    let ghost dv = oview(*defaults);
    let ghost gv = gview(*g);
    let ghost dis = disabled.deep_view();
    let ghost lst = list@;
    let mut out: Vec<Launcher> = Vec::new();
    let mut seen: Vec<String> = Vec::new();
    let mut i: usize = 0;
    assert(lviews(out@) =~= Seq::<LauncherView>::empty());
    assert(seen.deep_view() =~= Seq::<Seq<char>>::empty());
    while i < list.len()
        invariant
            i <= list.len(),
            lst == list@,
            dv == oview(*defaults),
            gv == gview(*g),
            dis == disabled.deep_view(),
            forall|k: &str| call_requires(*env, (k,)),
            forall|k: &str| call_requires(*is_file, (k,)),
            seen.deep_view() == spec_seen(lst.subrange(0, i as int)),
            forall|envf: spec_fn(Seq<char>) -> Option<Seq<char>>, filef: spec_fn(Seq<char>) -> bool|
                env_agrees(*env, envf) && file_agrees(*is_file, filef) ==> lviews(out@)
                    == #[trigger] spec_user_part(lst.subrange(0, i as int), dv, gv, dis, envf, filef),
        decreases list.len() - i,
    {
        let p = &list[i];
        let ghost prev = lst.subrange(0, i as int);
        let ghost next = lst.subrange(0, i + 1);
        proof {
            assert(next.drop_last() =~= prev);
            assert(next.last() == *p);
        }
        let ghost out0 = lviews(out@);
        let e: Option<Launcher>;
        if p.is_object() {
            let key = user_key(p);
            let ghost seen0 = seen.deep_view();
            match &key {
                Some(k) => {
                    seen.push(k.clone());
                    assert(seen.deep_view() =~= seen0 + seq![k@]);
                },
                None => {
                    assert(seen.deep_view() =~= seen0 + Seq::<Seq<char>>::empty());
                },
            }
            e = user_entry(p, &key, defaults, g, disabled, env, is_file);
        } else {
            assert(seen.deep_view() =~= seen.deep_view() + Seq::<Seq<char>>::empty());
            e = None;
        }
        match e {
            Some(l) => {
                out.push(l);
                assert(lviews(out@) =~= out0 + seq![lview(l)]);
            },
            None => {
                assert(lviews(out@) =~= out0 + Seq::<LauncherView>::empty());
            },
        }
        proof {
            assert forall|envf: spec_fn(Seq<char>) -> Option<Seq<char>>, filef: spec_fn(Seq<char>) -> bool|
                env_agrees(*env, envf) && file_agrees(*is_file, filef) implies lviews(out@)
                    == #[trigger] spec_user_part(next, dv, gv, dis, envf, filef) by {
                assert(out0 == spec_user_part(prev, dv, gv, dis, envf, filef));
                assert(opt_lview(e) == spec_user_entry(*p, dv, gv, dis, envf, filef)) by {
                    if !(*p is Object) {
                        reveal(spec_user_entry);
                    }
                }
            }
        }
        i = i + 1;
    }
    assert(lst.subrange(0, list.len() as int) =~= lst);
    (out, seen)
}

/// The launchers of the fragment profiles whose keys are not in `seen`.
fn fragment_launchers<F: Fn(&str) -> Option<String>, G: Fn(&str) -> bool>(
    seen: &Vec<String>,
    defaults: &Overlay,
    g: &Generated,
    disabled: &Vec<String>,
    env: &F,
    is_file: &G,
) -> (r: Vec<Launcher>)
    requires
        forall|k: &str| call_requires(*env, (k,)),
        forall|k: &str| call_requires(*is_file, (k,)),
    ensures
        forall|envf: spec_fn(Seq<char>) -> Option<Seq<char>>, filef: spec_fn(Seq<char>) -> bool|
            env_agrees(*env, envf) && file_agrees(*is_file, filef) ==> lviews(r@)
                == #[trigger] spec_fragment_part(
                gview(*g).created,
                seen.deep_view(),
                oview(*defaults),
                gview(*g),
                disabled.deep_view(),
                envf,
                filef,
            ),
{
    let ghost dv = oview(*defaults);
    let ghost gv = gview(*g);
    let ghost dis = disabled.deep_view();
    let ghost sv = seen.deep_view();
    let mut out: Vec<Launcher> = Vec::new();
    let mut i: usize = 0;
    assert(lviews(out@) =~= Seq::<LauncherView>::empty());
    while i < g.created.len()
        invariant
            i <= g.created.len(),
            dv == oview(*defaults),
            gv == gview(*g),
            dis == disabled.deep_view(),
            sv == seen.deep_view(),
            forall|k: &str| call_requires(*env, (k,)),
            forall|k: &str| call_requires(*is_file, (k,)),
            forall|envf: spec_fn(Seq<char>) -> Option<Seq<char>>, filef: spec_fn(Seq<char>) -> bool|
                env_agrees(*env, envf) && file_agrees(*is_file, filef) ==> lviews(out@)
                    == #[trigger] spec_fragment_part(
                    gv.created.subrange(0, i as int),
                    sv,
                    dv,
                    gv,
                    dis,
                    envf,
                    filef,
                ),
        decreases g.created.len() - i,
    {
        let k = &g.created[i].0;
        let ghost prev = gv.created.subrange(0, i as int);
        let ghost next = gv.created.subrange(0, i + 1);
        proof {
            assert(next.drop_last() =~= prev);
            assert(next.last().0 == k@);
        }
        let ghost out0 = lviews(out@);
        let skip = contains_str(seen, k.as_str()) || key_in_prefix(&g.created, i, k.as_str());
        let e: Option<Launcher>;
        if skip {
            e = None;
            assert(lviews(out@) =~= out0 + Seq::<LauncherView>::empty());
        } else {
            let key = Some(k.clone());
            let top = Overlay::empty();
            let merged = merge_layers(defaults, g, &key, &top);
            e = emit(k.as_str(), &merged, disabled, env, is_file);
            match e {
                Some(l) => {
                    out.push(l);
                    assert(lviews(out@) =~= out0 + seq![lview(l)]);
                },
                None => {
                    assert(lviews(out@) =~= out0 + Seq::<LauncherView>::empty());
                },
            }
        }
        proof {
            assert forall|envf: spec_fn(Seq<char>) -> Option<Seq<char>>, filef: spec_fn(Seq<char>) -> bool|
                env_agrees(*env, envf) && file_agrees(*is_file, filef) implies lviews(out@)
                    == #[trigger] spec_fragment_part(next, sv, dv, gv, dis, envf, filef) by {
                assert(out0 == spec_fragment_part(prev, sv, dv, gv, dis, envf, filef));
            }
        }
        i = i + 1;
    }
    assert(gv.created.subrange(0, g.created.len() as int) =~= gv.created);
    out
}

/// The launchers of a settings document `root` over the fragments' contribution
/// `g`: the settings entries in order, then the fragment profiles the settings do
/// not mention yet. `env` expands `%VAR%`, `is_file` tells whether a path is a file.
pub fn launchers_from<F: Fn(&str) -> Option<String>, G: Fn(&str) -> bool>(
    root: &Json,
    g: &Generated,
    env: &F,
    is_file: &G,
) -> (r: Vec<Launcher>)
    requires
        forall|k: &str| call_requires(*env, (k,)),
        forall|k: &str| call_requires(*is_file, (k,)),
    ensures
        forall|envf: spec_fn(Seq<char>) -> Option<Seq<char>>, filef: spec_fn(Seq<char>) -> bool|
            env_agrees(*env, envf) && file_agrees(*is_file, filef) ==> lviews(r@)
                == #[trigger] spec_launchers(*root, gview(*g), envf, filef),
{
    let (d, list) = profiles_of(root);
    let defaults = match d {
        Some(x) => Overlay::from_json(x, None),
        None => Overlay::empty(),
    };
    let disabled = disabled_sources(root);
    let empty: Vec<Json> = Vec::new();
    let lst = match list {
        Some(l) => l,
        None => &empty,
    };
    assert(lst@ == spec_list(*root));
    let (mut out, seen) = user_launchers(lst, &defaults, g, &disabled, env, is_file);
    let mut rest = fragment_launchers(&seen, &defaults, g, &disabled, env, is_file);
    let ghost a = out@;
    let ghost b = rest@;
    out.append(&mut rest);
    proof {
        assert(lviews(out@) =~= lviews(a) + lviews(b));
    }
    out
}

/// Why a settings document could not be read.
#[derive(Debug)]
pub enum ParseError {
    /// The text is not JSON, even with comments and trailing commas stripped.
    Json(serde_json::Error),
}

/// Parses `settings.json` (`src`, JSON with comments and trailing commas) and fills
/// in the command lines of dynamic profiles from the fragments. `env` expands
/// `%VAR%`; `is_file` glues an unquoted `C:\Program Files\...` back into one argv[0].
/// A fragment that is not JSON is skipped; settings that are not JSON are an error.
pub fn parse<F: Fn(&str) -> Option<String>, G: Fn(&str) -> bool>(
    src: &str,
    fragments: &[FragmentFile],
    env: &F,
    is_file: &G,
) -> (r: Result<Vec<Launcher>, ParseError>)
    requires
        forall|k: &str| call_requires(*env, (k,)),
        forall|k: &str| call_requires(*is_file, (k,)),
    ensures
        r is Ok <==> spec_parse_json(spec_strip(src@)) is Some,
        forall|envf: spec_fn(Seq<char>) -> Option<Seq<char>>, filef: spec_fn(Seq<char>) -> bool|
            env_agrees(*env, envf) && file_agrees(*is_file, filef) ==> match r {
                Ok(v) => lviews(v@) == #[trigger] spec_launchers(
                    spec_parse_json(spec_strip(src@))->0,
                    spec_ingest_docs(spec_fragment_docs(fragments@)),
                    envf,
                    filef,
                ),
                Err(_) => true,
            },
{
    let text = strip(src);
    let root = match parse_json(text.as_str()) {
        Ok(root) => root,
        Err(e) => {
            return Err(ParseError::Json(e));
        },
    };
    let g = ingest_fragments(fragments);
    Ok(launchers_from(&root, &g, env, is_file))
}

/// Where `settings.json` may be, in order of preference under `%LOCALAPPDATA%`: the
/// Store build, the Preview build, then an unpackaged install. Only the first that
/// exists is read.
pub open spec fn spec_settings_paths(local: Option<Seq<char>>) -> Seq<Seq<char>> {
    match local {
        None => Seq::empty(),
        Some(l) => seq![
            crate::launcher::builtin::windows_join(l, "Packages\\Microsoft.WindowsTerminal_8wekyb3d8bbwe\\LocalState\\settings.json"@),
            crate::launcher::builtin::windows_join(l, "Packages\\Microsoft.WindowsTerminalPreview_8wekyb3d8bbwe\\LocalState\\settings.json"@),
            crate::launcher::builtin::windows_join(l, "Microsoft\\Windows Terminal\\settings.json"@),
        ],
    }
}

pub fn settings_paths(local: Option<String>) -> (r: Vec<String>)
    ensures
        r.deep_view() == spec_settings_paths(opt_view(local)),
{
    let mut v: Vec<String> = Vec::new();
    match local {
        None => {
            assert(v.deep_view() =~= Seq::<Seq<char>>::empty());
        },
        Some(l) => {
            v.push(crate::launcher::builtin::join_windows(l.as_str(), "Packages\\Microsoft.WindowsTerminal_8wekyb3d8bbwe\\LocalState\\settings.json"));
            v.push(crate::launcher::builtin::join_windows(l.as_str(), "Packages\\Microsoft.WindowsTerminalPreview_8wekyb3d8bbwe\\LocalState\\settings.json"));
            v.push(crate::launcher::builtin::join_windows(l.as_str(), "Microsoft\\Windows Terminal\\settings.json"));
            assert(v.deep_view() =~= spec_settings_paths(opt_view(Some(l))));
        },
    }
    v
}

/// The fragment roots: machine-wide (`%ProgramData%`) first, then the user's
/// (`%LOCALAPPDATA%`), so the user's wins for the same GUID, as Windows Terminal
/// loads them.
pub open spec fn spec_fragment_roots(program_data: Option<Seq<char>>, local: Option<Seq<char>>) -> Seq<Seq<char>> {
    let a = match program_data {
        Some(p) => seq![crate::launcher::builtin::windows_join(p, "Microsoft\\Windows Terminal\\Fragments"@)],
        None => Seq::empty(),
    };
    let b = match local {
        Some(l) => seq![crate::launcher::builtin::windows_join(l, "Microsoft\\Windows Terminal\\Fragments"@)],
        None => Seq::empty(),
    };
    a + b
}

pub fn fragment_roots(program_data: Option<String>, local: Option<String>) -> (r: Vec<String>)
    ensures
        r.deep_view() == spec_fragment_roots(opt_view(program_data), opt_view(local)),
{
    let mut v: Vec<String> = Vec::new();
    let ghost pd = opt_view(program_data);
    let ghost lc = opt_view(local);
    if let Some(p) = program_data {
        v.push(crate::launcher::builtin::join_windows(p.as_str(), "Microsoft\\Windows Terminal\\Fragments"));
    }
    if let Some(l) = local {
        v.push(crate::launcher::builtin::join_windows(l.as_str(), "Microsoft\\Windows Terminal\\Fragments"));
    }
    assert(v.deep_view() =~= spec_fragment_roots(pd, lc));
    v
}

} // verus!
