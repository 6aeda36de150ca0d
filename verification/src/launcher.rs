//! Launchers: the things "new session" can start. Each is an argv (with an optional
//! working directory) and a name for humans, supplied by providers: the built-in
//! shell, the user's own config, and read-only scans of installed terminals.
pub mod builtin;
pub mod cmdline;
pub mod iterm2;
pub mod jsonc;
pub mod user_config;
pub mod windows_terminal;

use vstd::prelude::*;
use crate::text::{chars_of, string_of};
use crate::launcher::cmdline::{join_spaces, join_with_spaces};

verus! {

#[derive(Debug, Clone, PartialEq, Eq)]
pub struct Launcher {
    /// `<provider>:<stable id within the provider>`.
    pub id: String,
    pub provider: &'static str,
    /// Display name; may repeat, never used as an identity.
    pub name: String,
    /// One-line preview of the command.
    pub detail: String,
    pub command: Vec<String>,
    pub cwd: Option<String>,
}

/// A launcher as plain values.
pub ghost struct LauncherView {
    pub id: Seq<char>,
    pub provider: Seq<char>,
    pub name: Seq<char>,
    pub detail: Seq<char>,
    pub command: Seq<Seq<char>>,
    pub cwd: Option<Seq<char>>,
}

pub open spec fn lview(l: Launcher) -> LauncherView {
    LauncherView {
        id: l.id@,
        provider: l.provider@,
        name: l.name@,
        detail: l.detail@,
        command: l.command.deep_view(),
        cwd: opt_view(l.cwd),
    }
}

/// The launchers of `v`, as plain values.
pub open spec fn lviews(v: Seq<Launcher>) -> Seq<LauncherView> {
    v.map_values(|l: Launcher| lview(l))
}

/// The launcher that `Launcher::new(provider, local_id, name, command).with_cwd(cwd)`
/// builds.
pub open spec fn new_launcher(
    provider: Seq<char>,
    local_id: Seq<char>,
    name: Seq<char>,
    command: Seq<Seq<char>>,
    cwd: Option<Seq<char>>,
) -> LauncherView {
    LauncherView {
        id: launcher_id(provider, local_id),
        provider,
        name,
        detail: join_spaces(command),
        command,
        cwd,
    }
}

/// `provider:local_id`.
pub open spec fn launcher_id(provider: Seq<char>, local_id: Seq<char>) -> Seq<char> {
    provider + seq![':'] + local_id
}

/// The view of an optional string.
pub open spec fn opt_view(o: Option<String>) -> Option<Seq<char>> {
    match o {
        Some(s) => Some(s@),
        None => None,
    }
}

impl Launcher {
    /// A launcher whose detail is its argv joined by spaces.
    pub fn new(provider: &'static str, local_id: &str, name: &str, command: Vec<String>) -> (l: Self)
        ensures
            l.id@ == launcher_id(provider@, local_id@),
            l.provider == provider,
            l.name@ == name@,
            l.detail@ == join_spaces(command.deep_view()),
            l.command.deep_view() == command.deep_view(),
            l.cwd is None,
    {
        let detail = join_with_spaces(command.as_slice());
        let mut id = chars_of(provider);
        id.push(':');
        let lid = chars_of(local_id);
        let mut i: usize = 0;
        let ghost base = id@;
        while i < lid.len()
            invariant
                i <= lid.len(),
                id@ == base + lid@.subrange(0, i as int),
            decreases lid.len() - i,
        {
            id.push(lid[i]);
            i = i + 1;
            assert(id@ =~= base + lid@.subrange(0, i as int));
        }
        assert(lid@.subrange(0, lid.len() as int) =~= lid@);
        Launcher {
            id: string_of(id.as_slice()),
            provider,
            name: string_of(chars_of(name).as_slice()),
            detail,
            command,
            cwd: None,
        }
    }

    /// Replaces the detail (for sources whose original is a one-line command).
    pub fn with_detail(self, detail: String) -> (l: Self)
        ensures
            l.detail@ == detail@,
            l.id@ == self.id@,
            l.provider == self.provider,
            l.name@ == self.name@,
            l.command.deep_view() == self.command.deep_view(),
            opt_view(l.cwd) == opt_view(self.cwd),
    {
        let mut l = self;
        l.detail = detail;
        l
    }

    pub fn with_cwd(self, cwd: Option<String>) -> (l: Self)
        ensures
            opt_view(l.cwd) == opt_view(cwd),
            l.id@ == self.id@,
            l.provider == self.provider,
            l.name@ == self.name@,
            l.detail@ == self.detail@,
            l.command.deep_view() == self.command.deep_view(),
    {
        let mut l = self;
        l.cwd = cwd;
        l
    }
}

/// A copy of `v`, string for string.
pub fn copy_strings(v: &Vec<String>) -> (r: Vec<String>)
    ensures
        r.deep_view() == v.deep_view(),
{
    let mut out: Vec<String> = Vec::new();
    let mut i: usize = 0;
    while i < v.len()
        invariant
            i <= v.len(),
            out@.len() == i,
            forall|k: int| 0 <= k < i ==> out@[k]@ == v@[k]@,
        decreases v.len() - i,
    {
        let c = v[i].clone();
        out.push(c);
        i = i + 1;
    }
    assert(out.deep_view() =~= v.deep_view());
    out
}

impl Launcher {
    /// A launcher equal to this one in every field.
    pub fn copy(&self) -> (r: Launcher)
        ensures
            lview(r) == lview(*self),
    {
        let cwd = match &self.cwd {
            Some(c) => Some(c.clone()),
            None => None,
        };
        Launcher {
            id: self.id.clone(),
            provider: self.provider,
            name: self.name.clone(),
            detail: self.detail.clone(),
            command: copy_strings(&self.command),
            cwd,
        }
    }
}

/// A copy of `v`, launcher for launcher.
pub fn copy_launchers(v: &Vec<Launcher>) -> (r: Vec<Launcher>)
    ensures
        lviews(r@) == lviews(v@),
{
    let mut out: Vec<Launcher> = Vec::new();
    let mut i: usize = 0;
    while i < v.len()
        invariant
            i <= v.len(),
            out@.len() == i,
            forall|k: int| 0 <= k < i ==> lview(#[trigger] out@[k]) == lview(v@[k]),
        decreases v.len() - i,
    {
        out.push(v[i].copy());
        i = i + 1;
    }
    assert(lviews(out@) =~= lviews(v@));
    out
}

/// `anyhow::Error`, the failure a provider reports.
#[verifier::external_type_specification]
#[verifier::external_body]
pub struct ExAnyhowError(anyhow::Error);

/// A source of launchers. Adding a source means implementing this once.
pub trait LauncherProvider: Send + Sync {
    /// The provider's stable id, also the prefix of its launchers' ids.
    fn id(&self) -> &'static str;
    /// Scans once. An empty list means the source is not installed or not
    /// configured here; an error means the scan itself failed.
    fn discover(&self) -> Result<Vec<Launcher>, anyhow::Error>;
}

/// At most this many launchers from one provider, so one runaway config file
/// cannot flood the menu.
pub const PER_PROVIDER_CAP: usize = 100;

/// The ids of launchers.
pub open spec fn ids_of(ls: Seq<LauncherView>) -> Seq<Seq<char>> {
    ls.map_values(|l: LauncherView| l.id)
}

/// `acc` with each of `items` appended unless its id is already there.
pub open spec fn add_new(acc: Seq<LauncherView>, items: Seq<LauncherView>) -> Seq<LauncherView>
    decreases items.len(),
{
    if items.len() == 0 {
        acc
    } else {
        let prev = add_new(acc, items.drop_last());
        if ids_of(prev).contains(items.last().id) {
            prev
        } else {
            prev.push(items.last())
        }
    }
}

/// The menu made of the providers' results in order: a failed provider
/// contributes nothing, each contributes at most its first [`PER_PROVIDER_CAP`]
/// launchers, and a launcher whose id came earlier is dropped.
pub open spec fn spec_merge_discovered(results: Seq<Option<Seq<LauncherView>>>) -> Seq<LauncherView>
    decreases results.len(),
{
    if results.len() == 0 {
        Seq::empty()
    } else {
        let prev = spec_merge_discovered(results.drop_last());
        match results.last() {
            Some(items) => add_new(
                prev,
                if items.len() > PER_PROVIDER_CAP {
                    items.subrange(0, PER_PROVIDER_CAP as int)
                } else {
                    items
                },
            ),
            None => prev,
        }
    }
}

/// A provider's result as plain values.
pub open spec fn result_view<E>(r: Result<Vec<Launcher>, E>) -> Option<Seq<LauncherView>> {
    match r {
        Ok(v) => Some(lviews(v@)),
        Err(_) => None,
    }
}

/// Whether a launcher with id `id` is among `out`.
fn has_id(out: &Vec<Launcher>, id: &str) -> (r: bool)
    ensures
        r == ids_of(lviews(out@)).contains(id@),
{
    let ghost ids = ids_of(lviews(out@));
    let mut i: usize = 0;
    while i < out.len()
        invariant
            i <= out.len(),
            ids == ids_of(lviews(out@)),
            forall|j: int| 0 <= j < i ==> ids[j] != id@,
        decreases out.len() - i,
    {
        if crate::text::str_eq(out[i].id.as_str(), id) {
            assert(ids[i as int] == id@);
            return true;
        }
        i = i + 1;
    }
    false
}

/// Merges the providers' results in menu order; see [`spec_merge_discovered`].
pub fn merge_discovered<E>(results: Vec<Result<Vec<Launcher>, E>>) -> (out: Vec<Launcher>)
    ensures
        lviews(out@) == spec_merge_discovered(results@.map_values(|r: Result<Vec<Launcher>, E>| result_view(r))),
{
    let ghost rs = results@.map_values(|r: Result<Vec<Launcher>, E>| result_view(r));
    let mut out: Vec<Launcher> = Vec::new();
    let mut results = results;
    let mut pending: Vec<Result<Vec<Launcher>, E>> = Vec::new();
    // Reverse so that popping yields the results in their original order.
    while results.len() > 0
        invariant
            rs.len() == results@.len() + pending@.len(),
            forall|j: int| 0 <= j < results@.len() ==> #[trigger] result_view(results@[j]) == rs[j],
            forall|j: int| 0 <= j < pending@.len() ==> #[trigger] result_view(pending@[j]) == rs[rs.len() - 1 - j],
        decreases results.len(),
    {
        let r = results.pop().unwrap();
        pending.push(r);
    }
    let n = pending.len();
    assert(lviews(out@) =~= spec_merge_discovered(rs.subrange(0, 0)));
    while pending.len() > 0
        invariant
            n == rs.len(),
            pending@.len() <= n,
            forall|j: int| 0 <= j < pending@.len() ==> #[trigger] result_view(pending@[j]) == rs[n - 1 - j],
            lviews(out@) == spec_merge_discovered(rs.subrange(0, n - pending@.len())),
        decreases pending.len(),
    {
        let ghost k = n - pending@.len();
        let r = pending.pop().unwrap();
        assert(result_view(r) == rs[k]);
        proof {
            let p = rs.subrange(0, k + 1);
            assert(p.drop_last() =~= rs.subrange(0, k));
        }
        match r {
            Ok(items) => {
                let ghost its = lviews(items@);
                let take = if items.len() > PER_PROVIDER_CAP {
                    PER_PROVIDER_CAP
                } else {
                    items.len()
                };
                let ghost taken = if items.len() > PER_PROVIDER_CAP {
                    its.subrange(0, PER_PROVIDER_CAP as int)
                } else {
                    its
                };
                let ghost base = lviews(out@);
                let mut items = items;
                items.truncate(take);
                assert(lviews(items@) =~= taken);
                let mut rev: Vec<Launcher> = Vec::new();
                while items.len() > 0
                    invariant
                        taken.len() == items@.len() + rev@.len(),
                        forall|j: int| 0 <= j < items@.len() ==> #[trigger] lview(items@[j]) == taken[j],
                        forall|j: int| 0 <= j < rev@.len() ==> #[trigger] lview(rev@[j]) == taken[taken.len() - 1 - j],
                    decreases items.len(),
                {
                    let l = items.pop().unwrap();
                    rev.push(l);
                }
                let m = rev.len();
                assert(taken.subrange(0, 0) =~= Seq::<LauncherView>::empty());
                while rev.len() > 0
                    invariant
                        m == taken.len(),
                        rev@.len() <= m,
                        forall|j: int| 0 <= j < rev@.len() ==> #[trigger] lview(rev@[j]) == taken[m - 1 - j],
                        lviews(out@) == add_new(base, taken.subrange(0, m - rev@.len())),
                    decreases rev.len(),
                {
                    let ghost t = m - rev@.len();
                    let l = rev.pop().unwrap();
                    assert(lview(l) == taken[t]);
                    proof {
                        let p = taken.subrange(0, t + 1);
                        assert(p.drop_last() =~= taken.subrange(0, t));
                    }
                    if !has_id(&out, l.id.as_str()) {
                        let ghost o0 = lviews(out@);
                        out.push(l);
                        assert(lviews(out@) =~= o0.push(lview(l)));
                    }
                }
                assert(taken.subrange(0, m as int) =~= taken);
            },
            Err(_) => {},
        }
    }
    assert(rs.subrange(0, n as int) =~= rs);
    out
}

/// Runs every provider and merges what they found; see [`merge_discovered`]. A
/// provider that fails only loses its own entries. Each call scans afresh.
pub fn discover_all(providers: &[Box<dyn LauncherProvider>]) -> (out: Vec<Launcher>)
    ensures
        exists|results: Seq<Option<Seq<LauncherView>>>|
            results.len() == providers@.len() && lviews(out@) == spec_merge_discovered(results),
{
    let mut results: Vec<Result<Vec<Launcher>, anyhow::Error>> = Vec::new();
    let mut i: usize = 0;
    while i < providers.len()
        invariant
            i <= providers.len(),
            results@.len() == i,
        decreases providers.len() - i,
    {
        results.push(providers[i].discover());
        i = i + 1;
    }
    let ghost rs = results@.map_values(|r: Result<Vec<Launcher>, anyhow::Error>| result_view(r));
    let out = merge_discovered(results);
    assert(rs.len() == providers@.len());
    out
}

/// No two launchers share an id.
pub open spec fn ids_distinct(ls: Seq<LauncherView>) -> bool {
    forall|i: int, j: int| 0 <= i < j < ls.len() ==> ls[i].id != ls[j].id
}

proof fn lemma_add_new_distinct(acc: Seq<LauncherView>, items: Seq<LauncherView>)
    requires
        ids_distinct(acc),
    ensures
        ids_distinct(add_new(acc, items)),
    decreases items.len(),
{
    if items.len() > 0 {
        lemma_add_new_distinct(acc, items.drop_last());
        let prev = add_new(acc, items.drop_last());
        if !ids_of(prev).contains(items.last().id) {
            let next = prev.push(items.last());
            assert forall|i: int, j: int| 0 <= i < j < next.len() implies next[i].id != next[j].id by {
                if j == prev.len() {
                    assert(ids_of(prev)[i] == prev[i].id);
                }
            }
        }
    }
}

/// Law: however the providers answered, the merged menu never lists two launchers
/// with the same id (the first one seen is kept).
pub proof fn merged_ids_are_distinct(results: Seq<Option<Seq<LauncherView>>>)
    ensures
        ids_distinct(spec_merge_discovered(results)),
    decreases results.len(),
{
    if results.len() > 0 {
        merged_ids_are_distinct(results.drop_last());
        match results.last() {
            Some(items) => {
                let taken = if items.len() > PER_PROVIDER_CAP {
                    items.subrange(0, PER_PROVIDER_CAP as int)
                } else {
                    items
                };
                lemma_add_new_distinct(spec_merge_discovered(results.drop_last()), taken);
            },
            None => {},
        }
    }
}

proof fn lemma_add_new_len(acc: Seq<LauncherView>, items: Seq<LauncherView>)
    ensures
        add_new(acc, items).len() <= acc.len() + items.len(),
    decreases items.len(),
{
    if items.len() > 0 {
        lemma_add_new_len(acc, items.drop_last());
    }
}

/// Law: no provider puts more than [`PER_PROVIDER_CAP`] launchers on the menu, so
/// the menu is never longer than that many per provider.
pub proof fn merged_len_is_capped(results: Seq<Option<Seq<LauncherView>>>)
    ensures
        spec_merge_discovered(results).len() <= PER_PROVIDER_CAP * results.len(),
    decreases results.len(),
{
    if results.len() > 0 {
        merged_len_is_capped(results.drop_last());
        match results.last() {
            Some(items) => {
                let taken = if items.len() > PER_PROVIDER_CAP {
                    items.subrange(0, PER_PROVIDER_CAP as int)
                } else {
                    items
                };
                lemma_add_new_len(spec_merge_discovered(results.drop_last()), taken);
            },
            None => {},
        }
        assert(PER_PROVIDER_CAP * results.len() == PER_PROVIDER_CAP * (results.len() - 1) + PER_PROVIDER_CAP) by (nonlinear_arith);
    }
}

/// The same launcher entry, field for field.
pub open spec fn same_spec(a: crate::config::LauncherSpec, b: crate::config::LauncherSpec) -> bool {
    &&& a.name@ == b.name@
    &&& a.command.deep_view() == b.command.deep_view()
    &&& opt_view(a.cwd) == opt_view(b.cwd)
}

/// A copy of the user's `[[launcher]]` entries, entry for entry.
pub fn copy_specs(specs: &[crate::config::LauncherSpec]) -> (r: Vec<crate::config::LauncherSpec>)
    ensures
        r@.len() == specs@.len(),
        forall|i: int| 0 <= i < r@.len() ==> same_spec(#[trigger] r@[i], specs@[i]),
{
    let mut own: Vec<crate::config::LauncherSpec> = Vec::new();
    let mut i: usize = 0;
    while i < specs.len()
        invariant
            i <= specs.len(),
            own@.len() == i,
            forall|k: int| 0 <= k < i ==> same_spec(#[trigger] own@[k], specs@[k]),
        decreases specs.len() - i,
    {
        let s = &specs[i];
        let cwd = match &s.cwd {
            Some(c) => Some(c.clone()),
            None => None,
        };
        own.push(crate::config::LauncherSpec { name: s.name.clone(), command: copy_strings(&s.command), cwd });
        i = i + 1;
    }
    own
}

/// The provider of the user's own entries: there is one exactly when the user wrote
/// entries, and it holds them all, in order.
pub fn user_config_provider(specs: &[crate::config::LauncherSpec]) -> (r: Option<user_config::UserConfig>)
    ensures
        r is Some <==> specs@.len() > 0,
        r matches Some(u) ==> u.specs().len() == specs@.len() && forall|i: int|
            0 <= i < specs@.len() ==> same_spec(#[trigger] u.specs()[i], specs@[i]),
{
    if specs.len() > 0 {
        Some(user_config::UserConfig::new(copy_specs(specs)))
    } else {
        None
    }
}

/// The providers in menu order: the built-in shell first (it always works), then
/// the user's own `[[launcher]]` entries when there are any (see
/// [`user_config_provider`]; what the user wrote beats what was scanned), then the
/// scanners of installed terminals this platform has. The contract states how many
/// there are and that the scanners come last, in order. It leaves unsaid which
/// provider stands first and second: Verus proves a spec function of a boxed trait
/// object held in a variable, but nothing of one once it sits in a `Vec` or an
/// `Option` (for `Seq<Box<dyn LauncherProvider>>`, even "the element pushed last is
/// the one pushed" is not provable).
pub fn providers(
    specs: &[crate::config::LauncherSpec],
    builtin: builtin::Builtin,
    scanners: Vec<Box<dyn LauncherProvider>>,
) -> (r: Vec<Box<dyn LauncherProvider>>)
    ensures
        r@.len() == 1 + (if specs@.len() > 0 { 1int } else { 0int }) + scanners@.len(),
        r@.subrange(r@.len() - scanners@.len(), r@.len() as int) == scanners@,
{
    let b: Box<dyn LauncherProvider> = Box::new(builtin);
    let mut list: Vec<Box<dyn LauncherProvider>> = vec![b];
    if let Some(own) = user_config_provider(specs) {
        let u: Box<dyn LauncherProvider> = Box::new(own);
        let mut mine: Vec<Box<dyn LauncherProvider>> = vec![u];
        list.append(&mut mine);
    }
    let ghost before = list@;
    let ghost sc = scanners@;
    let mut scanners = scanners;
    list.append(&mut scanners);
    assert(list@.subrange(before.len() as int, list@.len() as int) =~= sc);
    list
}

} // verus!
