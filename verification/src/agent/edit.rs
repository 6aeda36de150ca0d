//! Config edit plans, and the test of whether a hook entry is ours.
//!
//! Everything here is a function of JSON values; writing files is the I/O layer's
//! business. Planning before writing lets the change be shown first, makes applying
//! twice converge (ours are taken out before ours are put in), and keeps the tests
//! off the real home directory.
use vstd::prelude::*;
use crate::json::{
    Json, JsonView, jview, jviews, mviews, vpos, vget, spec_get, spec_as_str, lemma_get_view, lemma_jviews_index,
    lemma_mviews_index, lemma_jviews_map, lemma_mviews_map, member_pos,
};
use crate::text::{chars_of, string_of, spec_parse_u16, parse_u16};

verus! {

/// What planning needs.
pub struct InstallCtx {
    pub home: String,
    /// The path of this server's binary, which command-type hooks run.
    pub exe: String,
    /// The port listened on now; only new URLs use it (removal ignores ports).
    pub port: u16,
    /// Whether to install the blocking (decision) hooks too. With several blocking
    /// hooks on one event the last registered wins, and ours are appended last; so
    /// they are left out while another tool's blocking hook is there, until the user
    /// chooses otherwise.
    pub include_blocking: bool,
}

/// An ASCII uppercase letter.
pub open spec fn is_upper(c: char) -> bool {
    'A' <= c && c <= 'Z'
}

/// An ASCII lowercase letter.
pub open spec fn is_lower(c: char) -> bool {
    'a' <= c && c <= 'z'
}

/// `char::to_ascii_lowercase`.
pub open spec fn to_lower(c: char) -> char {
    if is_upper(c) {
        ((c as u32) + 32) as char
    } else {
        c
    }
}

/// `char::to_ascii_uppercase`.
pub open spec fn to_upper(c: char) -> char {
    if is_lower(c) {
        ((c as u32) - 32) as char
    } else {
        c
    }
}

/// The slug of one character: an uppercase letter becomes `-` and its lowercase
/// (no `-` at the very start).
pub open spec fn slug_piece(c: char, first: bool) -> Seq<char> {
    if is_upper(c) {
        if first {
            seq![to_lower(c)]
        } else {
            seq!['-', to_lower(c)]
        }
    } else {
        seq![c]
    }
}

/// The slug of `s`, `first` telling whether `s` starts the name.
pub open spec fn slug_from(s: Seq<char>, first: bool) -> Seq<char>
    decreases s.len(),
{
    if s.len() == 0 {
        Seq::empty()
    } else {
        slug_piece(s[0], first) + slug_from(s.drop_first(), false)
    }
}

/// `SessionStart` gives `session-start`: URLs only take lowercase and `-`.
pub open spec fn spec_slug_of_event(event: Seq<char>) -> Seq<char> {
    slug_from(event, true)
}

/// The name of a slug: each `-`-separated part with its first character
/// uppercased, the `-`s dropped; `start` tells whether a part begins here.
pub open spec fn cap_from(s: Seq<char>, start: bool) -> Seq<char>
    decreases s.len(),
{
    if s.len() == 0 {
        Seq::empty()
    } else if s[0] == '-' {
        cap_from(s.drop_first(), true)
    } else if start {
        seq![to_upper(s[0])] + cap_from(s.drop_first(), false)
    } else {
        seq![s[0]] + cap_from(s.drop_first(), false)
    }
}

/// `session-start` gives `SessionStart`.
pub open spec fn spec_event_of_slug(slug: Seq<char>) -> Seq<char> {
    cap_from(slug, true)
}

fn lower_char(c: char) -> (r: char)
    ensures
        r == to_lower(c),
{
    if 'A' <= c && c <= 'Z' {
        let v = c as u32;
        ((v + 32) as u8) as char
    } else {
        c
    }
}

fn upper_char(c: char) -> (r: char)
    ensures
        r == to_upper(c),
{
    if 'a' <= c && c <= 'z' {
        let v = c as u32;
        ((v - 32) as u8) as char
    } else {
        c
    }
}

/// The slug of an event name, for the hook URL; see [`spec_slug_of_event`].
pub fn slug_of_event(event: &str) -> (r: String)
    ensures
        r@ == spec_slug_of_event(event@),
{
    let v = chars_of(event);
    let mut out: Vec<char> = Vec::new();
    let mut i: usize = 0;
    assert(v@.subrange(0, v.len() as int) =~= v@);
    assert(out@ + slug_from(v@, true) =~= slug_from(v@, true));
    while i < v.len()
        invariant
            i <= v.len(),
            slug_from(v@, true) == out@ + slug_from(v@.subrange(i as int, v.len() as int), i == 0),
        decreases v.len() - i,
    {
        let ghost rest = v@.subrange(i as int, v.len() as int);
        assert(rest.drop_first() =~= v@.subrange(i + 1, v.len() as int));
        assert(rest[0] == v@[i as int]);
        let c = v[i];
        let ghost o0 = out@;
        if 'A' <= c && c <= 'Z' {
            if i != 0 {
                out.push('-');
            }
            out.push(lower_char(c));
        } else {
            out.push(c);
        }
        assert(out@ =~= o0 + slug_piece(c, i == 0));
        i = i + 1;
    }
    assert(v@.subrange(v.len() as int, v.len() as int) =~= Seq::<char>::empty());
    assert(out@ =~= out@ + Seq::<char>::empty());
    assert(v@.subrange(0, v.len() as int) =~= v@);
    string_of(out.as_slice())
}

/// The event name of a slug from a hook URL; see [`spec_event_of_slug`].
pub fn event_of_slug(slug: &str) -> (r: String)
    ensures
        r@ == spec_event_of_slug(slug@),
{
    let v = chars_of(slug);
    let mut out: Vec<char> = Vec::new();
    let mut i: usize = 0;
    let mut start = true;
    assert(v@.subrange(0, v.len() as int) =~= v@);
    assert(out@ + cap_from(v@, true) =~= cap_from(v@, true));
    while i < v.len()
        invariant
            i <= v.len(),
            cap_from(v@, true) == out@ + cap_from(v@.subrange(i as int, v.len() as int), start),
        decreases v.len() - i,
    {
        let ghost rest = v@.subrange(i as int, v.len() as int);
        assert(rest.drop_first() =~= v@.subrange(i + 1, v.len() as int));
        assert(rest[0] == v@[i as int]);
        let c = v[i];
        let ghost o0 = out@;
        if c == '-' {
            start = true;
            assert(out@ =~= o0 + Seq::<char>::empty());
        } else if start {
            out.push(upper_char(c));
            start = false;
            assert(out@ =~= o0 + seq![to_upper(c)]);
        } else {
            out.push(c);
            assert(out@ =~= o0 + seq![c]);
        }
        i = i + 1;
    }
    assert(v@.subrange(v.len() as int, v.len() as int) =~= Seq::<char>::empty());
    assert(out@ =~= out@ + Seq::<char>::empty());
    string_of(out.as_slice())
}

/// Every character of `s` is not `-`.
pub open spec fn no_dash(s: Seq<char>) -> bool {
    forall|i: int| 0 <= i < s.len() ==> s[i] != '-'
}

proof fn lemma_slug_round_trip_rest(s: Seq<char>)
    requires
        no_dash(s),
    ensures
        cap_from(slug_from(s, false), false) == s,
    decreases s.len(),
{
    if s.len() > 0 {
        let c = s[0];
        let t = s.drop_first();
        assert(no_dash(t)) by {
            assert forall|i: int| 0 <= i < t.len() implies t[i] != '-' by {
                assert(t[i] == s[i + 1]);
            }
        }
        lemma_slug_round_trip_rest(t);
        let rest = slug_from(t, false);
        if is_upper(c) {
            let x = seq!['-', to_lower(c)] + rest;
            assert(x[0] == '-');
            assert(x.drop_first() =~= seq![to_lower(c)] + rest);
            let y = seq![to_lower(c)] + rest;
            assert(y[0] == to_lower(c));
            assert(y.drop_first() =~= rest);
            assert(to_upper(to_lower(c)) == c);
            assert(to_lower(c) != '-');
            assert(cap_from(y, true) == seq![to_upper(y[0])] + cap_from(y.drop_first(), false));
            assert(cap_from(x, false) == cap_from(x.drop_first(), true));
            assert(cap_from(x, false) =~= seq![c] + t);
        } else {
            let x = seq![c] + rest;
            assert(x[0] == c);
            assert(x.drop_first() =~= rest);
            assert(cap_from(x, false) =~= seq![c] + t);
        }
        assert(s =~= seq![c] + t);
    }
}

/// Law: the slug is undone by its inverse for every event name that has no `-` and
/// does not start with a lowercase letter (every name of the agents' hook events),
/// so a callback's path segment names the event it was installed for.
pub proof fn slug_round_trips(event: Seq<char>)
    requires
        no_dash(event),
        event.len() == 0 || !is_lower(event[0]),
    ensures
        spec_event_of_slug(spec_slug_of_event(event)) == event,
{
    if event.len() > 0 {
        let c = event[0];
        let t = event.drop_first();
        assert(no_dash(t)) by {
            assert forall|i: int| 0 <= i < t.len() implies t[i] != '-' by {
                assert(t[i] == event[i + 1]);
            }
        }
        lemma_slug_round_trip_rest(t);
        let rest = slug_from(t, false);
        let x = seq![if is_upper(c) { to_lower(c) } else { c }] + rest;
        assert(slug_from(event, true) == x);
        assert(x[0] != '-');
        assert(x.drop_first() =~= rest);
        assert(to_upper(x[0]) == c);
        assert(cap_from(x, true) =~= seq![c] + t);
        assert(event =~= seq![c] + t);
    }
}

/// A path segment made of lowercase ASCII letters, digits and `-`, not empty.
pub open spec fn is_slug(s: Seq<char>) -> bool {
    s.len() > 0 && forall|i: int|
        0 <= i < s.len() ==> is_lower(#[trigger] s[i]) || ('0' <= s[i] && s[i] <= '9') || s[i] == '-'
}

fn is_slug_chars(s: &Vec<char>, a: usize, b: usize) -> (r: bool)
    requires
        a <= b <= s.len(),
    ensures
        r == is_slug(s@.subrange(a as int, b as int)),
{
    let ghost t = s@.subrange(a as int, b as int);
    if a == b {
        return false;
    }
    let mut i: usize = a;
    while i < b
        invariant
            a <= i <= b <= s.len(),
            t == s@.subrange(a as int, b as int),
            forall|k: int| 0 <= k < i - a ==> is_lower(#[trigger] t[k]) || ('0' <= t[k] && t[k] <= '9') || t[k] == '-',
        decreases b - i,
    {
        let c = s[i];
        assert(t[i - a] == c);
        if !(('a' <= c && c <= 'z') || ('0' <= c && c <= '9') || c == '-') {
            return false;
        }
        i = i + 1;
    }
    true
}

/// The index of the first `c` in `s` at or after `from`, or `s.len()`.
pub open spec fn next_of(s: Seq<char>, c: char, from: int) -> int
    decreases s.len() - from,
{
    if from >= s.len() || from < 0 {
        s.len() as int
    } else if s[from] == c {
        from
    } else {
        next_of(s, c, from + 1)
    }
}

/// The port of a URL this module writes: `http://127.0.0.1:<port>/hook/<agent>/<event>`
/// with slugs for agent and event and no query, fragment or credentials; any other
/// URL is not ours.
#[verifier::opaque]
pub open spec fn spec_url_port(url: Seq<char>) -> Option<u16> {
    let p = "http://127.0.0.1:"@;
    if url.contains('?') || url.contains('#') || url.contains('@') {
        None
    } else if url.len() < p.len() || url.subrange(0, p.len() as int) != p {
        None
    } else {
        let rest = url.subrange(p.len() as int, url.len() as int);
        let j = next_of(rest, '/', 0);
        if j >= rest.len() {
            None
        } else {
            let path = rest.subrange(j + 1, rest.len() as int);
            let s1 = next_of(path, '/', 0);
            let s2 = next_of(path, '/', s1 + 1);
            if s1 >= path.len() || s2 >= path.len() || next_of(path, '/', s2 + 1) < path.len() {
                None
            } else if path.subrange(0, s1) != "hook"@ || !is_slug(path.subrange(s1 + 1, s2))
                || !is_slug(path.subrange(s2 + 1, path.len() as int)) {
                None
            } else {
                spec_parse_u16(rest.subrange(0, j))
            }
        }
    }
}

/// The port of a hook entry this module wrote: an `http` hook with one of its URLs.
pub open spec fn spec_hook_port(hook: Json) -> Option<u16> {
    let ty = match spec_get(hook, "type"@) {
        Some(t) => spec_as_str(t),
        None => None,
    };
    let url = match spec_get(hook, "url"@) {
        Some(u) => spec_as_str(u),
        None => None,
    };
    if ty != Some("http"@) {
        None
    } else {
        match url {
            Some(u) => spec_url_port(u),
            None => None,
        }
    }
}

fn find_from(v: &Vec<char>, c: char, from: usize) -> (r: usize)
    requires
        from <= v.len(),
    ensures
        r == next_of(v@, c, from as int),
        from <= r <= v.len(),
{
    let mut i = from;
    while i < v.len() && v[i] != c
        invariant
            from <= i <= v.len(),
            next_of(v@, c, from as int) == next_of(v@, c, i as int),
        decreases v.len() - i,
    {
        i = i + 1;
    }
    i
}

fn has_char(v: &Vec<char>, c: char) -> (r: bool)
    ensures
        r == v@.contains(c),
{
    let i = find_from(v, c, 0);
    proof {
        lemma_next_of_none(v@, c, 0);
        if i < v.len() {
            lemma_next_of_found(v@, c, 0);
        }
    }
    i < v.len()
}

proof fn lemma_next_of_found(s: Seq<char>, c: char, from: int)
    requires
        0 <= from,
        next_of(s, c, from) < s.len(),
    ensures
        s[next_of(s, c, from)] == c,
        from <= next_of(s, c, from),
    decreases s.len() - from,
{
    if from < s.len() && s[from] != c {
        lemma_next_of_found(s, c, from + 1);
    }
}

proof fn lemma_next_of_none(s: Seq<char>, c: char, from: int)
    requires
        0 <= from,
    ensures
        forall|i: int| from <= i < next_of(s, c, from) ==> s[i] != c,
        next_of(s, c, from) <= s.len() || from > s.len(),
    decreases s.len() - from,
{
    if from < s.len() && s[from] != c {
        lemma_next_of_none(s, c, from + 1);
    }
}

fn slice_chars(v: &Vec<char>, a: usize, b: usize) -> (r: Vec<char>)
    requires
        a <= b <= v.len(),
    ensures
        r@ == v@.subrange(a as int, b as int),
{
    crate::text::slice_to_vec(v, a, b)
}

/// The port of a URL this module writes; see [`spec_url_port`].
fn url_port(url: &str) -> (r: Option<u16>)
    ensures
        r == spec_url_port(url@),
{
    reveal(spec_url_port);
    let v = chars_of(url);
    if has_char(&v, '?') || has_char(&v, '#') || has_char(&v, '@') {
        return None;
    }
    let pfx = chars_of("http://127.0.0.1:");
    proof {
        reveal_strlit("http://127.0.0.1:");
        reveal_strlit("hook");
    }
    let n = pfx.len();
    if v.len() < n {
        return None;
    }
    let head = slice_chars(&v, 0, n);
    if !crate::text::chars_eq(head.as_slice(), pfx.as_slice()) {
        return None;
    }
    let rest = slice_chars(&v, n, v.len());
    let j = find_from(&rest, '/', 0);
    if j >= rest.len() {
        return None;
    }
    let path = slice_chars(&rest, j + 1, rest.len());
    let s1 = find_from(&path, '/', 0);
    if s1 >= path.len() {
        return None;
    }
    let s2 = find_from(&path, '/', s1 + 1);
    if s2 >= path.len() {
        return None;
    }
    let s3 = find_from(&path, '/', s2 + 1);
    if s3 < path.len() {
        return None;
    }
    let seg = slice_chars(&path, 0, s1);
    let hook = chars_of("hook");
    if !crate::text::chars_eq(seg.as_slice(), hook.as_slice()) {
        return None;
    }
    if !is_slug_chars(&path, s1 + 1, s2) || !is_slug_chars(&path, s2 + 1, path.len()) {
        return None;
    }
    let port = slice_chars(&rest, 0, j);
    parse_u16(port.as_slice())
}

/// The port of a hook entry this module wrote; see [`spec_hook_port`].
fn hook_port(hook: &Json) -> (r: Option<u16>)
    ensures
        r == spec_hook_port(*hook),
{
    let ty = match hook.get("type") {
        Some(t) => t.as_str(),
        None => None,
    };
    let is_http = match ty {
        Some(t) => crate::text::str_eq(t, "http"),
        None => false,
    };
    if !is_http {
        return None;
    }
    match hook.get("url") {
        Some(u) => match u.as_str() {
            Some(s) => url_port(s),
            None => None,
        },
        None => None,
    }
}

/// Whether `hook` is an entry this module wrote for the current `port`. Strict:
/// better to leave one of ours than to take the user's own approval endpoint.
pub fn is_ours(hook: &Json, port: u16) -> (r: bool)
    ensures
        r == (spec_hook_port(*hook) == Some(port)),
{
    match hook_port(hook) {
        Some(p) => p == port,
        None => false,
    }
}

/// Whether `hook` is an entry this module wrote, on any port: after the listening
/// port changed, the old entries are still ours to remove.
pub fn is_ours_any_port(hook: &Json) -> (r: bool)
    ensures
        r == (spec_hook_port(*hook) is Some),
{
    hook_port(hook).is_some()
}

/// `as_str` on a plain value.
pub open spec fn vstr(j: JsonView) -> Option<Seq<char>> {
    match j {
        JsonView::Str(s) => Some(s),
        _ => None,
    }
}

/// [`spec_hook_port`] on a plain value.
pub open spec fn vhook_port(h: JsonView) -> Option<u16> {
    let ty = match vget(h, "type"@) {
        Some(t) => vstr(t),
        None => None,
    };
    let url = match vget(h, "url"@) {
        Some(u) => vstr(u),
        None => None,
    };
    if ty != Some("http"@) {
        None
    } else {
        match url {
            Some(u) => spec_url_port(u),
            None => None,
        }
    }
}

proof fn lemma_str_view(j: Json)
    ensures
        spec_as_str(j) == vstr(jview(j)),
{
}

proof fn lemma_field_str_view(h: Json, key: Seq<char>)
    ensures
        (match spec_get(h, key) {
            Some(t) => spec_as_str(t),
            None => None,
        }) == (match vget(jview(h), key) {
            Some(t) => vstr(t),
            None => None,
        }),
{
    lemma_get_view(h, key);
    match spec_get(h, key) {
        Some(t) => {
            lemma_str_view(t);
        },
        None => {},
    }
}

pub proof fn lemma_hook_port_view(h: Json)
    ensures
        spec_hook_port(h) == vhook_port(jview(h)),
{
    lemma_field_str_view(h, "type"@);
    lemma_field_str_view(h, "url"@);
}

/// A hook list without the entries this module wrote (on any port).
pub open spec fn filter_ours(list: Seq<JsonView>) -> Seq<JsonView>
    decreases list.len(),
{
    if list.len() == 0 {
        Seq::empty()
    } else {
        filter_ours(list.drop_last()) + if vhook_port(list.last()) is Some {
            Seq::empty()
        } else {
            seq![list.last()]
        }
    }
}

/// One matcher group without our entries: `None` when that left it empty (a group
/// that was empty before is the user's and stays).
pub open spec fn clean_group(g: JsonView) -> Option<JsonView> {
    match g {
        JsonView::Object(ms) => {
            let p = vpos(ms, "hooks"@);
            if p < 0 {
                Some(g)
            } else {
                match ms[p].1 {
                    JsonView::Array(list) => {
                        let nl = filter_ours(list);
                        if nl.len() != list.len() && nl.len() == 0 {
                            None
                        } else {
                            Some(JsonView::Object(ms.update(p, (ms[p].0, JsonView::Array(nl)))))
                        }
                    },
                    _ => Some(g),
                }
            }
        },
        _ => Some(g),
    }
}

/// The groups of an event without our entries, the groups we emptied dropped.
pub open spec fn clean_groups(gs: Seq<JsonView>) -> Seq<JsonView>
    decreases gs.len(),
{
    if gs.len() == 0 {
        Seq::empty()
    } else {
        clean_groups(gs.drop_last()) + match clean_group(gs.last()) {
            Some(g) => seq![g],
            None => Seq::empty(),
        }
    }
}

/// `doc` with our entries under `hooks.<event>` removed. An event left with no
/// groups is removed, and so is a `hooks` left empty: after uninstalling, the file
/// shows no trace. Nothing changes when the path is not there or not of the
/// expected kinds.
pub open spec fn v_remove_ours(doc: JsonView, event: Seq<char>) -> JsonView {
    match doc {
        JsonView::Object(root) => {
            let hp = vpos(root, "hooks"@);
            if hp < 0 {
                doc
            } else {
                match root[hp].1 {
                    JsonView::Object(hooks) => {
                        let ep = vpos(hooks, event);
                        if ep < 0 {
                            doc
                        } else {
                            match hooks[ep].1 {
                                JsonView::Array(groups) => {
                                    let ng = clean_groups(groups);
                                    let nh = if ng.len() == 0 {
                                        hooks.remove(ep)
                                    } else {
                                        hooks.update(ep, (hooks[ep].0, JsonView::Array(ng)))
                                    };
                                    JsonView::Object(
                                        if nh.len() == 0 {
                                            root.remove(hp)
                                        } else {
                                            root.update(hp, (root[hp].0, JsonView::Object(nh)))
                                        },
                                    )
                                },
                                _ => doc,
                            }
                        }
                    },
                    _ => doc,
                }
            }
        },
        _ => doc,
    }
}

/// The group our entry is installed in: `{"matcher": "", "hooks": [spec]}`.
pub open spec fn our_group(spec: JsonView) -> JsonView {
    JsonView::Object(seq![("matcher"@, JsonView::Str(Seq::empty())), ("hooks"@, JsonView::Array(seq![spec]))])
}

/// Why an entry could not be installed.
#[derive(Debug, Clone, PartialEq, Eq)]
pub enum EditError {
    /// The config's root is not a JSON object.
    RootNotObject,
    /// `hooks` is not a JSON object.
    HooksNotObject,
    /// `hooks.<event>` is not an array.
    EventNotArray { event: String },
}

/// The error in words.
pub open spec fn edit_error_text(e: EditError) -> Seq<char> {
    match e {
        EditError::RootNotObject => "配置根不是 JSON 对象"@,
        EditError::HooksNotObject => "`hooks` 不是 JSON 对象"@,
        EditError::EventNotArray { event } => "`hooks."@ + event@ + "` 不是数组"@,
    }
}

impl EditError {
    /// The error in words.
    pub fn message(&self) -> (r: String)
        ensures
            r@ == edit_error_text(*self),
    {
        match self {
            EditError::RootNotObject => String::from_str("配置根不是 JSON 对象"),
            EditError::HooksNotObject => String::from_str("`hooks` 不是 JSON 对象"),
            EditError::EventNotArray { event } => {
                let mut m = String::from_str("`hooks.");
                m.append(event.as_str());
                m.append("` 不是数组");
                m
            },
        }
    }
}

/// What installing gives: the new document, or why not.
pub ghost enum EnsureOutcome {
    Done(JsonView),
    RootNotObject,
    HooksNotObject,
    EventNotArray,
}

/// The members of `hooks` with our group appended to `event`'s groups (the event
/// created at the end when missing); `None` when its value is not an array.
pub open spec fn add_in_hooks(
    hooks: Seq<(Seq<char>, JsonView)>,
    event: Seq<char>,
    spec: JsonView,
) -> Option<Seq<(Seq<char>, JsonView)>> {
    let ep = vpos(hooks, event);
    let hooks1 = if ep >= 0 {
        hooks
    } else {
        hooks.push((event, JsonView::Array(Seq::empty())))
    };
    let ei = if ep >= 0 {
        ep
    } else {
        hooks.len() as int
    };
    match hooks1[ei].1 {
        JsonView::Array(groups) => Some(
            hooks1.update(ei, (hooks1[ei].0, JsonView::Array(groups.push(our_group(spec))))),
        ),
        _ => None,
    }
}

/// `doc` with exactly one entry of ours under `hooks.<event>`: ours are removed
/// first, then one group with `spec` is appended (`hooks` and the event are
/// created, at the end, when missing). Fails when the root, `hooks` or the event's
/// value is not of the kind needed.
pub open spec fn v_ensure(doc: JsonView, event: Seq<char>, spec: JsonView) -> EnsureOutcome {
    let d = v_remove_ours(doc, event);
    match d {
        JsonView::Object(root) => {
            let hp = vpos(root, "hooks"@);
            let root1 = if hp >= 0 {
                root
            } else {
                root.push(("hooks"@, JsonView::Object(Seq::empty())))
            };
            let hi = if hp >= 0 {
                hp
            } else {
                root.len() as int
            };
            match root1[hi].1 {
                JsonView::Object(hooks) => match add_in_hooks(hooks, event, spec) {
                    Some(nh) => EnsureOutcome::Done(JsonView::Object(root1.update(hi, (root1[hi].0, JsonView::Object(nh))))),
                    None => EnsureOutcome::EventNotArray,
                },
                _ => EnsureOutcome::HooksNotObject,
            }
        },
        _ => EnsureOutcome::RootNotObject,
    }
}

/// `list` without our entries; see [`filter_ours`].
fn filter_ours_vec(list: &Vec<Json>) -> (r: Vec<Json>)
    ensures
        jviews(r@) == filter_ours(jviews(list@)),
{
    let mut out: Vec<Json> = Vec::new();
    let mut i: usize = 0;
    proof {
        lemma_jviews_map(list@);
    }
    assert(jviews(list@.subrange(0, 0)) =~= Seq::<JsonView>::empty()) by {
        lemma_jviews_map(list@.subrange(0, 0));
    }
    assert(jviews(out@) =~= Seq::<JsonView>::empty()) by {
        lemma_jviews_map(out@);
    }
    while i < list.len()
        invariant
            i <= list.len(),
            jviews(out@) == filter_ours(jviews(list@.subrange(0, i as int))),
        decreases list.len() - i,
    {
        let ghost o0 = out@;
        proof {
            lemma_jviews_map(list@.subrange(0, i + 1));
            lemma_jviews_map(list@.subrange(0, i as int));
            let p = jviews(list@.subrange(0, i + 1));
            assert(p.drop_last() =~= jviews(list@.subrange(0, i as int)));
            assert(p.last() == jview(list@[i as int]));
            lemma_hook_port_view(list@[i as int]);
        }
        if !is_ours_any_port(&list[i]) {
            let x = list[i].duplicate();
            out.push(x);
            proof {
                lemma_jviews_map(out@);
                lemma_jviews_map(o0);
                assert(jviews(out@) =~= jviews(o0) + seq![jview(x)]);
            }
        } else {
            assert(jviews(out@) =~= jviews(o0) + Seq::<JsonView>::empty());
        }
        i = i + 1;
    }
    assert(list@.subrange(0, list.len() as int) =~= list@);
    out
}

/// One group without our entries; see [`clean_group`].
fn clean_group_owned(g: Json) -> (r: Option<Json>)
    ensures
        match r {
            Some(x) => clean_group(jview(g)) == Some(jview(x)),
            None => clean_group(jview(g)) is None,
        },
{
    match g {
        Json::Object(mut ms) => {
            proof {
                lemma_mviews_map(ms@);
            }
            let p = match member_pos(&ms, "hooks") {
                Some(p) => p,
                None => {
                    return Some(Json::Object(ms));
                },
            };
            let ghost m0 = ms@;
            let ghost k0 = ms@[p as int].0;
            let (nl, emptied) = match &ms[p].1 {
                Json::Array(list) => {
                    let nl = filter_ours_vec(list);
                    proof {
                        lemma_jviews_map(nl@);
                        lemma_jviews_map(list@);
                    }
                    let emptied = nl.len() != list.len() && nl.len() == 0;
                    (nl, emptied)
                },
                _ => {
                    return Some(Json::Object(ms));
                },
            };
            if emptied {
                return None;
            }
            let key = ms[p].0.clone();
            ms.set(p, (key, Json::Array(nl)));
            proof {
                lemma_mviews_map(ms@);
                assert(mviews(ms@) =~= mviews(m0).update(p as int, (k0@, JsonView::Array(jviews(nl@)))));
            }
            Some(Json::Object(ms))
        },
        other => Some(other),
    }
}

/// The groups of an event without our entries; see [`clean_groups`].
fn clean_groups_vec(gs: &Vec<Json>) -> (r: Vec<Json>)
    ensures
        jviews(r@) == clean_groups(jviews(gs@)),
{
    let mut out: Vec<Json> = Vec::new();
    let mut i: usize = 0;
    assert(jviews(gs@.subrange(0, 0)) =~= Seq::<JsonView>::empty()) by {
        lemma_jviews_map(gs@.subrange(0, 0));
    }
    assert(jviews(out@) =~= Seq::<JsonView>::empty()) by {
        lemma_jviews_map(out@);
    }
    while i < gs.len()
        invariant
            i <= gs.len(),
            jviews(out@) == clean_groups(jviews(gs@.subrange(0, i as int))),
        decreases gs.len() - i,
    {
        let ghost o0 = out@;
        proof {
            lemma_jviews_map(gs@.subrange(0, i + 1));
            lemma_jviews_map(gs@.subrange(0, i as int));
            let p = jviews(gs@.subrange(0, i + 1));
            assert(p.drop_last() =~= jviews(gs@.subrange(0, i as int)));
            assert(p.last() == jview(gs@[i as int]));
        }
        let g = gs[i].duplicate();
        match clean_group_owned(g) {
            Some(x) => {
                out.push(x);
                proof {
                    lemma_jviews_map(out@);
                    lemma_jviews_map(o0);
                    assert(jviews(out@) =~= jviews(o0) + seq![jview(x)]);
                }
            },
            None => {
                assert(jviews(out@) =~= jviews(o0) + Seq::<JsonView>::empty());
            },
        }
        i = i + 1;
    }
    assert(gs@.subrange(0, gs.len() as int) =~= gs@);
    out
}

/// The members of `hooks` after removing our entries under `event`, as
/// [`v_remove_ours`] does at that level.
pub open spec fn strip_event(hv: Seq<(Seq<char>, JsonView)>, event: Seq<char>) -> Option<Seq<(Seq<char>, JsonView)>> {
    let ep = vpos(hv, event);
    if ep < 0 {
        None
    } else {
        match hv[ep].1 {
            JsonView::Array(groups) => {
                let ng = clean_groups(groups);
                Some(
                    if ng.len() == 0 {
                        hv.remove(ep)
                    } else {
                        hv.update(ep, (hv[ep].0, JsonView::Array(ng)))
                    },
                )
            },
            _ => None,
        }
    }
}

fn remove_in_hooks(hooks: Vec<(String, Json)>, event: &str) -> (r: (Vec<(String, Json)>, bool))
    ensures
        match strip_event(mviews(hooks@), event@) {
            Some(nh) => r.1 && mviews(r.0@) == nh,
            None => !r.1 && mviews(r.0@) == mviews(hooks@),
        },
{
    let mut hooks = hooks;
    proof {
        lemma_mviews_map(hooks@);
    }
    let ep = match member_pos(&hooks, event) {
        Some(i) => i,
        None => {
            return (hooks, false);
        },
    };
    let ghost h0 = hooks@;
    let (ek, ev) = hooks.remove(ep);
    match ev {
        Json::Array(groups) => {
            let ng = clean_groups_vec(&groups);
            proof {
                lemma_jviews_map(ng@);
            }
            if ng.len() > 0 {
                hooks.insert(ep, (ek, Json::Array(ng)));
            }
            proof {
                lemma_mviews_map(hooks@);
                lemma_mviews_map(h0);
                if ng.len() > 0 {
                    assert(mviews(hooks@) =~= mviews(h0).update(
                        ep as int,
                        (mviews(h0)[ep as int].0, JsonView::Array(jviews(ng@))),
                    ));
                } else {
                    assert(mviews(hooks@) =~= mviews(h0).remove(ep as int));
                }
            }
            (hooks, true)
        },
        other => {
            hooks.insert(ep, (ek, other));
            proof {
                lemma_mviews_map(hooks@);
                lemma_mviews_map(h0);
                assert(hooks@ =~= h0);
            }
            (hooks, false)
        },
    }
}

/// `doc` with our entries under `hooks.<event>` removed; see [`v_remove_ours`].
pub fn remove_ours(doc: Json, event: &str) -> (r: Json)
    ensures
        jview(r) == v_remove_ours(jview(doc), event@),
{
    match doc {
        Json::Object(mut root) => {
            proof {
                lemma_mviews_map(root@);
            }
            let hp = match member_pos(&root, "hooks") {
                Some(i) => i,
                None => {
                    return Json::Object(root);
                },
            };
            let ghost r0 = root@;
            let (hk, hv) = root.remove(hp);
            match hv {
                Json::Object(hooks) => {
                    let ghost hview = mviews(hooks@);
                    proof {
                        lemma_mviews_map(r0);
                        assert(mviews(r0)[hp as int] == (hk@, JsonView::Object(hview)));
                        assert(vpos(mviews(r0), "hooks"@) == hp);
                    }
                    let (nh, changed) = remove_in_hooks(hooks, event);
                    if changed && nh.len() == 0 {
                        proof {
                            lemma_mviews_map(root@);
                            lemma_mviews_map(r0);
                            lemma_mviews_map(nh@);
                            assert(mviews(root@) =~= mviews(r0).remove(hp as int));
                        }
                        return Json::Object(root);
                    }
                    let ghost nv = mviews(nh@);
                    root.insert(hp, (hk, Json::Object(nh)));
                    proof {
                        lemma_mviews_map(root@);
                        lemma_mviews_map(r0);
                        lemma_mviews_map(nh@);
                        assert(mviews(root@) =~= mviews(r0).update(hp as int, (mviews(r0)[hp as int].0, JsonView::Object(nv))));
                        if !changed {
                            assert(mviews(root@) =~= mviews(r0));
                        }
                    }
                    Json::Object(root)
                },
                other => {
                    root.insert(hp, (hk, other));
                    proof {
                        assert(root@ =~= r0);
                    }
                    Json::Object(root)
                },
            }
        },
        other => other,
    }
}

fn our_group_json(spec: &Json) -> (r: Json)
    ensures
        jview(r) == our_group(jview(*spec)),
{
    let mut hooks: Vec<Json> = Vec::new();
    hooks.push(spec.duplicate());
    let mut ms: Vec<(String, Json)> = Vec::new();
    ms.push((String::from_str("matcher"), Json::Str(String::new())));
    ms.push((String::from_str("hooks"), Json::Array(hooks)));
    proof {
        reveal_strlit("matcher");
        reveal_strlit("hooks");
        lemma_jviews_map(hooks@);
        lemma_mviews_map(ms@);
        assert(jviews(hooks@) =~= seq![jview(*spec)]);
        assert(mviews(ms@) =~= seq![("matcher"@, JsonView::Str(Seq::empty())), ("hooks"@, JsonView::Array(seq![jview(*spec)]))]);
    }
    Json::Object(ms)
}

fn ensure_in_hooks(hooks: Vec<(String, Json)>, event: &str, spec: &Json) -> (r: (Vec<(String, Json)>, bool))
    ensures
        match add_in_hooks(mviews(hooks@), event@, jview(*spec)) {
            Some(nh) => r.1 && mviews(r.0@) == nh,
            None => !r.1 && mviews(r.0@) == mviews(hooks@),
        },
{
    let mut hooks = hooks;
    proof {
        lemma_mviews_map(hooks@);
    }
    let ghost h0 = hooks@;
    let ei = match member_pos(&hooks, event) {
        Some(i) => i,
        None => {
            hooks.push((event.to_string(), Json::Array(Vec::new())));
            proof {
                lemma_mviews_map(hooks@);
                assert(mviews(hooks@) =~= mviews(h0).push((event@, JsonView::Array(Seq::empty()))));
            }
            hooks.len() - 1
        },
    };
    let ghost h1 = hooks@;
    proof {
        lemma_mviews_map(h1);
    }
    let (ek, ev) = hooks.remove(ei);
    match ev {
        Json::Array(mut groups) => {
            let ghost g0 = groups@;
            let g = our_group_json(spec);
            groups.push(g);
            proof {
                lemma_jviews_map(groups@);
                lemma_jviews_map(g0);
                assert(jviews(groups@) =~= jviews(g0).push(our_group(jview(*spec))));
            }
            let ghost gv = jviews(groups@);
            hooks.insert(ei, (ek, Json::Array(groups)));
            proof {
                lemma_mviews_map(hooks@);
                assert(mviews(hooks@) =~= mviews(h1).update(ei as int, (mviews(h1)[ei as int].0, JsonView::Array(gv))));
            }
            (hooks, true)
        },
        other => {
            hooks.insert(ei, (ek, other));
            proof {
                assert(hooks@ =~= h1);
                assert(vpos(mviews(h0), event@) >= 0);
                assert(h1 == h0);
            }
            (hooks, false)
        },
    }
}

/// Installs `spec` as the one entry of ours under `hooks.<event>`; see
/// [`v_ensure`]. On failure the document is left with ours removed.
pub fn ensure(doc: Json, event: &str, spec: &Json) -> (r: (Json, Option<EditError>))
    ensures
        match v_ensure(jview(doc), event@, jview(*spec)) {
            EnsureOutcome::Done(v) => r.1 is None && jview(r.0) == v,
            EnsureOutcome::RootNotObject => r.1 == Some(EditError::RootNotObject) && jview(r.0)
                == v_remove_ours(jview(doc), event@),
            EnsureOutcome::HooksNotObject => r.1 == Some(EditError::HooksNotObject) && jview(r.0)
                == v_remove_ours(jview(doc), event@),
            EnsureOutcome::EventNotArray => r.1 matches Some(EditError::EventNotArray { event: e })
                && e@ == event@ && jview(r.0) == v_remove_ours(jview(doc), event@),
        },
{
    let d = remove_ours(doc, event);
    match d {
        Json::Object(mut root) => {
            proof {
                lemma_mviews_map(root@);
                reveal_strlit("hooks");
            }
            let ghost r0 = root@;
            let hi = match member_pos(&root, "hooks") {
                Some(i) => i,
                None => {
                    root.push((String::from_str("hooks"), Json::Object(Vec::new())));
                    proof {
                        lemma_mviews_map(root@);
                        assert(mviews(root@) =~= mviews(r0).push(("hooks"@, JsonView::Object(Seq::empty()))));
                    }
                    root.len() - 1
                },
            };
            let ghost r1 = root@;
            proof {
                lemma_mviews_map(r1);
            }
            let (hk, hv) = root.remove(hi);
            match hv {
                Json::Object(hooks) => {
                    let (nh, ok) = ensure_in_hooks(hooks, event, spec);
                    let ghost nv = mviews(nh@);
                    if !ok {
                        let name = event.to_string();
                        root.insert(hi, (hk, Json::Object(nh)));
                        proof {
                            lemma_mviews_map(root@);
                            assert(mviews(root@) =~= mviews(r1));
                            assert(r1 == r0);
                        }
                        return (Json::Object(root), Some(EditError::EventNotArray { event: name }));
                    }
                    root.insert(hi, (hk, Json::Object(nh)));
                    proof {
                        lemma_mviews_map(root@);
                        assert(mviews(root@) =~= mviews(r1).update(hi as int, (mviews(r1)[hi as int].0, JsonView::Object(nv))));
                    }
                    (Json::Object(root), None)
                },
                other => {
                    root.insert(hi, (hk, other));
                    proof {
                        assert(root@ =~= r1);
                        assert(r1 == r0);
                    }
                    (Json::Object(root), Some(EditError::HooksNotObject))
                },
            }
        },
        other => (other, Some(EditError::RootNotObject)),
    }
}

/// One change to an agent's config file.
pub enum EditOp {
    /// Exactly one entry of ours under the event, everything else untouched.
    EnsureHook { event: String, spec: Json },
    /// No entry of ours under the event; groups we emptied go too, and so does an
    /// event or `hooks` left empty.
    RemoveOurs { event: String },
}

/// A change and the file it is for.
pub struct ConfigEdit {
    pub path: String,
    pub op: EditOp,
}

/// Applies one planned change to a parsed config document; see [`v_ensure`] and
/// [`v_remove_ours`]. On failure the document keeps the removal of ours.
pub fn apply_to_json(doc: &mut Json, op: &EditOp) -> (r: Result<(), EditError>)
    ensures
        match *op {
            EditOp::EnsureHook { event, spec } => match v_ensure(jview(*old(doc)), event@, jview(spec)) {
                EnsureOutcome::Done(v) => r is Ok && jview(*final(doc)) == v,
                EnsureOutcome::RootNotObject => r == Err::<(), EditError>(EditError::RootNotObject)
                    && jview(*final(doc)) == v_remove_ours(jview(*old(doc)), event@),
                EnsureOutcome::HooksNotObject => r == Err::<(), EditError>(EditError::HooksNotObject)
                    && jview(*final(doc)) == v_remove_ours(jview(*old(doc)), event@),
                EnsureOutcome::EventNotArray => r matches Err(EditError::EventNotArray { event: e })
                    && e@ == event@ && jview(*final(doc)) == v_remove_ours(jview(*old(doc)), event@),
            },
            EditOp::RemoveOurs { event } => r is Ok && jview(*final(doc)) == v_remove_ours(
                jview(*old(doc)),
                event@,
            ),
        },
{
    let mut d = Json::Null;
    std::mem::swap(&mut d, doc);
    match op {
        EditOp::EnsureHook { event, spec } => {
            let (nd, err) = ensure(d, event.as_str(), spec);
            *doc = nd;
            match err {
                Some(e) => Err(e),
                None => Ok(()),
            }
        },
        EditOp::RemoveOurs { event } => {
            *doc = remove_ours(d, event.as_str());
            Ok(())
        },
    }
}

} // verus!
