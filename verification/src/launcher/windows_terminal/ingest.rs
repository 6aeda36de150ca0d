//! What the fragments contribute: profiles they create, keyed by GUID in the order
//! first seen, and `updates` entries that patch a profile defined elsewhere.
use vstd::prelude::*;
use crate::json::{Json, spec_get, spec_parse_json, parse_json};
use crate::launcher::jsonc::{spec_strip, strip};
use crate::text::str_eq;
use super::guid::{spec_guid_key, guid_key, spec_fragment_guid, fragment_profile_guid};
use super::overlay::{
    Overlay, OverlayView, oview, empty_view, spec_apply, spec_str_field, spec_overlay_of, str_field,
};

verus! {

/// One fragment file: its directory name is the `source` of its profiles.
#[derive(Debug, Clone, PartialEq, Eq)]
pub struct FragmentFile {
    pub source: String,
    pub contents: String,
}

/// Keyed overlays as plain values.
pub open spec fn entries_view(v: Seq<(String, Overlay)>) -> Seq<(Seq<char>, OverlayView)> {
    v.map_values(|e: (String, Overlay)| (e.0@, oview(e.1)))
}

/// Everything the fragments contributed.
pub struct Generated {
    /// Profiles the fragments create, one per key, in the order first seen; later
    /// fragments for the same key are laid over earlier ones.
    pub created: Vec<(String, Overlay)>,
    /// `updates` entries, in order, each with the key of the profile it patches.
    pub updates: Vec<(String, Overlay)>,
}

pub ghost struct GenView {
    pub created: Seq<(Seq<char>, OverlayView)>,
    pub updates: Seq<(Seq<char>, OverlayView)>,
}

pub open spec fn gview(g: Generated) -> GenView {
    GenView { created: entries_view(g.created@), updates: entries_view(g.updates@) }
}

/// The index of the first entry with key `key`, or -1.
pub open spec fn key_index(s: Seq<(Seq<char>, OverlayView)>, key: Seq<char>) -> int
    decreases s.len(),
{
    if s.len() == 0 {
        -1
    } else if key_index(s.drop_last(), key) >= 0 {
        key_index(s.drop_last(), key)
    } else if s.last().0 == key {
        s.len() - 1
    } else {
        -1
    }
}

/// The overlays of the entries with key `key`, in order.
pub open spec fn updates_for(s: Seq<(Seq<char>, OverlayView)>, key: Seq<char>) -> Seq<OverlayView>
    decreases s.len(),
{
    if s.len() == 0 {
        Seq::empty()
    } else {
        updates_for(s.drop_last(), key) + (if s.last().0 == key {
            seq![s.last().1]
        } else {
            Seq::empty()
        })
    }
}

/// `profiles.defaults`, when `profiles` is an object that has it.
pub open spec fn spec_defaults(root: Json) -> Option<Json> {
    match spec_get(root, "profiles"@) {
        Some(p) => match p {
            Json::Object(_) => spec_get(p, "defaults"@),
            _ => None,
        },
        None => None,
    }
}

/// The profile list: `profiles` itself in the old array form, `profiles.list` in the
/// object form, nothing otherwise.
pub open spec fn spec_list(root: Json) -> Seq<Json> {
    match spec_get(root, "profiles"@) {
        Some(p) => match p {
            Json::Array(l) => l@,
            Json::Object(_) => match spec_get(p, "list"@) {
                Some(l) => match l {
                    Json::Array(items) => items@,
                    _ => Seq::empty(),
                },
                None => Seq::empty(),
            },
            _ => Seq::empty(),
        },
        None => Seq::empty(),
    }
}

/// `profiles.defaults` and the profile list of a settings or fragment document.
pub fn profiles_of(root: &Json) -> (r: (Option<&Json>, Option<&Vec<Json>>))
    ensures
        match r.0 {
            Some(d) => spec_defaults(*root) == Some(*d),
            None => spec_defaults(*root) is None,
        },
        match r.1 {
            Some(l) => l@ == spec_list(*root),
            None => spec_list(*root) == Seq::<Json>::empty(),
        },
{
    match root.get("profiles") {
        Some(p) => match p {
            Json::Array(l) => (None, Some(l)),
            Json::Object(_) => {
                let d = p.get("defaults");
                let l = match p.get("list") {
                    Some(x) => x.as_array(),
                    None => None,
                };
                (d, l)
            },
            _ => (None, None),
        },
        None => (None, None),
    }
}

/// The key of a profile a fragment creates: its own GUID, or the one Windows
/// Terminal derives from the fragment's source and the profile's name.
pub open spec fn spec_created_key(p: Json, source: Seq<char>) -> Option<Seq<char>> {
    match spec_str_field(p, "guid"@) {
        Some(g) => Some(spec_guid_key(g)),
        None => match spec_str_field(p, "name"@) {
            Some(n) => Some(spec_guid_key(spec_fragment_guid(source, n))),
            None => None,
        },
    }
}

/// What one entry of a fragment's profile list adds.
pub open spec fn spec_ingest_profile(g: GenView, source: Seq<char>, p: Json) -> GenView {
    if !(p is Object) {
        g
    } else {
        match spec_str_field(p, "updates"@) {
            Some(t) => {
                let key = spec_guid_key(t);
                if key == seq!['{', '}'] {
                    g
                } else {
                    GenView { updates: g.updates.push((key, spec_overlay_of(p, None))), ..g }
                }
            },
            None => match spec_created_key(p, source) {
                Some(key) => {
                    let ov = spec_overlay_of(p, Some(source));
                    let i = key_index(g.created, key);
                    if i >= 0 {
                        GenView {
                            created: g.created.update(i, (key, spec_apply(g.created[i].1, ov))),
                            ..g
                        }
                    } else {
                        GenView { created: g.created.push((key, spec_apply(empty_view(), ov))), ..g }
                    }
                },
                None => g,
            },
        }
    }
}

/// A fragment's profile list, entry by entry.
pub open spec fn spec_ingest_list(g: GenView, source: Seq<char>, list: Seq<Json>) -> GenView
    decreases list.len(),
{
    if list.len() == 0 {
        g
    } else {
        spec_ingest_profile(spec_ingest_list(g, source, list.drop_last()), source, list.last())
    }
}

/// Fragment documents in load order, each with its source; one that did not parse
/// contributes nothing.
pub open spec fn spec_ingest_docs(docs: Seq<(Seq<char>, Option<Json>)>) -> GenView
    decreases docs.len(),
{
    if docs.len() == 0 {
        GenView { created: Seq::empty(), updates: Seq::empty() }
    } else {
        let prev = spec_ingest_docs(docs.drop_last());
        match docs.last().1 {
            Some(root) => spec_ingest_list(prev, docs.last().0, spec_list(root)),
            None => prev,
        }
    }
}

/// Each fragment file's source and the document its contents parse to, comments and
/// trailing commas stripped first.
pub open spec fn spec_fragment_docs(files: Seq<FragmentFile>) -> Seq<(Seq<char>, Option<Json>)> {
    files.map_values(|f: FragmentFile| (f.source@, spec_parse_json(spec_strip(f.contents@))))
}

fn find_key(entries: &Vec<(String, Overlay)>, key: &str) -> (r: Option<usize>)
    ensures
        match r {
            Some(i) => key_index(entries_view(entries@), key@) == i as int && i < entries.len(),
            None => key_index(entries_view(entries@), key@) == -1,
        },
{
    let ghost ev = entries_view(entries@);
    let mut i: usize = 0;
    while i < entries.len()
        invariant
            i <= entries.len(),
            ev == entries_view(entries@),
            key_index(ev.subrange(0, i as int), key@) == -1,
        decreases entries.len() - i,
    {
        proof {
            let p = ev.subrange(0, i + 1);
            assert(p.drop_last() =~= ev.subrange(0, i as int));
        }
        if str_eq(entries[i].0.as_str(), key) {
            proof {
                lemma_key_index_prefix(ev, key@, i + 1);
            }
            return Some(i);
        }
        i = i + 1;
    }
    assert(ev.subrange(0, entries.len() as int) =~= ev);
    None
}

/// Once a prefix holds the key, the whole sequence finds it at the same index.
proof fn lemma_key_index_prefix(s: Seq<(Seq<char>, OverlayView)>, key: Seq<char>, n: int)
    requires
        0 <= n <= s.len(),
        key_index(s.subrange(0, n), key) >= 0,
    ensures
        key_index(s, key) == key_index(s.subrange(0, n), key),
    decreases s.len() - n,
{
    if n < s.len() {
        assert(s.subrange(0, n + 1).drop_last() =~= s.subrange(0, n));
        lemma_key_index_prefix(s, key, n + 1);
    } else {
        assert(s.subrange(0, n) =~= s);
    }
}

/// Adds one entry of a fragment's profile list from the fragment `source`.
pub fn ingest_profile(g: &mut Generated, source: &str, p: &Json)
    ensures
        gview(*final(g)) == spec_ingest_profile(gview(*old(g)), source@, *p),
{
    if !p.is_object() {
        return;
    }
    if let Some(target) = str_field(p, "updates") {
        let key = guid_key(target.as_str());
        let empty = str_eq(key.as_str(), "{}");
        proof {
            reveal_strlit("{}");
            assert("{}"@ =~= seq!['{', '}']);
        }
        if empty {
            return;
        }
        let ov = Overlay::from_json(p, None);
        let ghost u0 = entries_view(g.updates@);
        g.updates.push((key, ov));
        assert(entries_view(g.updates@) =~= u0.push((key@, oview(ov))));
        return;
    }
    let key = match str_field(p, "guid") {
        Some(gd) => guid_key(gd.as_str()),
        None => match str_field(p, "name") {
            Some(n) => {
                let f = fragment_profile_guid(source, n.as_str());
                guid_key(f.as_str())
            },
            None => {
                return;
            },
        },
    };
    let ov = Overlay::from_json(p, Some(source.to_string()));
    let ghost c0 = entries_view(g.created@);
    match find_key(&g.created, key.as_str()) {
        Some(i) => {
            let mut cur = g.created[i].1.copy();
            cur.apply(&ov);
            g.created.set(i, (key, cur));
            assert(entries_view(g.created@) =~= c0.update(i as int, (key@, spec_apply(c0[i as int].1, oview(ov)))));
        },
        None => {
            let mut cur = Overlay::empty();
            cur.apply(&ov);
            g.created.push((key, cur));
            assert(entries_view(g.created@) =~= c0.push((key@, spec_apply(empty_view(), oview(ov)))));
        },
    }
}

/// Adds a fragment's profile list, entry by entry.
pub fn ingest_profiles(g: &mut Generated, source: &str, list: &Vec<Json>)
    ensures
        gview(*final(g)) == spec_ingest_list(gview(*old(g)), source@, list@),
{
    let ghost g0 = gview(*g);
    let mut i: usize = 0;
    while i < list.len()
        invariant
            i <= list.len(),
            gview(*g) == spec_ingest_list(g0, source@, list@.subrange(0, i as int)),
        decreases list.len() - i,
    {
        ingest_profile(g, source, &list[i]);
        proof {
            let p = list@.subrange(0, i + 1);
            assert(p.drop_last() =~= list@.subrange(0, i as int));
        }
        i = i + 1;
    }
    assert(list@.subrange(0, list.len() as int) =~= list@);
}

/// What the fragment files contribute, in load order. A file that is not JSON (after
/// comments and trailing commas are stripped) is skipped, not fatal.
pub fn ingest_fragments(files: &[FragmentFile]) -> (g: Generated)
    ensures
        gview(g) == spec_ingest_docs(spec_fragment_docs(files@)),
{
    let mut g = Generated { created: Vec::new(), updates: Vec::new() };
    let ghost docs = spec_fragment_docs(files@);
    assert(entries_view(g.created@) =~= Seq::empty());
    assert(entries_view(g.updates@) =~= Seq::empty());
    assert(gview(g) == spec_ingest_docs(docs.subrange(0, 0)));
    let mut i: usize = 0;
    while i < files.len()
        invariant
            i <= files.len(),
            docs == spec_fragment_docs(files@),
            gview(g) == spec_ingest_docs(docs.subrange(0, i as int)),
        decreases files.len() - i,
    {
        let f = &files[i];
        let text = strip(f.contents.as_str());
        let parsed = parse_json(text.as_str());
        proof {
            let p = docs.subrange(0, i + 1);
            assert(p.drop_last() =~= docs.subrange(0, i as int));
            assert(p.last() == docs[i as int]);
        }
        match parsed {
            Ok(root) => {
                let (_, list) = profiles_of(&root);
                match list {
                    Some(l) => ingest_profiles(&mut g, f.source.as_str(), l),
                    None => {
                        assert(spec_ingest_list(gview(g), f.source@, Seq::<Json>::empty()) == gview(g));
                    },
                }
            },
            Err(_) => {},
        }
        i = i + 1;
    }
    assert(docs.subrange(0, files.len() as int) =~= docs);
    g
}

} // verus!
