//! What installing or removing hooks does to one file, short of the disk.
//!
//! The order is fixed: gate, read the original, parse it (stop on failure), apply the
//! plan, then (outside this module) back up the original, write a temporary file and
//! rename it. A backup is only made once parsing succeeded, and nothing is written
//! when the rendered text equals the original, so installing twice leaves the file's
//! bytes as they are.
use vstd::prelude::*;
use crate::json::{Json, JsonView, jview, parse_json, spec_parse_json, json_to_string_pretty, spec_json_pretty, json_error_text};
use crate::text::{str_eq, trim, trim_string};
use super::edit::{apply_to_json, edit_error_text, v_ensure, v_remove_ours, ConfigEdit, EditError, EditOp, EnsureOutcome};

verus! {

pub struct ApplyOpts {
    /// `agents.install_enabled`; off by default: writing another program's
    /// configuration has to be an explicit choice.
    pub enabled: bool,
    pub backup_dir: String,
    pub backup_keep: usize,
}

#[derive(Debug)]
pub struct Outcome {
    pub path: String,
    /// Whether the content changed; unchanged files are neither written nor backed up.
    pub changed: bool,
    pub backup: Option<String>,
}

#[derive(Debug)]
pub enum ApplyError {
    /// The switch is off (answered with 403, not 500).
    Disabled,
    /// The file exists but is not valid JSON, or not of the shape needed; it is left
    /// as it is rather than overwritten.
    Invalid { path: String, detail: String },
    Io { path: String, detail: String },
}

/// The error in words.
pub open spec fn apply_error_text(e: ApplyError) -> Seq<char> {
    match e {
        ApplyError::Disabled => "agent 集成的安装功能未启用(agents.install_enabled)"@,
        ApplyError::Invalid { path, detail } => path@ + " 不是合法 JSON,拒绝改写:"@ + detail@,
        ApplyError::Io { path, detail } => "读写 "@ + path@ + " 失败:"@ + detail@,
    }
}

impl ApplyError {
    pub fn message(&self) -> (r: String)
        ensures
            r@ == apply_error_text(*self),
    {
        match self {
            ApplyError::Disabled => String::from_str("agent 集成的安装功能未启用(agents.install_enabled)"),
            ApplyError::Invalid { path, detail } => {
                let mut m = path.clone();
                m.append(" 不是合法 JSON,拒绝改写:");
                m.append(detail.as_str());
                m
            },
            ApplyError::Io { path, detail } => {
                let mut m = String::from_str("读写 ");
                m.append(path.as_str());
                m.append(" 失败:");
                m.append(detail.as_str());
                m
            },
        }
    }

    /// The HTTP status the error is answered with: a switched-off feature is the
    /// caller's choice (403), a file left as the user wrote it a conflict (409).
    pub fn status(&self) -> (r: u16)
        ensures
            r == match *self {
                ApplyError::Disabled => 403u16,
                ApplyError::Invalid { .. } => 409u16,
                ApplyError::Io { .. } => 500u16,
            },
    {
        match self {
            ApplyError::Disabled => 403,
            ApplyError::Invalid { .. } => 409,
            ApplyError::Io { .. } => 500,
        }
    }
}

/// The files an edit list touches, each once, in the order they first appear.
pub open spec fn spec_distinct_paths(edits: Seq<ConfigEdit>) -> Seq<Seq<char>>
    decreases edits.len(),
{
    if edits.len() == 0 {
        Seq::empty()
    } else {
        let p = spec_distinct_paths(edits.drop_last());
        if p.contains(edits.last().path@) {
            p
        } else {
            p.push(edits.last().path@)
        }
    }
}

pub open spec fn string_views(v: Seq<String>) -> Seq<Seq<char>> {
    v.map_values(|s: String| s@)
}

/// Groups the edits by file: each file is read once and written once.
pub fn distinct_paths(edits: &[ConfigEdit]) -> (r: Vec<String>)
    ensures
        string_views(r@) == spec_distinct_paths(edits@),
{
    let mut out: Vec<String> = Vec::new();
    let mut i: usize = 0;
    while i < edits.len()
        invariant
            i <= edits.len(),
            string_views(out@) == spec_distinct_paths(edits@.subrange(0, i as int)),
        decreases edits.len() - i,
    {
        let ghost pre = edits@.subrange(0, i as int);
        assert(edits@.subrange(0, i + 1).drop_last() =~= pre);
        let p = &edits[i].path;
        let mut seen = false;
        let mut j: usize = 0;
        while j < out.len() && !seen
            invariant
                j <= out.len(),
                seen ==> string_views(out@).contains(p@),
                !seen ==> forall|k: int| 0 <= k < j ==> out@[k]@ != p@,
            decreases out.len() - j,
        {
            if str_eq(out[j].as_str(), p.as_str()) {
                seen = true;
                assert(string_views(out@)[j as int] == p@);
            }
            j = j + 1;
        }
        if !seen {
            proof {
                assert forall|k: int| 0 <= k < string_views(out@).len() implies string_views(out@)[k] != p@ by {
                    assert(string_views(out@)[k] == out@[k]@);
                }
            }
            let ghost o0 = out@;
            out.push(p.clone());
            assert(string_views(out@) =~= string_views(o0).push(p@));
        }
        i = i + 1;
    }
    assert(edits@.subrange(0, edits.len() as int) =~= edits@);
    out
}

/// What one edit does to a document: the new document, or the error's text.
pub open spec fn v_apply_op(d: JsonView, op: EditOp) -> Result<JsonView, Seq<char>> {
    match op {
        EditOp::EnsureHook { event, spec } => match v_ensure(d, event@, jview(spec)) {
            EnsureOutcome::Done(v) => Ok(v),
            EnsureOutcome::RootNotObject => Err(edit_error_text(EditError::RootNotObject)),
            EnsureOutcome::HooksNotObject => Err(edit_error_text(EditError::HooksNotObject)),
            EnsureOutcome::EventNotArray => Err("`hooks."@ + event@ + "` 不是数组"@),
        },
        EditOp::RemoveOurs { event } => Ok(v_remove_ours(d, event@)),
    }
}

/// The document after the edits meant for `path`, in order, stopping at the first
/// failure.
pub open spec fn v_apply_edits(d: JsonView, edits: Seq<ConfigEdit>, path: Seq<char>) -> Result<JsonView, Seq<char>>
    decreases edits.len(),
{
    if edits.len() == 0 {
        Ok(d)
    } else {
        match v_apply_edits(d, edits.drop_last(), path) {
            Err(m) => Err(m),
            Ok(d2) => if edits.last().path@ == path {
                v_apply_op(d2, edits.last().op)
            } else {
                Ok(d2)
            },
        }
    }
}

/// The document a file starts from: a missing or blank file is an empty object;
/// otherwise its parse (`None` when it is not JSON).
pub open spec fn start_doc(original: Option<Seq<char>>) -> Option<JsonView> {
    match original {
        None => Some(JsonView::Object(Seq::empty())),
        Some(t) => if trim(t).len() == 0 {
            Some(JsonView::Object(Seq::empty()))
        } else {
            match spec_parse_json(t) {
                Some(j) => Some(jview(j)),
                None => None,
            }
        },
    }
}

/// The file's text for a document: two-space indentation and a final newline, the
/// shape the agent itself writes, so neither side rewrites the other's format.
pub open spec fn rendered(d: JsonView) -> Seq<char> {
    spec_json_pretty(d).push('\n')
}

pub fn render(doc: &Json) -> (r: String)
    ensures
        r@ == rendered(jview(*doc)),
{
    let mut s = json_to_string_pretty(doc);
    s.append("\n");
    proof {
        reveal_strlit("\n");
    }
    s
}

fn empty_object() -> (r: Json)
    ensures
        jview(r) == JsonView::Object(Seq::empty()),
{
    let r = Json::Object(Vec::new());
    assert(crate::json::mviews(Seq::<(String, Json)>::empty()) =~= Seq::empty());
    r
}

/// The new text of the file `path` after the edits meant for it: `Ok(None)` when it
/// equals the original (nothing to write), `Ok(Some(text))` otherwise; an error when
/// the original is not JSON or an edit does not fit it.
pub fn plan_file(path: &str, original: Option<&str>, edits: &[ConfigEdit]) -> (r: Result<Option<String>, ApplyError>)
    ensures
        ({
            let orig = match original {
                Some(t) => Some(t@),
                None => None,
            };
            match start_doc(orig) {
                None => r matches Err(ApplyError::Invalid { path: p, detail: _ }) && p@ == path@,
                Some(d0) => match v_apply_edits(d0, edits@, path@) {
                    Err(m) => r matches Err(ApplyError::Invalid { path: p, detail }) && p@ == path@ && detail@ == m,
                    Ok(d) => if orig == Some(rendered(d)) {
                        r matches Ok(o) && o is None
                    } else {
                        r matches Ok(o) && o matches Some(t) && t@ == rendered(d)
                    },
                },
            }
        }),
{
    let mut doc = match original {
        None => empty_object(),
        Some(text) => {
            let t = trim_string(text);
            if t.unicode_len() == 0 {
                empty_object()
            } else {
                match parse_json(text) {
                    Ok(j) => j,
                    Err(e) => {
                        return Err(ApplyError::Invalid { path: path.to_string(), detail: json_error_text(&e) });
                    },
                }
            }
        },
    };
    let ghost d0 = jview(doc);
    let ghost orig = match original {
        Some(t) => Some(t@),
        None => None,
    };
    assert(start_doc(orig) == Some(d0));
    let mut i: usize = 0;
    while i < edits.len()
        invariant
            i <= edits.len(),
            start_doc(orig) == Some(d0),
            orig == match original {
                Some(t) => Some(t@),
                None => None::<Seq<char>>,
            },
            v_apply_edits(d0, edits@.subrange(0, i as int), path@) == Ok::<JsonView, Seq<char>>(jview(doc)),
        decreases edits.len() - i,
    {
        assert(edits@.subrange(0, i + 1).drop_last() =~= edits@.subrange(0, i as int));
        if str_eq(edits[i].path.as_str(), path) {
            let ghost before = jview(doc);
            match apply_to_json(&mut doc, &edits[i].op) {
                Ok(()) => {},
                Err(e) => {
                    let detail = e.message();
                    proof {
                        assert(edits@.subrange(0, i + 1).last() == edits@[i as int]);
                        assert(v_apply_edits(d0, edits@.subrange(0, i + 1), path@) == v_apply_op(before, edits@[i as int].op));
                        assert(v_apply_op(before, edits@[i as int].op) == Err::<JsonView, Seq<char>>(detail@));
                        lemma_apply_err_stays(d0, edits@, path@, i as int + 1, detail@);
                    }
                    return Err(ApplyError::Invalid { path: path.to_string(), detail });
                },
            }
        }
        i = i + 1;
    }
    assert(edits@.subrange(0, edits.len() as int) =~= edits@);
    let text = render(&doc);
    let same = match original {
        Some(o) => str_eq(o, text.as_str()),
        None => false,
    };
    if same {
        Ok(None)
    } else {
        Ok(Some(text))
    }
}

/// Once the edits fail, later edits keep the failure.
proof fn lemma_apply_err_stays(d0: JsonView, edits: Seq<ConfigEdit>, path: Seq<char>, k: int, m: Seq<char>)
    requires
        0 <= k <= edits.len(),
        v_apply_edits(d0, edits.subrange(0, k), path) == Err::<JsonView, Seq<char>>(m),
    ensures
        v_apply_edits(d0, edits, path) == Err::<JsonView, Seq<char>>(m),
    decreases edits.len() - k,
{
    if k < edits.len() {
        assert(edits.subrange(0, k + 1).drop_last() =~= edits.subrange(0, k));
        lemma_apply_err_stays(d0, edits, path, k + 1, m);
    } else {
        assert(edits.subrange(0, k) =~= edits);
    }
}

/// Each file an edit list touches is read and written once: the grouped paths hold no
/// path twice, hold every edit's path, and only those.
pub proof fn each_file_is_handled_once(edits: Seq<ConfigEdit>)
    ensures
        ({
            let ps = spec_distinct_paths(edits);
            &&& forall|i: int, j: int| 0 <= i < j < ps.len() ==> ps[i] != ps[j]
            &&& forall|k: int| 0 <= k < edits.len() ==> ps.contains(#[trigger] edits[k].path@)
            &&& forall|i: int| #![trigger ps[i]] 0 <= i < ps.len() ==> exists|k: int| #![trigger edits[k]] 0 <= k < edits.len() && edits[k].path@ == ps[i]
        }),
    decreases edits.len(),
{
    if edits.len() > 0 {
        let pre = edits.drop_last();
        each_file_is_handled_once(pre);
        let p = spec_distinct_paths(pre);
        let last = edits.last().path@;
        assert forall|k: int| 0 <= k < pre.len() implies edits[k] == pre[k] by {}
        let ps = spec_distinct_paths(edits);
        if p.contains(last) {
            assert(ps == p);
            assert forall|k: int| 0 <= k < edits.len() implies ps.contains(#[trigger] edits[k].path@) by {
                if k < pre.len() {
                    assert(pre[k] == edits[k]);
                }
            }
            assert forall|i: int| #![trigger ps[i]] 0 <= i < ps.len() implies exists|k: int| #![trigger edits[k]] 0 <= k < edits.len() && edits[k].path@ == ps[i] by {
                let k = choose|k: int| #![trigger pre[k]] 0 <= k < pre.len() && pre[k].path@ == p[i];
                assert(edits[k] == pre[k]);
            }
        } else {
            assert(ps == p.push(last));
            assert forall|k: int| 0 <= k < edits.len() implies ps.contains(#[trigger] edits[k].path@) by {
                if k < pre.len() {
                    assert(pre[k] == edits[k]);
                    let i = choose|i: int| 0 <= i < p.len() && p[i] == pre[k].path@;
                    assert(ps[i] == p[i]);
                } else {
                    assert(ps[p.len() as int] == last);
                }
            }
            assert forall|i: int| #![trigger ps[i]] 0 <= i < ps.len() implies exists|k: int| #![trigger edits[k]] 0 <= k < edits.len() && edits[k].path@ == ps[i] by {
                if i < p.len() {
                    let k = choose|k: int| #![trigger pre[k]] 0 <= k < pre.len() && pre[k].path@ == p[i];
                    assert(edits[k] == pre[k]);
                    assert(ps[i] == p[i]);
                } else {
                    assert(edits[edits.len() - 1].path@ == ps[i]);
                }
            }
            assert forall|i: int, j: int| 0 <= i < j < ps.len() implies ps[i] != ps[j] by {
                if j == p.len() {
                    assert(ps[i] == p[i]);
                }
            }
        }
    }
}

} // verus!
