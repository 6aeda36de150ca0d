//! The chat view's message model, the part of reading transcripts that does not
//! depend on the agent. The shapes are client-neutral: each agent's dialect is
//! reduced to these blocks by its adapter, and blocks that are not recognised are
//! not passed through.
use vstd::prelude::*;
use crate::text::{chars_of, string_of};
use crate::json::{Json, jview, spec_get_str, spec_json_compact, json_to_string};

verus! {

#[derive(Debug, Clone, Copy, PartialEq, Eq, Structural)]
pub enum Role {
    User,
    Assistant,
    System,
}

#[derive(Debug, Clone, PartialEq, Eq)]
pub enum Block {
    Text { text: String },
    /// The model's reasoning: its own block rather than dropped, the client decides
    /// whether to fold it.
    Thinking { text: String },
    /// `input` is one line for humans, not the raw JSON.
    ToolUse { name: String, input: String },
    ToolResult { ok: bool, text: String },
}

#[derive(Debug, Clone, PartialEq, Eq)]
pub struct Message {
    /// Reading the same message twice gives the same id: clients deduplicate by it.
    pub id: String,
    pub role: Role,
    /// Unix seconds, when known.
    pub ts: Option<u64>,
    pub blocks: Vec<Block>,
}

/// The most text one block carries, in UTF-8 bytes.
pub const MAX_BLOCK_BYTES: usize = 8192;

/// The number of bytes of `c` in UTF-8.
pub open spec fn char_width(c: char) -> nat {
    if (c as u32) < 0x80 {
        1
    } else if (c as u32) < 0x800 {
        2
    } else if (c as u32) < 0x10000 {
        3
    } else {
        4
    }
}

/// The length of `s` in UTF-8 bytes (`String::len`).
pub open spec fn utf8_len(s: Seq<char>) -> nat
    decreases s.len(),
{
    if s.len() == 0 {
        0
    } else {
        utf8_len(s.drop_last()) + char_width(s.last())
    }
}

/// How many leading characters of `s` fit in `limit` bytes: the cut lands on the
/// last character boundary at or before `limit`.
pub open spec fn fit_prefix(s: Seq<char>, limit: int) -> nat
    decreases s.len(),
{
    if s.len() == 0 || char_width(s[0]) > limit {
        0
    } else {
        1 + fit_prefix(s.drop_first(), limit - char_width(s[0]))
    }
}

/// What marks a cut: silently cutting would make readers think they saw it all.
pub open spec fn cut_marker() -> Seq<char> {
    "\n…(已截断)"@
}

/// A block's text: as it is when it fits in [`MAX_BLOCK_BYTES`], else cut at the
/// last character boundary that fits and marked.
pub open spec fn spec_clamp_text(s: Seq<char>) -> Seq<char> {
    if utf8_len(s) <= MAX_BLOCK_BYTES {
        s
    } else {
        s.subrange(0, fit_prefix(s, MAX_BLOCK_BYTES as int) as int) + cut_marker()
    }
}

fn width(c: char) -> (w: usize)
    ensures
        w == char_width(c),
{
    let u = c as u32;
    if u < 0x80 {
        1
    } else if u < 0x800 {
        2
    } else if u < 0x10000 {
        3
    } else {
        4
    }
}

proof fn lemma_utf8_len_prefix(s: Seq<char>, i: int)
    requires
        0 <= i < s.len(),
    ensures
        utf8_len(s.subrange(0, i + 1)) == utf8_len(s.subrange(0, i)) + char_width(s[i]),
{
    assert(s.subrange(0, i + 1).drop_last() =~= s.subrange(0, i));
}

/// `fit_prefix` read from the front: a prefix of length `k` whose width is `w`
/// leaves `fit_prefix` of the rest within `limit - w`.
proof fn lemma_fit_prefix_step(s: Seq<char>, limit: int, k: int, w: int)
    requires
        0 <= k <= s.len(),
        w == utf8_len(s.subrange(0, k)),
        w <= limit,
    ensures
        fit_prefix(s, limit) == k + fit_prefix(s.subrange(k, s.len() as int), limit - w),
    decreases k,
{
    if k > 0 {
        lemma_utf8_len_front(s.subrange(0, k));
        assert(s.subrange(0, k).drop_first() =~= s.drop_first().subrange(0, k - 1));
        assert(s.subrange(0, k)[0] == s[0]);
        lemma_utf8_len_nonneg_bound(s.drop_first().subrange(0, k - 1));
        lemma_fit_prefix_step(s.drop_first(), limit - char_width(s[0]), k - 1, w - char_width(s[0]));
        assert(s.drop_first().subrange(k - 1, s.len() - 1) =~= s.subrange(k, s.len() as int));
    } else {
        assert(s.subrange(0, s.len() as int) =~= s);
    }
}

proof fn lemma_utf8_len_nonneg_bound(s: Seq<char>)
    ensures
        utf8_len(s) >= 0,
{
}

/// The width of a sequence is its first character's plus the rest's.
proof fn lemma_utf8_len_front(s: Seq<char>)
    requires
        s.len() > 0,
    ensures
        utf8_len(s) == char_width(s[0]) + utf8_len(s.drop_first()),
    decreases s.len(),
{
    if s.len() > 1 {
        lemma_utf8_len_front(s.drop_last());
        assert(s.drop_last().drop_first() =~= s.drop_first().drop_last());
    } else {
        assert(s.drop_first() =~= Seq::<char>::empty());
        assert(s.drop_last() =~= Seq::<char>::empty());
    }
}

/// Once a prefix is too wide, so is the whole.
proof fn lemma_utf8_len_exceeds(s: Seq<char>, i: int)
    requires
        0 <= i <= s.len(),
    ensures
        utf8_len(s.subrange(0, i)) <= utf8_len(s),
    decreases s.len() - i,
{
    if i < s.len() {
        lemma_utf8_len_prefix(s, i);
        lemma_utf8_len_exceeds(s, i + 1);
    } else {
        assert(s.subrange(0, i) =~= s);
    }
}

/// Cuts a block's text to [`MAX_BLOCK_BYTES`] and marks the cut; see
/// [`spec_clamp_text`].
pub fn clamp_text(s: String) -> (r: String)
    ensures
        r@ == spec_clamp_text(s@),
{
    let v = chars_of(s.as_str());
    let mut total: usize = 0;
    let mut i: usize = 0;
    let mut fitted = false;
    while i < v.len() && !fitted
        invariant
            i <= v.len(),
            v@ == s@,
            !fitted ==> total == utf8_len(v@.subrange(0, i as int)) && total <= MAX_BLOCK_BYTES,
            fitted ==> i > 0 && utf8_len(v@.subrange(0, i - 1)) <= MAX_BLOCK_BYTES && utf8_len(
                v@.subrange(0, i as int),
            ) > MAX_BLOCK_BYTES,
        decreases v.len() - i + (if fitted { 0int } else { 1int }),
    {
        proof {
            lemma_utf8_len_prefix(v@, i as int);
        }
        let w = width(v[i]);
        if total + w > MAX_BLOCK_BYTES {
            fitted = true;
        } else {
            total = total + w;
        }
        i = i + 1;
    }
    if !fitted {
        assert(v@.subrange(0, v.len() as int) =~= v@);
        return string_of(v.as_slice());
    }
    let fit = i - 1;
    proof {
        let k = fit as int;
        lemma_fit_prefix_step(v@, MAX_BLOCK_BYTES as int, k, utf8_len(v@.subrange(0, k)) as int);
        let rest = v@.subrange(k, v@.len() as int);
        lemma_utf8_len_prefix(v@, k);
        assert(rest[0] == v@[k]);
        lemma_utf8_len_exceeds(v@, i as int);
    }
    let mut out: Vec<char> = Vec::new();
    let mut j: usize = 0;
    while j < fit
        invariant
            j <= fit < v.len(),
            out@ == v@.subrange(0, j as int),
        decreases fit - j,
    {
        out.push(v[j]);
        j = j + 1;
        assert(out@ =~= v@.subrange(0, j as int));
    }
    let marker = chars_of("\n…(已截断)");
    let mut m: usize = 0;
    let ghost o0 = out@;
    while m < marker.len()
        invariant
            m <= marker.len(),
            out@ == o0 + marker@.subrange(0, m as int),
        decreases marker.len() - m,
    {
        out.push(marker[m]);
        m = m + 1;
        assert(out@ =~= o0 + marker@.subrange(0, m as int));
    }
    assert(marker@.subrange(0, marker.len() as int) =~= marker@);
    string_of(out.as_slice())
}

} // verus!

verus! {

/// The members that say at a glance what a tool is about to do, in the order they
/// are preferred.
pub open spec fn readable_keys() -> Seq<Seq<char>> {
    seq!["command"@, "file_path"@, "path"@, "url"@, "pattern"@, "prompt"@]
}

/// The text of the first of `keys` whose member in `j` is a string.
pub open spec fn first_str_member(j: Json, keys: Seq<Seq<char>>) -> Option<Seq<char>>
    decreases keys.len(),
{
    if keys.len() == 0 {
        None
    } else {
        match spec_get_str(j, keys[0]) {
            Some(s) => Some(s),
            None => first_str_member(j, keys.drop_first()),
        }
    }
}

/// A tool's input as one line for humans: a string as it is; an object by its first
/// readable member; anything else, or an object with none, as compact JSON. Clamped
/// like any block.
pub open spec fn spec_flatten_tool_input(j: Json) -> Seq<char> {
    spec_clamp_text(
        match j {
            Json::Str(s) => s@,
            Json::Object(_) => match first_str_member(j, readable_keys()) {
                Some(s) => s,
                None => spec_json_compact(jview(j)),
            },
            _ => spec_json_compact(jview(j)),
        },
    )
}

/// Law: an object is shown by the first of its members `command`, `file_path`,
/// `path`, `url`, `pattern`, `prompt` (in that order) that is a string, clamped; with
/// none of them, by its compact JSON, clamped.
pub proof fn an_object_shows_its_first_readable_member(j: Json)
    requires
        j is Object,
    ensures
        spec_flatten_tool_input(j) == spec_clamp_text(
            if spec_get_str(j, "command"@) is Some {
                spec_get_str(j, "command"@)->0
            } else if spec_get_str(j, "file_path"@) is Some {
                spec_get_str(j, "file_path"@)->0
            } else if spec_get_str(j, "path"@) is Some {
                spec_get_str(j, "path"@)->0
            } else if spec_get_str(j, "url"@) is Some {
                spec_get_str(j, "url"@)->0
            } else if spec_get_str(j, "pattern"@) is Some {
                spec_get_str(j, "pattern"@)->0
            } else if spec_get_str(j, "prompt"@) is Some {
                spec_get_str(j, "prompt"@)->0
            } else {
                spec_json_compact(jview(j))
            },
        ),
{
    reveal_with_fuel(first_str_member, 7);
    let keys = readable_keys();
    assert(keys.drop_first() =~= seq!["file_path"@, "path"@, "url"@, "pattern"@, "prompt"@]);
    assert(keys.drop_first().drop_first() =~= seq!["path"@, "url"@, "pattern"@, "prompt"@]);
    assert(keys.drop_first().drop_first().drop_first() =~= seq!["url"@, "pattern"@, "prompt"@]);
    assert(keys.drop_first().drop_first().drop_first().drop_first() =~= seq!["pattern"@, "prompt"@]);
    assert(keys.drop_first().drop_first().drop_first().drop_first().drop_first() =~= seq!["prompt"@]);
    assert(keys.drop_first().drop_first().drop_first().drop_first().drop_first().drop_first()
        =~= Seq::<Seq<char>>::empty());
}

/// Law: an object whose `url` member is a string, and which has no string `command`,
/// `file_path` or `path`, is shown by its url, whatever else it holds (a web fetch's
/// `prompt` among it).
pub proof fn a_url_comes_before_a_pattern_or_prompt(j: Json, url: Seq<char>)
    requires
        j is Object,
        spec_get_str(j, "command"@) is None,
        spec_get_str(j, "file_path"@) is None,
        spec_get_str(j, "path"@) is None,
        spec_get_str(j, "url"@) == Some(url),
    ensures
        spec_flatten_tool_input(j) == spec_clamp_text(url),
{
    an_object_shows_its_first_readable_member(j);
}

/// Law: a string input is shown as it is, clamped; an input that is neither a
/// string nor an object is shown as its compact JSON, clamped.
pub proof fn other_inputs_show_as_text_or_json(j: Json)
    ensures
        j matches Json::Str(t) ==> spec_flatten_tool_input(j) == spec_clamp_text(t@),
        !(j is Str) && !(j is Object) ==> spec_flatten_tool_input(j) == spec_clamp_text(
            spec_json_compact(jview(j)),
        ),
{
}

fn str_member(input: &Json, key: &str) -> (r: Option<String>)
    ensures
        match r {
            Some(s) => spec_get_str(*input, key@) == Some(s@),
            None => spec_get_str(*input, key@) is None,
        },
{
    match input.get(key) {
        Some(v) => match v.as_str() {
            Some(s) => Some(s.to_string()),
            None => None,
        },
        None => None,
    }
}

/// Flattens a tool's input into the one line the chat view shows.
pub fn flatten_tool_input(input: &Json) -> (r: String)
    ensures
        r@ == spec_flatten_tool_input(*input),
{
    if let Some(s) = input.as_str() {
        return clamp_text(s.to_string());
    }
    if input.is_object() {
        proof {
            reveal_with_fuel(first_str_member, 7);
        }
        let ghost keys = readable_keys();
        assert(keys.drop_first() =~= seq!["file_path"@, "path"@, "url"@, "pattern"@, "prompt"@]);
        assert(keys.drop_first().drop_first() =~= seq!["path"@, "url"@, "pattern"@, "prompt"@]);
        assert(keys.drop_first().drop_first().drop_first() =~= seq!["url"@, "pattern"@, "prompt"@]);
        assert(keys.drop_first().drop_first().drop_first().drop_first() =~= seq!["pattern"@, "prompt"@]);
        assert(keys.drop_first().drop_first().drop_first().drop_first().drop_first() =~= seq!["prompt"@]);
        assert(keys.drop_first().drop_first().drop_first().drop_first().drop_first().drop_first() =~= Seq::<Seq<char>>::empty());
        if let Some(s) = str_member(input, "command") {
            return clamp_text(s);
        }
        if let Some(s) = str_member(input, "file_path") {
            return clamp_text(s);
        }
        if let Some(s) = str_member(input, "path") {
            return clamp_text(s);
        }
        if let Some(s) = str_member(input, "url") {
            return clamp_text(s);
        }
        if let Some(s) = str_member(input, "pattern") {
            return clamp_text(s);
        }
        if let Some(s) = str_member(input, "prompt") {
            return clamp_text(s);
        }
    }
    clamp_text(json_to_string(input))
}

} // verus!
