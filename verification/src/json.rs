//! A JSON document as plain values, and the parser that produces it.
use vstd::prelude::*;
use crate::text::str_eq;

verus! {

/// A JSON value. Object members keep their order and have distinct keys.
#[derive(Debug, PartialEq, Eq)]
pub enum Json {
    Null,
    Bool(bool),
    /// A number, as its JSON text.
    Number(String),
    Str(String),
    Array(Vec<Json>),
    Object(Vec<(String, Json)>),
}

/// Index of the first member of `members` whose key is `key`.
pub open spec fn member_index(members: Seq<(String, Json)>, key: Seq<char>) -> Option<int> {
    if exists|i: int| 0 <= i < members.len() && #[trigger] members[i].0@ == key {
        Some(choose|i: int| 0 <= i < members.len() && #[trigger] members[i].0@ == key && forall|j: int| 0 <= j < i ==> members[j].0@ != key)
    } else {
        None
    }
}

/// `value.get(key)`: the member `key` of an object; `None` for a missing key or a
/// value that is not an object.
pub open spec fn spec_get(j: Json, key: Seq<char>) -> Option<Json> {
    match j {
        Json::Object(members) => match member_index(members@, key) {
            Some(i) => Some(members@[i].1),
            None => None,
        },
        _ => None,
    }
}

/// `value.as_str()`.
pub open spec fn spec_as_str(j: Json) -> Option<Seq<char>> {
    match j {
        Json::Str(s) => Some(s@),
        _ => None,
    }
}

/// `value.as_bool()`.
pub open spec fn spec_as_bool(j: Json) -> Option<bool> {
    match j {
        Json::Bool(b) => Some(b),
        _ => None,
    }
}

/// The string member `key`, if there is one.
pub open spec fn spec_get_str(j: Json, key: Seq<char>) -> Option<Seq<char>> {
    match spec_get(j, key) {
        Some(v) => spec_as_str(v),
        None => None,
    }
}

impl Json {
    pub fn get(&self, key: &str) -> (r: Option<&Json>)
        ensures
            match spec_get(*self, key@) {
                Some(v) => r matches Some(x) && *x == v,
                None => r is None,
            },
    {
        match self {
            Json::Object(members) => {
                let mut i: usize = 0;
                while i < members.len()
                    invariant
                        i <= members.len(),
                        *self == Json::Object(*members),
                        forall|j: int| 0 <= j < i ==> members@[j].0@ != key@,
                    decreases members.len() - i,
                {
                    if str_eq(members[i].0.as_str(), key) {
                        proof {
                            let ms = members@;
                            assert(*self == Json::Object(*members));
                            assert(ms[i as int].0@ == key@);
                            assert(exists|x: int| 0 <= x < ms.len() && #[trigger] ms[x].0@ == key@);
                            let c = choose|x: int| 0 <= x < ms.len() && #[trigger] ms[x].0@ == key@ && forall|j: int| 0 <= j < x ==> ms[j].0@ != key@;
                            assert(exists|x: int| 0 <= x < ms.len() && #[trigger] ms[x].0@ == key@ && forall|j: int| 0 <= j < x ==> ms[j].0@ != key@) by {
                                assert(0 <= i < ms.len() && ms[i as int].0@ == key@ && forall|j: int| 0 <= j < i ==> ms[j].0@ != key@);
                            }
                            assert(c == i as int) by {
                                if c < i {
                                    assert(ms[c].0@ != key@);
                                } else if c > i {
                                    assert(ms[i as int].0@ != key@);
                                }
                            }
                            assert(member_index(ms, key@) == Some(i as int));
                            assert(spec_get(*self, key@) == Some(ms[i as int].1));
                        }
                        let r = &members[i].1;
                        assert(*r == members@[i as int].1);
                        return Some(r);
                    }
                    i = i + 1;
                }
                None
            },
            _ => None,
        }
    }

    pub fn as_str(&self) -> (r: Option<&str>)
        ensures
            match spec_as_str(*self) {
                Some(s) => r matches Some(x) && x@ == s,
                None => r is None,
            },
    {
        match self {
            Json::Str(s) => Some(s.as_str()),
            _ => None,
        }
    }

    pub fn as_bool(&self) -> (r: Option<bool>)
        ensures
            r == spec_as_bool(*self),
    {
        match self {
            Json::Bool(b) => Some(*b),
            _ => None,
        }
    }

    pub fn is_object(&self) -> (r: bool)
        ensures
            r == (*self is Object),
    {
        match self {
            Json::Object(_) => true,
            _ => false,
        }
    }

    pub fn as_array(&self) -> (r: Option<&Vec<Json>>)
        ensures
            match *self {
                Json::Array(items) => r matches Some(x) && *x == items,
                _ => r is None,
            },
    {
        match self {
            Json::Array(items) => Some(items),
            _ => None,
        }
    }
}

/// `serde_json::Value`, carried through the conversion below without being read by
/// verified code.
#[verifier::external_type_specification]
#[verifier::external_body]
pub struct ExJsonValue(serde_json::Value);

/// `serde_json::Error`, the reason a text is not JSON.
#[verifier::external_type_specification]
#[verifier::external_body]
pub struct ExJsonError(serde_json::Error);

/// Names the document `serde_json` parses from `text` (`None` when the text is not
/// valid JSON).
pub uninterp spec fn spec_parse_json(text: Seq<char>) -> Option<Json>;

/// `serde_json::from_str::<serde_json::Value>`, converted into [`Json`]. Whether it
/// succeeds and what it returns are functions of `text` alone; the contract names them
/// and states nothing of the JSON grammar.
#[verifier::external_body]
pub(crate) fn parse_json(text: &str) -> (r: Result<Json, serde_json::Error>)
    ensures
        match r {
            Ok(j) => spec_parse_json(text@) == Some(j),
            Err(_) => spec_parse_json(text@) is None,
        },
{
    serde_json::from_str::<serde_json::Value>(text).map(|v| json_of_value(&v))
}

/// Names the document `serde_json` parses from the bytes `bytes` (`None` when they are
/// not valid UTF-8 JSON).
pub uninterp spec fn spec_parse_json_bytes(bytes: Seq<u8>) -> Option<Json>;

/// `serde_json::from_slice::<serde_json::Value>`, converted into [`Json`]. Whether it
/// succeeds and what it returns are functions of `bytes` alone; the contract names them.
#[verifier::external_body]
pub(crate) fn parse_json_bytes(bytes: &[u8]) -> (r: Result<Json, serde_json::Error>)
    ensures
        match r {
            Ok(j) => spec_parse_json_bytes(bytes@) == Some(j),
            Err(_) => spec_parse_json_bytes(bytes@) is None,
        },
{
    serde_json::from_slice::<serde_json::Value>(bytes).map(|v| json_of_value(&v))
}

/// The error's `Display` text, which names the line and column where parsing failed.
/// Nothing is stated of the wording.
#[verifier::external_body]
pub(crate) fn json_error_text(e: &serde_json::Error) -> String {
    e.to_string()
}

/// The one-for-one conversion of a `serde_json::Value` into [`Json`] that
/// `parse_json` applies to its result: each variant to the variant of the same name,
/// numbers as their JSON text, members in document order.
#[verifier::external_body]
fn json_of_value(v: &serde_json::Value) -> Json {
    match v {
        serde_json::Value::Null => Json::Null,
        serde_json::Value::Bool(b) => Json::Bool(*b),
        serde_json::Value::Number(n) => Json::Number(n.to_string()),
        serde_json::Value::String(s) => Json::Str(s.clone()),
        serde_json::Value::Array(a) => Json::Array(a.iter().map(json_of_value).collect()),
        serde_json::Value::Object(o) => Json::Object(o.iter().map(|(k, x)| (k.clone(), json_of_value(x))).collect()),
    }
}

/// Names the compact text `serde_json::to_string` writes for a document.
pub uninterp spec fn spec_json_compact(j: JsonView) -> Seq<char>;

/// Names the indented text `serde_json::to_string_pretty` writes for a document.
pub uninterp spec fn spec_json_pretty(j: JsonView) -> Seq<char>;

/// `serde_json::to_string` of the document, converted back into a `serde_json::Value`
/// first. Writing a `Value` cannot fail; the text is a function of the document alone,
/// which the contract names and does not describe.
#[verifier::external_body]
pub(crate) fn json_to_string(j: &Json) -> (r: String)
    ensures
        r@ == spec_json_compact(jview(*j)),
{
    serde_json::to_string(&value_of_json(j)).unwrap_or_default()
}

/// `serde_json::to_string_pretty` (two-space indent) of the document, as above.
#[verifier::external_body]
pub(crate) fn json_to_string_pretty(j: &Json) -> (r: String)
    ensures
        r@ == spec_json_pretty(jview(*j)),
{
    serde_json::to_string_pretty(&value_of_json(j)).unwrap_or_default()
}

/// The one-for-one conversion of a [`Json`] into a `serde_json::Value`, the inverse of
/// `json_of_value`: each variant to the variant of the same name, a number's text read
/// back by `serde_json::Number`'s parser.
#[verifier::external_body]
fn value_of_json(j: &Json) -> serde_json::Value {
    match j {
        Json::Null => serde_json::Value::Null,
        Json::Bool(b) => serde_json::Value::Bool(*b),
        Json::Number(n) => n.parse::<serde_json::Number>().map(serde_json::Value::Number).unwrap_or(serde_json::Value::Null),
        Json::Str(s) => serde_json::Value::String(s.clone()),
        Json::Array(a) => serde_json::Value::Array(a.iter().map(value_of_json).collect()),
        Json::Object(o) => serde_json::Value::Object(o.iter().map(|(k, x)| (k.clone(), value_of_json(x))).collect()),
    }
}

/// A JSON value as plain values.
pub ghost enum JsonView {
    Null,
    Bool(bool),
    Number(Seq<char>),
    Str(Seq<char>),
    Array(Seq<JsonView>),
    Object(Seq<(Seq<char>, JsonView)>),
}

/// The plain value of a JSON value.
pub open spec fn jview(j: Json) -> JsonView
    decreases j, 0nat,
{
    match j {
        Json::Null => JsonView::Null,
        Json::Bool(b) => JsonView::Bool(b),
        Json::Number(n) => JsonView::Number(n@),
        Json::Str(t) => JsonView::Str(t@),
        Json::Array(items) => JsonView::Array(jviews(items@)),
        Json::Object(members) => JsonView::Object(mviews(members@)),
    }
}

/// The plain values of a list of JSON values.
pub open spec fn jviews(s: Seq<Json>) -> Seq<JsonView>
    decreases s, s.len(),
{
    if s.len() == 0 {
        Seq::empty()
    } else {
        jviews(s.drop_last()) + seq![jview(s.last())]
    }
}

/// The plain values of a list of object members.
pub open spec fn mviews(s: Seq<(String, Json)>) -> Seq<(Seq<char>, JsonView)>
    decreases s, s.len(),
{
    if s.len() == 0 {
        Seq::empty()
    } else {
        mviews(s.drop_last()) + seq![(s.last().0@, jview(s.last().1))]
    }
}

/// The index of the first member with key `key`, or -1.
pub open spec fn vpos(ms: Seq<(Seq<char>, JsonView)>, key: Seq<char>) -> int
    decreases ms.len(),
{
    if ms.len() == 0 {
        -1
    } else if vpos(ms.drop_last(), key) >= 0 {
        vpos(ms.drop_last(), key)
    } else if ms.last().0 == key {
        ms.len() - 1
    } else {
        -1
    }
}

/// The member `key` of an object (the first, should keys repeat).
pub open spec fn vget(j: JsonView, key: Seq<char>) -> Option<JsonView> {
    match j {
        JsonView::Object(ms) => if vpos(ms, key) >= 0 {
            Some(ms[vpos(ms, key)].1)
        } else {
            None
        },
        _ => None,
    }
}

pub proof fn lemma_jviews_index(s: Seq<Json>)
    ensures
        jviews(s).len() == s.len(),
        forall|i: int| 0 <= i < s.len() ==> #[trigger] jviews(s)[i] == jview(s[i]),
    decreases s.len(),
{
    if s.len() > 0 {
        lemma_jviews_index(s.drop_last());
        assert forall|i: int| 0 <= i < s.len() implies #[trigger] jviews(s)[i] == jview(s[i]) by {
            if i < s.len() - 1 {
                assert(s.drop_last()[i] == s[i]);
            }
        }
    }
}

pub proof fn lemma_mviews_index(s: Seq<(String, Json)>)
    ensures
        mviews(s).len() == s.len(),
        forall|i: int| 0 <= i < s.len() ==> #[trigger] mviews(s)[i] == (s[i].0@, jview(s[i].1)),
    decreases s.len(),
{
    if s.len() > 0 {
        lemma_mviews_index(s.drop_last());
        assert forall|i: int| 0 <= i < s.len() implies #[trigger] mviews(s)[i] == (s[i].0@, jview(s[i].1)) by {
            if i < s.len() - 1 {
                assert(s.drop_last()[i] == s[i]);
            }
        }
    }
}

pub proof fn lemma_vpos_first(ms: Seq<(Seq<char>, JsonView)>, key: Seq<char>)
    ensures
        -1 <= vpos(ms, key) < ms.len(),
        vpos(ms, key) >= 0 ==> ms[vpos(ms, key)].0 == key && forall|j: int| 0 <= j < vpos(ms, key) ==> ms[j].0 != key,
        vpos(ms, key) == -1 ==> forall|j: int| 0 <= j < ms.len() ==> ms[j].0 != key,
    decreases ms.len(),
{
    if ms.len() > 0 {
        lemma_vpos_first(ms.drop_last(), key);
        assert forall|j: int| 0 <= j < ms.len() - 1 implies ms[j] == ms.drop_last()[j] by {}
    }
}

/// `spec_get` on a value and `vget` on its plain value agree.
pub proof fn lemma_get_view(j: Json, key: Seq<char>)
    ensures
        match spec_get(j, key) {
            Some(x) => vget(jview(j), key) == Some(jview(x)),
            None => vget(jview(j), key) is None,
        },
{
    match j {
        Json::Object(members) => {
            let ms = members@;
            lemma_mviews_index(ms);
            let vs = mviews(ms);
            lemma_vpos_first(vs, key);
            let p = vpos(vs, key);
            if p >= 0 {
                assert(ms[p].0@ == key);
                assert(exists|i: int| 0 <= i < ms.len() && #[trigger] ms[i].0@ == key);
                let c = choose|i: int| 0 <= i < ms.len() && #[trigger] ms[i].0@ == key && forall|jj: int| 0 <= jj < i ==> ms[jj].0@ != key;
                assert(exists|i: int| 0 <= i < ms.len() && #[trigger] ms[i].0@ == key && forall|jj: int| 0 <= jj < i ==> ms[jj].0@ != key) by {
                    assert forall|jj: int| 0 <= jj < p implies ms[jj].0@ != key by {
                        assert(vs[jj].0 != key);
                    }
                }
                assert(c == p) by {
                    if c < p {
                        assert(vs[c].0 != key);
                    } else if c > p {
                        assert(ms[p].0@ == key);
                    }
                }
            } else {
                assert forall|i: int| 0 <= i < ms.len() implies ms[i].0@ != key by {
                    assert(vs[i].0 != key);
                }
            }
        },
        _ => {},
    }
}

impl Json {
    /// A deep copy.
    pub fn duplicate(&self) -> (r: Json)
        ensures
            jview(r) == jview(*self),
        decreases self,
    {
        match self {
            Json::Null => Json::Null,
            Json::Bool(b) => Json::Bool(*b),
            Json::Number(n) => Json::Number(n.clone()),
            Json::Str(t) => Json::Str(t.clone()),
            Json::Array(items) => {
                let mut out: Vec<Json> = Vec::new();
                let mut i: usize = 0;
                while i < items.len()
                    invariant
                        i <= items.len(),
                        *self == Json::Array(*items),
                        jviews(out@) == jviews(items@.subrange(0, i as int)),
                    decreases items.len() - i,
                {
                    proof {
                        vstd::std_specs::vec::axiom_vec_index_decreases(*items, i as int);
                        assert(decreases_to!(*self => self->Array_0));
                    }
                    let x = items[i].duplicate();
                    let ghost o0 = out@;
                    out.push(x);
                    proof {
                        assert(out@.drop_last() =~= o0);
                        let p = items@.subrange(0, i + 1);
                        assert(p.drop_last() =~= items@.subrange(0, i as int));
                    }
                    i = i + 1;
                }
                assert(items@.subrange(0, items.len() as int) =~= items@);
                Json::Array(out)
            },
            Json::Object(members) => {
                let mut out: Vec<(String, Json)> = Vec::new();
                let mut i: usize = 0;
                while i < members.len()
                    invariant
                        i <= members.len(),
                        *self == Json::Object(*members),
                        mviews(out@) == mviews(members@.subrange(0, i as int)),
                    decreases members.len() - i,
                {
                    proof {
                        vstd::std_specs::vec::axiom_vec_index_decreases(*members, i as int);
                        assert(decreases_to!(*self => self->Object_0));
                    }
                    let v = members[i].1.duplicate();
                    let k = members[i].0.clone();
                    let ghost o0 = out@;
                    out.push((k, v));
                    proof {
                        assert(out@.drop_last() =~= o0);
                        let p = members@.subrange(0, i + 1);
                        assert(p.drop_last() =~= members@.subrange(0, i as int));
                    }
                    i = i + 1;
                }
                assert(members@.subrange(0, members.len() as int) =~= members@);
                Json::Object(out)
            },
        }
    }
}

/// `jviews` is the element-wise plain value.
pub proof fn lemma_jviews_map(s: Seq<Json>)
    ensures
        jviews(s) == s.map_values(|x: Json| jview(x)),
{
    lemma_jviews_index(s);
    assert(jviews(s) =~= s.map_values(|x: Json| jview(x)));
}

/// `mviews` is the member-wise plain value.
pub proof fn lemma_mviews_map(s: Seq<(String, Json)>)
    ensures
        mviews(s) == s.map_values(|e: (String, Json)| (e.0@, jview(e.1))),
{
    lemma_mviews_index(s);
    assert(mviews(s) =~= s.map_values(|e: (String, Json)| (e.0@, jview(e.1))));
}

/// The first member with key `key`.
pub fn member_pos(ms: &Vec<(String, Json)>, key: &str) -> (r: Option<usize>)
    ensures
        match r {
            Some(i) => i < ms@.len() && vpos(mviews(ms@), key@) == i,
            None => vpos(mviews(ms@), key@) == -1,
        },
{
    let ghost vs = mviews(ms@);
    proof {
        lemma_mviews_index(ms@);
    }
    let mut i: usize = 0;
    while i < ms.len()
        invariant
            i <= ms.len(),
            vs == mviews(ms@),
            vs.len() == ms@.len(),
            forall|j: int| 0 <= j < ms@.len() ==> #[trigger] vs[j] == (ms@[j].0@, jview(ms@[j].1)),
            forall|j: int| 0 <= j < i ==> vs[j].0 != key@,
        decreases ms.len() - i,
    {
        if str_eq(ms[i].0.as_str(), key) {
            proof {
                lemma_vpos_at(vs, key@, i as int);
            }
            return Some(i);
        }
        i = i + 1;
    }
    proof {
        lemma_vpos_none(vs, key@);
    }
    None
}

pub proof fn lemma_vpos_at(ms: Seq<(Seq<char>, JsonView)>, key: Seq<char>, i: int)
    requires
        0 <= i < ms.len(),
        forall|j: int| 0 <= j < i ==> ms[j].0 != key,
        ms[i].0 == key,
    ensures
        vpos(ms, key) == i,
    decreases ms.len(),
{
    if i < ms.len() - 1 {
        assert forall|j: int| 0 <= j < i implies ms.drop_last()[j].0 != key by {
            assert(ms.drop_last()[j] == ms[j]);
        }
        assert(ms.drop_last()[i] == ms[i]);
        lemma_vpos_at(ms.drop_last(), key, i);
    } else {
        assert forall|j: int| 0 <= j < ms.drop_last().len() implies ms.drop_last()[j].0 != key by {
            assert(ms.drop_last()[j] == ms[j]);
        }
        lemma_vpos_none(ms.drop_last(), key);
    }
}

pub proof fn lemma_vpos_none(ms: Seq<(Seq<char>, JsonView)>, key: Seq<char>)
    requires
        forall|j: int| 0 <= j < ms.len() ==> ms[j].0 != key,
    ensures
        vpos(ms, key) == -1,
    decreases ms.len(),
{
    if ms.len() > 0 {
        assert forall|j: int| 0 <= j < ms.drop_last().len() implies ms.drop_last()[j].0 != key by {
            assert(ms.drop_last()[j] == ms[j]);
        }
        lemma_vpos_none(ms.drop_last(), key);
        assert(ms[ms.len() - 1].0 != key);
    }
}

} // verus!
