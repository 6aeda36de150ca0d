//! A property list (Apple's plist) as plain values, and the parser that produces it.
use vstd::prelude::*;
use crate::text::str_eq;
use plist::Value as PV;

verus! {

/// A plist value. Dictionary entries keep their order and have distinct keys.
#[derive(Debug, PartialEq, Eq)]
pub enum PlistValue {
    Array(Vec<PlistValue>),
    Dictionary(Vec<(String, PlistValue)>),
    Boolean(bool),
    Data(Vec<u8>),
    /// A date, as the XML format writes it.
    Date(String),
    /// A real number, as its decimal text.
    Real(String),
    /// An integer, as its decimal text.
    Integer(String),
    String(String),
    Uid(u64),
    /// A kind of value newer than this library.
    Other,
}

/// Index of the first entry of `entries` whose key is `key`.
pub open spec fn entry_index(entries: Seq<(String, PlistValue)>, key: Seq<char>) -> Option<int> {
    if exists|i: int| 0 <= i < entries.len() && #[trigger] entries[i].0@ == key {
        Some(
            choose|i: int|
                0 <= i < entries.len() && #[trigger] entries[i].0@ == key && forall|j: int|
                    0 <= j < i ==> entries[j].0@ != key,
        )
    } else {
        None
    }
}

/// The value under `key` in a dictionary.
pub open spec fn spec_dict_get(entries: Seq<(String, PlistValue)>, key: Seq<char>) -> Option<PlistValue> {
    match entry_index(entries, key) {
        Some(i) => Some(entries[i].1),
        None => None,
    }
}

/// `value.as_string()`.
pub open spec fn spec_plist_str(v: PlistValue) -> Option<Seq<char>> {
    match v {
        PlistValue::String(s) => Some(s@),
        _ => None,
    }
}

/// The value under `key` in the dictionary `entries`.
pub fn dict_get<'a>(entries: &'a Vec<(String, PlistValue)>, key: &str) -> (r: Option<&'a PlistValue>)
    ensures
        match spec_dict_get(entries@, key@) {
            Some(v) => r matches Some(x) && *x == v,
            None => r is None,
        },
{
    let mut i: usize = 0;
    while i < entries.len()
        invariant
            i <= entries.len(),
            forall|j: int| 0 <= j < i ==> entries@[j].0@ != key@,
        decreases entries.len() - i,
    {
        if str_eq(entries[i].0.as_str(), key) {
            proof {
                let es = entries@;
                assert(es[i as int].0@ == key@);
                let c = choose|x: int|
                    0 <= x < es.len() && #[trigger] es[x].0@ == key@ && forall|j: int|
                        0 <= j < x ==> es[j].0@ != key@;
                assert(exists|x: int|
                    0 <= x < es.len() && #[trigger] es[x].0@ == key@ && forall|j: int|
                        0 <= j < x ==> es[j].0@ != key@) by {
                    assert(0 <= i < es.len() && es[i as int].0@ == key@ && forall|j: int|
                        0 <= j < i ==> es[j].0@ != key@);
                }
                assert(c == i as int) by {
                    if c < i {
                        assert(es[c].0@ != key@);
                    } else if c > i {
                        assert(es[i as int].0@ != key@);
                    }
                }
            }
            return Some(&entries[i].1);
        }
        i = i + 1;
    }
    None
}

impl PlistValue {
    pub fn as_dictionary(&self) -> (r: Option<&Vec<(String, PlistValue)>>)
        ensures
            match *self {
                PlistValue::Dictionary(d) => r matches Some(x) && *x == d,
                _ => r is None,
            },
    {
        match self {
            PlistValue::Dictionary(d) => Some(d),
            _ => None,
        }
    }

    pub fn as_array(&self) -> (r: Option<&Vec<PlistValue>>)
        ensures
            match *self {
                PlistValue::Array(a) => r matches Some(x) && *x == a,
                _ => r is None,
            },
    {
        match self {
            PlistValue::Array(a) => Some(a),
            _ => None,
        }
    }

    pub fn as_string(&self) -> (r: Option<&str>)
        ensures
            match spec_plist_str(*self) {
                Some(s) => r matches Some(x) && x@ == s,
                None => r is None,
            },
    {
        match self {
            PlistValue::String(s) => Some(s.as_str()),
            _ => None,
        }
    }
}

/// `plist::Value`, carried through the conversion below without being read by
/// verified code.
#[verifier::external_type_specification]
#[verifier::external_body]
pub struct ExPlistValue(plist::Value);

/// `plist::Error`, the reason bytes are not a property list.
#[verifier::external_type_specification]
#[verifier::external_body]
pub struct ExPlistError(plist::Error);

/// Names the value `plist` reads from `bytes` (XML, binary or ASCII encoding), or
/// `None` when they are not a property list.
pub uninterp spec fn spec_parse_plist(bytes: Seq<u8>) -> Option<PlistValue>;

/// `plist::from_bytes::<plist::Value>`, converted into [`PlistValue`]. Whether it
/// succeeds and what it returns are functions of `bytes` alone; the contract names
/// them and states nothing of the plist formats.
#[verifier::external_body]
pub(crate) fn parse_plist(bytes: &[u8]) -> (r: Result<PlistValue, plist::Error>)
    ensures
        match r {
            Ok(v) => spec_parse_plist(bytes@) == Some(v),
            Err(_) => spec_parse_plist(bytes@) is None,
        },
{
    plist::from_bytes::<plist::Value>(bytes).map(|v| plist_of_value(&v))
}

/// The one-for-one conversion of a `plist::Value` into [`PlistValue`] that
/// `parse_plist` applies to its result: arrays and dictionaries element by element,
/// entries in dictionary order, the other kinds by [`plist_scalar`].
#[verifier::external_body]
fn plist_of_value(v: &PV) -> PlistValue {
    match v {
        PV::Array(a) => PlistValue::Array(a.iter().map(plist_of_value).collect()),
        PV::Dictionary(d) => PlistValue::Dictionary(d.iter().map(|(k, x)| (k.clone(), plist_of_value(x))).collect()),
        other => plist_scalar(other),
    }
}

/// The rest of the conversion: each kind to the variant of the same name, dates,
/// reals and integers as their text, and a kind newer than this library to `Other`.
#[verifier::external_body]
fn plist_scalar(v: &PV) -> PlistValue {
    match v {
        PV::Boolean(b) => PlistValue::Boolean(*b),
        PV::Data(b) => PlistValue::Data(b.clone()),
        PV::Date(d) => PlistValue::Date(d.to_xml_format()),
        PV::Real(x) => PlistValue::Real(x.to_string()),
        PV::Integer(n) => PlistValue::Integer(n.to_string()),
        PV::String(s) => PlistValue::String(s.clone()),
        PV::Uid(u) => PlistValue::Uid(u.get()),
        _ => PlistValue::Other,
    }
}

} // verus!
