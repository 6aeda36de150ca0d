//! Starting at login. macOS uses a LaunchAgent plist in `~/Library/LaunchAgents`;
//! Windows the `Run` key of the current user, holding the quoted executable path.
//! This is the desktop shell's own behaviour, not server configuration.
use vstd::prelude::*;
use crate::property_list::{parse_plist, spec_dict_get, spec_parse_plist, spec_plist_str, dict_get, PlistValue};
use crate::text::{chars_of, string_of};

verus! {

/// The LaunchAgent's label.
pub open spec fn label() -> Seq<char> {
    "com.octoterm.desktop"@
}

/// `s` with `&`, `<` and `>` written as XML entities.
pub open spec fn xml_escape(s: Seq<char>) -> Seq<char>
    decreases s.len(),
{
    if s.len() == 0 {
        Seq::empty()
    } else {
        xml_escape(s.drop_last()) + escape_char(s.last())
    }
}

pub open spec fn escape_char(c: char) -> Seq<char> {
    if c == '&' {
        "&amp;"@
    } else if c == '<' {
        "&lt;"@
    } else if c == '>' {
        "&gt;"@
    } else {
        seq![c]
    }
}

/// The LaunchAgent plist up to the executable's path.
pub open spec fn plist_head() -> Seq<char> {
    "<?xml version=\"1.0\" encoding=\"UTF-8\"?>\n<!DOCTYPE plist PUBLIC \"-//Apple//DTD PLIST 1.0//EN\" \"http://www.apple.com/DTDs/PropertyList-1.0.dtd\">\n<plist version=\"1.0\">\n<dict>\n    <key>Label</key>\n    <string>com.octoterm.desktop</string>\n    <key>ProgramArguments</key>\n    <array>\n        <string>"@
}

/// The LaunchAgent plist after the executable's path.
pub open spec fn plist_tail() -> Seq<char> {
    "</string>\n    </array>\n    <key>RunAtLoad</key>\n    <true/>\n</dict>\n</plist>\n"@
}

/// The LaunchAgent that starts `exe` at login: labelled, with the (escaped) path as
/// its one program argument, run at load.
pub fn plist_xml(exe: &str) -> (r: String)
    ensures
        r@ == plist_head() + xml_escape(exe@) + plist_tail(),
{
    let cs = chars_of(exe);
    let mut out: Vec<char> = Vec::new();
    let mut i: usize = 0;
    while i < cs.len()
        invariant
            i <= cs.len(),
            cs@ == exe@,
            out@ == xml_escape(cs@.subrange(0, i as int)),
        decreases cs.len() - i,
    {
        assert(cs@.subrange(0, i + 1).drop_last() =~= cs@.subrange(0, i as int));
        let c = cs[i];
        let ghost o0 = out@;
        if c == '&' {
            out.push('&');
            out.push('a');
            out.push('m');
            out.push('p');
            out.push(';');
            proof {
                reveal_strlit("&amp;");
            }
        } else if c == '<' {
            out.push('&');
            out.push('l');
            out.push('t');
            out.push(';');
            proof {
                reveal_strlit("&lt;");
            }
        } else if c == '>' {
            out.push('&');
            out.push('g');
            out.push('t');
            out.push(';');
            proof {
                reveal_strlit("&gt;");
            }
        } else {
            out.push(c);
        }
        assert(out@ =~= o0 + escape_char(c));
        i = i + 1;
    }
    assert(cs@.subrange(0, cs.len() as int) =~= cs@);
    let mut s = String::from_str("<?xml version=\"1.0\" encoding=\"UTF-8\"?>\n<!DOCTYPE plist PUBLIC \"-//Apple//DTD PLIST 1.0//EN\" \"http://www.apple.com/DTDs/PropertyList-1.0.dtd\">\n<plist version=\"1.0\">\n<dict>\n    <key>Label</key>\n    <string>com.octoterm.desktop</string>\n    <key>ProgramArguments</key>\n    <array>\n        <string>");
    let escaped = string_of(out.as_slice());
    s.append(escaped.as_str());
    s.append("</string>\n    </array>\n    <key>RunAtLoad</key>\n    <true/>\n</dict>\n</plist>\n");
    s
}

/// The executable a LaunchAgent plist registers: the first `ProgramArguments` entry,
/// when it is a string.
pub open spec fn spec_registered_target(v: PlistValue) -> Option<Seq<char>> {
    match v {
        PlistValue::Dictionary(d) => match spec_dict_get(d@, "ProgramArguments"@) {
            Some(PlistValue::Array(a)) => if a@.len() > 0 {
                spec_plist_str(a@[0])
            } else {
                None
            },
            _ => None,
        },
        _ => None,
    }
}

pub fn registered_target(v: &PlistValue) -> (r: Option<String>)
    ensures
        match r {
            Some(t) => spec_registered_target(*v) == Some(t@),
            None => spec_registered_target(*v) is None,
        },
{
    let d = match v.as_dictionary() {
        Some(d) => d,
        None => return None,
    };
    let a = match dict_get(d, "ProgramArguments") {
        Some(x) => match x.as_array() {
            Some(a) => a,
            None => return None,
        },
        None => return None,
    };
    if a.len() == 0 {
        return None;
    }
    match a[0].as_string() {
        Some(t) => Some(t.to_string()),
        None => None,
    }
}

/// The executable registered by the plist file's bytes: `Ok(None)` when there is no
/// file (nothing registered, no error); an error when the file is no plist.
pub fn registered_target_at(bytes: Option<&[u8]>) -> (r: Result<Option<String>, plist::Error>)
    ensures
        match bytes {
            None => r matches Ok(o) && o is None,
            Some(b) => match spec_parse_plist(b@) {
                None => r is Err,
                Some(v) => r matches Ok(o) && match o {
                    Some(t) => spec_registered_target(v) == Some(t@),
                    None => spec_registered_target(v) is None,
                },
            },
        },
{
    match bytes {
        None => Ok(None),
        Some(b) => match parse_plist(b) {
            Ok(v) => Ok(registered_target(&v)),
            Err(e) => Err(e),
        },
    }
}

/// Whether the query answers the question "is there such a file" for every path.
pub open spec fn exists_agrees<F: Fn(&str) -> bool>(f: F, existf: spec_fn(Seq<char>) -> bool) -> bool {
    forall|k: &str, b: bool| #[trigger] call_ensures(f, (k,), b) ==> b == existf(k@)
}

/// Whether starting at login will really start something: a registration whose
/// target is gone (the app moved or was deleted) is reported off. The registration
/// is never rewritten to this executable: another copy may be the one registered.
pub fn is_enabled<F: Fn(&str) -> bool>(registered: Option<String>, path_exists: &F) -> (r: bool)
    requires
        forall|k: &str| call_requires(*path_exists, (k,)),
    ensures
        forall|existf: spec_fn(Seq<char>) -> bool| #[trigger] exists_agrees(*path_exists, existf) ==> r == match registered {
            Some(t) => existf(t@),
            None => false,
        },
{
    match registered {
        Some(t) => path_exists(t.as_str()),
        None => false,
    }
}

/// The `Run` key's value without one pair of surrounding double quotes, which were
/// added when writing so that a path with spaces stays one argument. A value quoted
/// at one end only is not of that form and is left as it is.
pub open spec fn spec_strip_quotes(s: Seq<char>) -> Seq<char> {
    if s.len() >= 2 && s[0] == '"' && s.last() == '"' {
        s.subrange(1, s.len() - 1)
    } else {
        s
    }
}

pub fn strip_quotes(s: &str) -> (r: String)
    ensures
        r@ == spec_strip_quotes(s@),
{
    let cs = chars_of(s);
    let n = cs.len();
    if n >= 2 && cs[0] == '"' && cs[n - 1] == '"' {
        let mut out: Vec<char> = Vec::new();
        let mut i: usize = 1;
        while i < n - 1
            invariant
                n == cs@.len(),
                n >= 2,
                1 <= i <= n - 1,
                out@ == cs@.subrange(1, i as int),
            decreases n - 1 - i,
        {
            out.push(cs[i]);
            assert(out@ =~= cs@.subrange(1, i + 1));
            i = i + 1;
        }
        string_of(out.as_slice())
    } else {
        string_of(cs.as_slice())
    }
}

} // verus!
