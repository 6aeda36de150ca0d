//! The pieces of the `hook <url>` client that decide something: which URLs it may
//! call and what part of a reply it passes on. The network exchange itself lives
//! with the I/O layer.
use vstd::prelude::*;
use crate::text::{chars_of, string_of, is_ws, char_is_whitespace, parse_u16, spec_parse_u16};
use crate::launcher::cmdline::{lead_ws_dropped, first_ws, first_of, lemma_lead_ws, lemma_first_ws, lemma_first_of};

verus! {

/// `needle` occurs in `hay` at `i`.
pub open spec fn matches_at(hay: Seq<u8>, needle: Seq<u8>, i: int) -> bool {
    0 <= i && i + needle.len() <= hay.len() && hay.subrange(i, i + needle.len()) == needle
}

/// The first position where `needle` occurs in `hay`.
pub open spec fn spec_find(hay: Seq<u8>, needle: Seq<u8>) -> Option<int> {
    if exists|i: int| #[trigger] matches_at(hay, needle, i) {
        Some(choose|i: int| #[trigger] matches_at(hay, needle, i) && forall|j: int| 0 <= j < i ==> !matches_at(hay, needle, j))
    } else {
        None
    }
}

/// First position of `needle` in `hay`.
pub fn find(hay: &[u8], needle: &[u8]) -> (r: Option<usize>)
    requires
        needle.len() > 0,
    ensures
        match r {
            Some(i) => matches_at(hay@, needle@, i as int) && forall|j: int| 0 <= j < i ==> !matches_at(hay@, needle@, j),
            None => forall|j: int| !matches_at(hay@, needle@, j),
        },
{
    let n = needle.len();
    if hay.len() < n {
        return None;
    }
    let mut i: usize = 0;
    while i <= hay.len() - n
        invariant
            n == needle.len(),
            n <= hay.len(),
            i <= hay.len() - n + 1,
            forall|j: int| 0 <= j < i ==> !matches_at(hay@, needle@, j),
        decreases hay.len() - i,
    {
        let mut k: usize = 0;
        while k < n && hay[i + k] == needle[k]
            invariant
                k <= n,
                i + n <= hay.len(),
                n == needle.len(),
                forall|x: int| 0 <= x < k ==> hay@[i + x] == needle@[x],
            decreases n - k,
        {
            k = k + 1;
        }
        if k == n {
            assert(hay@.subrange(i as int, i + n) =~= needle@);
            return Some(i);
        }
        assert(hay@.subrange(i as int, i + n)[k as int] != needle@[k as int]);
        i = i + 1;
    }
    None
}

/// Names the text `String::from_utf8_lossy` makes of `b`.
pub uninterp spec fn spec_utf8_lossy(b: Seq<u8>) -> Seq<char>;

/// `String::from_utf8_lossy`: the text of `b`, with every invalid sequence replaced
/// by U+FFFD. The contract names the result and states one fact of its
/// documentation: bytes that are all ASCII come out as the same characters. How
/// other sequences decode is left unsaid.
#[verifier::external_body]
fn utf8_lossy(b: &[u8]) -> (s: String)
    ensures
        s@ == spec_utf8_lossy(b@),
        (forall|i: int| 0 <= i < b@.len() ==> b@[i] < 128) ==> s@ == b@.map_values(|x: u8| x as char),
{
    String::from_utf8_lossy(b).into_owned()
}

/// The first line of `s` (`str::lines().next()`): up to the first `\n`, without a
/// `\r` just before it; `None` for the empty string.
pub open spec fn first_line(s: Seq<char>) -> Option<Seq<char>> {
    if s.len() == 0 {
        None
    } else {
        let p = first_of(s, '\n');
        if p < s.len() {
            let l = s.subrange(0, p as int);
            Some(
                if l.len() > 0 && l.last() == '\r' {
                    l.drop_last()
                } else {
                    l
                },
            )
        } else {
            Some(s)
        }
    }
}

/// The next whitespace-separated token of `s` and what follows it.
pub open spec fn next_token(s: Seq<char>) -> (Seq<char>, Seq<char>) {
    let t = lead_ws_dropped(s);
    let w = first_ws(t);
    (t.subrange(0, w as int), t.subrange(w as int, t.len() as int))
}

/// The second token of `s` (`split_whitespace().nth(1)`).
pub open spec fn second_token(s: Seq<char>) -> Option<Seq<char>> {
    let (t0, r0) = next_token(s);
    let (t1, _r1) = next_token(r0);
    if t0.len() > 0 && t1.len() > 0 {
        Some(t1)
    } else {
        None
    }
}

/// Whether a response head has a 2xx status: the second token of its first line
/// parses as a `u16` in `200..300`.
pub open spec fn status_ok(head: Seq<char>) -> bool {
    match first_line(head) {
        Some(l) => match second_token(l) {
            Some(tok) => match spec_parse_u16(tok) {
                Some(c) => 200 <= c < 300,
                None => false,
            },
            None => false,
        },
        None => false,
    }
}

pub open spec fn crlfcrlf() -> Seq<u8> {
    seq![13u8, 10u8, 13u8, 10u8]
}

/// What `response_body` passes on: the body after the blank line of a 2xx
/// response, nothing otherwise.
pub open spec fn spec_response_body(raw: Seq<u8>) -> Seq<u8> {
    match spec_find(raw, crlfcrlf()) {
        None => Seq::empty(),
        Some(e) => if status_ok(spec_utf8_lossy(raw.subrange(0, e))) {
            raw.subrange(e + 4, raw.len() as int)
        } else {
            Seq::empty()
        },
    }
}

/// The next token of `v[i..]`: returns its bounds `(a, b)`.
fn token_bounds(v: &Vec<char>, i: usize) -> (r: (usize, usize))
    requires
        i <= v.len(),
    ensures
        i <= r.0 <= r.1 <= v.len(),
        next_token(v@.subrange(i as int, v.len() as int)) == (
            v@.subrange(r.0 as int, r.1 as int),
            v@.subrange(r.1 as int, v.len() as int),
        ),
{
    let n = v.len();
    let mut a = i;
    while a < n && char_is_whitespace(v[a])
        invariant
            i <= a <= n,
            n == v.len(),
            forall|k: int| i <= k < a ==> is_ws(#[trigger] v@[k]),
        decreases n - a,
    {
        a = a + 1;
    }
    let mut b = a;
    while b < n && !char_is_whitespace(v[b])
        invariant
            a <= b <= n,
            n == v.len(),
            forall|k: int| a <= k < b ==> !is_ws(#[trigger] v@[k]),
        decreases n - b,
    {
        b = b + 1;
    }
    proof {
        let s = v@.subrange(i as int, n as int);
        assert forall|k: int| 0 <= k < a - i implies is_ws(#[trigger] s[k]) by {
            assert(s[k] == v@[k + i]);
        }
        lemma_lead_ws(s, a - i);
        let t = s.subrange(a - i, s.len() as int);
        assert(t =~= v@.subrange(a as int, n as int));
        assert forall|k: int| 0 <= k < b - a implies !is_ws(#[trigger] t[k]) by {
            assert(t[k] == v@[k + a]);
        }
        lemma_first_ws(t, b - a);
        assert(t.subrange(0, b - a) =~= v@.subrange(a as int, b as int));
        assert(t.subrange(b - a, t.len() as int) =~= v@.subrange(b as int, n as int));
    }
    (a, b)
}

fn first_line_chars(head: &Vec<char>) -> (r: Option<Vec<char>>)
    ensures
        match first_line(head@) {
            Some(l) => r matches Some(v) && v@ == l,
            None => r is None,
        },
{
    let n = head.len();
    if n == 0 {
        return None;
    }
    let mut p: usize = 0;
    while p < n && head[p] != '\n'
        invariant
            p <= n,
            n == head.len(),
            forall|k: int| 0 <= k < p ==> #[trigger] head@[k] != '\n',
        decreases n - p,
    {
        p = p + 1;
    }
    proof {
        lemma_first_of(head@, '\n', p as int);
    }
    let mut end = p;
    if p < n && p > 0 && head[p - 1] == '\r' {
        end = p - 1;
    }
    let mut line: Vec<char> = Vec::new();
    let mut k: usize = 0;
    while k < end
        invariant
            k <= end <= n,
            n == head.len(),
            line@ == head@.subrange(0, k as int),
        decreases end - k,
    {
        line.push(head[k]);
        k = k + 1;
        assert(line@ =~= head@.subrange(0, k as int));
    }
    proof {
        if p < n {
            let l = head@.subrange(0, p as int);
            if l.len() > 0 && l.last() == '\r' {
                assert(l.drop_last() =~= line@);
            } else {
                assert(l =~= line@);
            }
        } else {
            assert(head@ =~= line@);
        }
    }
    Some(line)
}

fn second_token_chars(line: &Vec<char>) -> (r: Option<Vec<char>>)
    ensures
        match second_token(line@) {
            Some(t) => r matches Some(v) && v@ == t,
            None => r is None,
        },
{
    let (a0, b0) = token_bounds(line, 0);
    assert(line@.subrange(0, line.len() as int) =~= line@);
    let (a1, b1) = token_bounds(line, b0);
    if b0 == a0 || b1 == a1 {
        return None;
    }
    let mut tok: Vec<char> = Vec::new();
    let mut x = a1;
    while x < b1
        invariant
            a1 <= x <= b1 <= line.len(),
            tok@ == line@.subrange(a1 as int, x as int),
        decreases b1 - x,
    {
        tok.push(line[x]);
        x = x + 1;
        assert(tok@ =~= line@.subrange(a1 as int, x as int));
    }
    Some(tok)
}

fn is_status_ok(head: &Vec<char>) -> (r: bool)
    ensures
        r == status_ok(head@),
{
    let line = match first_line_chars(head) {
        Some(l) => l,
        None => return false,
    };
    let tok = match second_token_chars(&line) {
        Some(t) => t,
        None => return false,
    };
    match parse_u16(tok.as_slice()) {
        Some(c) => 200 <= c && c < 300,
        None => false,
    }
}

/// The body of a raw HTTP response, for the only shape our own server produces
/// (`Connection: close`, explicit length, no chunking). A non-2xx status, or a
/// response without the blank line after its head, gives an empty body: to the agent
/// that means "no decision", never an error page taken for one.
pub fn response_body(raw: &[u8]) -> (r: Vec<u8>)
    ensures
        r@ == spec_response_body(raw@),
{
    let sep: [u8; 4] = [13, 10, 13, 10];
    assert(sep@ =~= crlfcrlf());
    let found = find(raw, &sep);
    proof {
        match found {
            Some(i) => {
                assert(matches_at(raw@, crlfcrlf(), i as int));
                let c = choose|x: int| #[trigger] matches_at(raw@, crlfcrlf(), x) && forall|j: int| 0 <= j < x ==> !matches_at(raw@, crlfcrlf(), j);
                assert(c == i);
                assert(spec_find(raw@, crlfcrlf()) == Some(i as int));
            },
            None => {
                assert(spec_find(raw@, crlfcrlf()) is None);
            },
        }
    }
    let head_end = match found {
        Some(e) => e,
        None => return Vec::new(),
    };
    let mut head_bytes: Vec<u8> = Vec::new();
    let mut k: usize = 0;
    while k < head_end
        invariant
            k <= head_end <= raw.len(),
            head_bytes@ == raw@.subrange(0, k as int),
        decreases head_end - k,
    {
        head_bytes.push(raw[k]);
        k = k + 1;
        assert(head_bytes@ =~= raw@.subrange(0, k as int));
    }
    let head = utf8_lossy(head_bytes.as_slice());
    let hv = chars_of(head.as_str());
    if !is_status_ok(&hv) {
        return Vec::new();
    }
    let mut out: Vec<u8> = Vec::new();
    let mut i = head_end + 4;
    while i < raw.len()
        invariant
            head_end + 4 <= i <= raw.len(),
            out@ == raw@.subrange(head_end + 4, i as int),
        decreases raw.len() - i,
    {
        out.push(raw[i]);
        i = i + 1;
        assert(out@ =~= raw@.subrange(head_end + 4, i as int));
    }
    out
}

/// The only URLs the client calls start with this: loopback, plain HTTP.
pub open spec fn loopback_prefix() -> Seq<char> {
    "http://127.0.0.1:"@
}

/// `http://127.0.0.1:<port>/<path>` split into `("127.0.0.1:<port>", "/<path>")`;
/// nothing for any other URL (another host, another scheme, a port that is not a
/// `u16`, no path).
pub open spec fn spec_split_url(url: Seq<char>) -> Option<(Seq<char>, Seq<char>)> {
    let p = loopback_prefix();
    if url.len() < p.len() || url.subrange(0, p.len() as int) != p {
        None
    } else {
        let rest = url.subrange(p.len() as int, url.len() as int);
        let j = first_of(rest, '/');
        if j >= rest.len() {
            None
        } else if spec_parse_u16(rest.subrange(0, j as int)) is None {
            None
        } else {
            Some(
                (
                    "127.0.0.1:"@ + rest.subrange(0, j as int),
                    seq!['/'] + rest.subrange(j as int + 1, rest.len() as int),
                ),
            )
        }
    }
}

/// Splits a loopback hook URL into address and path; see [`spec_split_url`].
pub fn split_url(url: &str) -> (r: Option<(String, String)>)
    ensures
        match r {
            Some(x) => spec_split_url(url@) == Some((x.0@, x.1@)),
            None => spec_split_url(url@) is None,
        },
{
    let v = chars_of(url);
    let pfx = chars_of("http://127.0.0.1:");
    let host = chars_of("127.0.0.1:");
    proof {
        reveal_strlit("http://127.0.0.1:");
        reveal_strlit("127.0.0.1:");
    }
    let n = pfx.len();
    if v.len() < n {
        return None;
    }
    let mut i: usize = 0;
    while i < n
        invariant
            i <= n <= v.len(),
            n == pfx.len(),
            pfx@ == loopback_prefix(),
            v@ == url@,
            forall|k: int| 0 <= k < i ==> v@[k] == pfx@[k],
        decreases n - i,
    {
        if v[i] != pfx[i] {
            proof {
                assert(v@.subrange(0, n as int)[i as int] != pfx@[i as int]);
                assert(v@.subrange(0, n as int) != loopback_prefix());
            }
            return None;
        }
        i = i + 1;
    }
    assert(v@.subrange(0, n as int) =~= pfx@);
    let mut j: usize = n;
    while j < v.len() && v[j] != '/'
        invariant
            n <= j <= v.len(),
            forall|k: int| n <= k < j ==> v@[k] != '/',
        decreases v.len() - j,
    {
        j = j + 1;
    }
    let ghost rest = v@.subrange(n as int, v.len() as int);
    proof {
        lemma_first_of(rest, '/', j - n);
    }
    if j >= v.len() {
        return None;
    }
    let mut port: Vec<char> = Vec::new();
    let mut k: usize = n;
    while k < j
        invariant
            n <= k <= j < v.len(),
            port@ == v@.subrange(n as int, k as int),
        decreases j - k,
    {
        port.push(v[k]);
        k = k + 1;
        assert(port@ =~= v@.subrange(n as int, k as int));
    }
    assert(port@ =~= rest.subrange(0, (j - n) as int));
    if parse_u16(port.as_slice()).is_none() {
        return None;
    }
    let mut addr = host.clone();
    let mut path: Vec<char> = Vec::new();
    path.push('/');
    let mut m: usize = 0;
    let ghost h0 = addr@;
    while m < port.len()
        invariant
            m <= port.len(),
            addr@ == h0 + port@.subrange(0, m as int),
        decreases port.len() - m,
    {
        addr.push(port[m]);
        m = m + 1;
        assert(addr@ =~= h0 + port@.subrange(0, m as int));
    }
    assert(port@.subrange(0, port.len() as int) =~= port@);
    let mut t: usize = j + 1;
    while t < v.len()
        invariant
            j + 1 <= t <= v.len(),
            path@ == seq!['/'] + v@.subrange(j + 1, t as int),
        decreases v.len() - t,
    {
        path.push(v[t]);
        t = t + 1;
        assert(path@ =~= seq!['/'] + v@.subrange(j + 1, t as int));
    }
    assert(path@ =~= seq!['/'] + rest.subrange((j - n) + 1, rest.len() as int));
    Some((string_of(addr.as_slice()), string_of(path.as_slice())))
}

} // verus!

verus! {

/// The request head posted to the local server, `Connection: close`, announcing a
/// JSON body of `len` bytes.
pub open spec fn spec_request_head(path: Seq<char>, addr: Seq<char>, token: Seq<char>, session: Seq<char>, len: nat) -> Seq<char> {
    "POST "@ + path + " HTTP/1.1\r\nHost: "@ + addr + "\r\nAuthorization: Bearer "@ + token
        + "\r\nX-Octoterm-Session: "@ + session + "\r\nContent-Type: application/json\r\nContent-Length: "@
        + crate::text::spec_decimal(len) + "\r\nConnection: close\r\n\r\n"@
}

pub fn request_head(path: &str, addr: &str, token: &str, session: &str, len: usize) -> (r: String)
    ensures
        r@ == spec_request_head(path@, addr@, token@, session@, len as nat),
{
    let mut h = String::from_str("POST ");
    h.append(path);
    h.append(" HTTP/1.1\r\nHost: ");
    h.append(addr);
    h.append("\r\nAuthorization: Bearer ");
    h.append(token);
    h.append("\r\nX-Octoterm-Session: ");
    h.append(session);
    h.append("\r\nContent-Type: application/json\r\nContent-Length: ");
    let n = crate::text::decimal_text(len as u64);
    h.append(n.as_str());
    h.append("\r\nConnection: close\r\n\r\n");
    h
}

/// Whether the hook client talks to the server at all: only inside a session of
/// ours, which is what hands the agent both the session id and the hook key. Outside
/// one, not a single packet is sent.
pub fn should_forward(session: Option<&str>, token: Option<&str>) -> (r: bool)
    ensures
        r == match (session, token) {
            (Some(s), Some(t)) => s@.len() > 0 && t@.len() > 0,
            _ => false,
        },
{
    match (session, token) {
        (Some(s), Some(t)) => s.unicode_len() > 0 && t.unicode_len() > 0,
        _ => false,
    }
}

} // verus!
