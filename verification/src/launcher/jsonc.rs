//! JSONC → JSON: drop `//` and `/* */` comments and trailing commas, without
//! touching anything inside string literals. Malformed input is not an error here;
//! the JSON parser that runs afterwards reports it.
use vstd::prelude::*;
use crate::text::{is_ws, chars_of, string_of, char_is_whitespace};

verus! {

/// Where the comment stripper is in the input.
#[derive(PartialEq, Eq, Clone, Copy)]
pub enum Lex {
    /// Plain JSON text.
    Code,
    /// Inside a string literal.
    Str,
    /// Inside a string literal, right after a backslash.
    StrEsc,
    /// Inside a `//` comment.
    Line,
    /// Inside a `/* */` comment; the flag says whether the previous comment character was `*`.
    Block(bool),
}

/// The output of comment stripping for the rest of the input `s`, starting in state `st`.
///
/// Strings are copied verbatim (a backslash protects the next character). A line
/// comment disappears but keeps its terminating newline. A block comment becomes a
/// single space, keeping the newlines it spanned before that space; an unterminated
/// block comment still yields the space.
pub open spec fn strip_comments_from(s: Seq<char>, st: Lex) -> Seq<char>
    decreases s.len(),
{
    if s.len() == 0 {
        match st {
            Lex::Block(_) => seq![' '],
            _ => Seq::empty(),
        }
    } else {
        let c = s[0];
        let rest = s.drop_first();
        match st {
            Lex::Code => if c == '"' {
                seq![c] + strip_comments_from(rest, Lex::Str)
            } else if c == '/' && rest.len() > 0 && rest[0] == '/' {
                strip_comments_from(rest.drop_first(), Lex::Line)
            } else if c == '/' && rest.len() > 0 && rest[0] == '*' {
                strip_comments_from(rest.drop_first(), Lex::Block(false))
            } else {
                seq![c] + strip_comments_from(rest, Lex::Code)
            },
            Lex::Str => seq![c] + strip_comments_from(
                rest,
                if c == '\\' {
                    Lex::StrEsc
                } else if c == '"' {
                    Lex::Code
                } else {
                    Lex::Str
                },
            ),
            Lex::StrEsc => seq![c] + strip_comments_from(rest, Lex::Str),
            Lex::Line => if c == '\n' {
                seq!['\n'] + strip_comments_from(rest, Lex::Code)
            } else {
                strip_comments_from(rest, Lex::Line)
            },
            Lex::Block(prev_star) => if prev_star && c == '/' {
                seq![' '] + strip_comments_from(rest, Lex::Code)
            } else if c == '\n' {
                seq!['\n'] + strip_comments_from(rest, Lex::Block(false))
            } else {
                strip_comments_from(rest, Lex::Block(c == '*'))
            },
        }
    }
}

pub open spec fn spec_strip_comments(s: Seq<char>) -> Seq<char> {
    strip_comments_from(s, Lex::Code)
}

/// `s` with its leading whitespace removed.
pub open spec fn skip_ws(s: Seq<char>) -> Seq<char>
    decreases s.len(),
{
    if s.len() > 0 && is_ws(s[0]) {
        skip_ws(s.drop_first())
    } else {
        s
    }
}

/// Whether a comma followed by `rest` is a trailing comma: only whitespace stands
/// between it and a closing `}` or `]`.
pub open spec fn closes_after_ws(rest: Seq<char>) -> bool {
    let t = skip_ws(rest);
    t.len() > 0 && (t[0] == '}' || t[0] == ']')
}

/// The output of trailing-comma removal for the rest of the input `s` in state `st`
/// (only `Code`, `Str` and `StrEsc` occur here).
pub open spec fn strip_commas_from(s: Seq<char>, st: Lex) -> Seq<char>
    decreases s.len(),
{
    if s.len() == 0 {
        Seq::empty()
    } else {
        let c = s[0];
        let rest = s.drop_first();
        match st {
            Lex::Str => seq![c] + strip_commas_from(
                rest,
                if c == '\\' {
                    Lex::StrEsc
                } else if c == '"' {
                    Lex::Code
                } else {
                    Lex::Str
                },
            ),
            Lex::StrEsc => seq![c] + strip_commas_from(rest, Lex::Str),
            _ => if c == '"' {
                seq![c] + strip_commas_from(rest, Lex::Str)
            } else if c == ',' && closes_after_ws(rest) {
                strip_commas_from(rest, Lex::Code)
            } else {
                seq![c] + strip_commas_from(rest, Lex::Code)
            },
        }
    }
}

pub open spec fn spec_strip_trailing_commas(s: Seq<char>) -> Seq<char> {
    strip_commas_from(s, Lex::Code)
}

/// JSONC → JSON: comments first, then trailing commas.
pub open spec fn spec_strip(s: Seq<char>) -> Seq<char> {
    spec_strip_trailing_commas(spec_strip_comments(s))
}

proof fn lemma_unfold_comments(s: Seq<char>, i: int, st: Lex)
    requires
        0 <= i < s.len(),
    ensures
        s.subrange(i, s.len() as int)[0] == s[i],
        s.subrange(i, s.len() as int).drop_first() == s.subrange(i + 1, s.len() as int),
{
    assert(s.subrange(i, s.len() as int).drop_first() =~= s.subrange(i + 1, s.len() as int));
}

fn strip_comments_chars(s: &Vec<char>) -> (out: Vec<char>)
    ensures
        out@ == spec_strip_comments(s@),
{
    let mut out: Vec<char> = Vec::new();
    let mut st = Lex::Code;
    let mut i: usize = 0;
    let n = s.len();
    assert(s@.subrange(0, n as int) =~= s@);
    while i < n
        invariant
            n == s.len(),
            i <= n,
            spec_strip_comments(s@) == out@ + strip_comments_from(s@.subrange(i as int, n as int), st),
        decreases n - i,
    {
        let ghost rest0 = s@.subrange(i as int, n as int);
        proof { lemma_unfold_comments(s@, i as int, st); }
        let c = s[i];
        let ghost old_out = out@;
        let ghost st0 = st;
        match st {
            Lex::Code => {
                if c == '"' {
                    out.push(c);
                    st = Lex::Str;
                    i = i + 1;
                } else if c == '/' && i + 1 < n && s[i + 1] == '/' {
                    proof { lemma_unfold_comments(s@, i + 1, st); }
                    st = Lex::Line;
                    i = i + 2;
                } else if c == '/' && i + 1 < n && s[i + 1] == '*' {
                    proof { lemma_unfold_comments(s@, i + 1, st); }
                    st = Lex::Block(false);
                    i = i + 2;
                } else {
                    out.push(c);
                    i = i + 1;
                }
            },
            Lex::Str => {
                out.push(c);
                if c == '\\' {
                    st = Lex::StrEsc;
                } else if c == '"' {
                    st = Lex::Code;
                }
                i = i + 1;
            },
            Lex::StrEsc => {
                out.push(c);
                st = Lex::Str;
                i = i + 1;
            },
            Lex::Line => {
                if c == '\n' {
                    out.push('\n');
                    st = Lex::Code;
                }
                i = i + 1;
            },
            Lex::Block(prev_star) => {
                if prev_star && c == '/' {
                    out.push(' ');
                    st = Lex::Code;
                } else if c == '\n' {
                    out.push('\n');
                    st = Lex::Block(false);
                } else {
                    st = Lex::Block(c == '*');
                }
                i = i + 1;
            },
        }
        assert(old_out + strip_comments_from(rest0, st0) =~= out@ + strip_comments_from(
            s@.subrange(i as int, n as int),
            st,
        ));
    }
    if let Lex::Block(_) = st {
        out.push(' ');
    }
    assert(s@.subrange(n as int, n as int) =~= Seq::<char>::empty());
    out
}


proof fn lemma_skip_ws_prefix(t: Seq<char>, k: int)
    requires
        0 <= k <= t.len(),
        forall|x: int| 0 <= x < k ==> is_ws(#[trigger] t[x]),
    ensures
        skip_ws(t) == skip_ws(t.subrange(k, t.len() as int)),
    decreases k,
{
    if k > 0 {
        lemma_skip_ws_prefix(t.drop_first(), k - 1);
        assert(t.drop_first().subrange(k - 1, t.drop_first().len() as int) =~= t.subrange(
            k,
            t.len() as int,
        ));
    } else {
        assert(t =~= t.subrange(0, t.len() as int));
    }
}

/// Whether the comma at `s[i]` is a trailing one.
fn is_trailing_comma(s: &Vec<char>, i: usize) -> (r: bool)
    requires
        i < s.len(),
    ensures
        r == closes_after_ws(s@.subrange(i + 1, s.len() as int)),
{
    let n = s.len();
    let mut j = i + 1;
    while j < n && char_is_whitespace(s[j])
        invariant
            i < j <= n,
            n == s.len(),
            forall|x: int| i + 1 <= x < j ==> is_ws(#[trigger] s@[x]),
        decreases n - j,
    {
        j = j + 1;
    }
    proof {
        let t = s@.subrange(i + 1, n as int);
        assert forall|x: int| 0 <= x < j - (i + 1) implies is_ws(#[trigger] t[x]) by {
            assert(t[x] == s@[x + i + 1]);
        }
        lemma_skip_ws_prefix(t, j - (i + 1));
        assert(t.subrange(j - (i + 1), t.len() as int) =~= s@.subrange(j as int, n as int));
        let u = s@.subrange(j as int, n as int);
        assert(u.len() == 0 || !is_ws(u[0]));
        assert(skip_ws(u) == u);
    }
    j < n && (s[j] == '}' || s[j] == ']')
}

fn strip_commas_chars(s: &Vec<char>) -> (out: Vec<char>)
    ensures
        out@ == spec_strip_trailing_commas(s@),
{
    let mut out: Vec<char> = Vec::new();
    let mut st = Lex::Code;
    let mut i: usize = 0;
    let n = s.len();
    assert(s@.subrange(0, n as int) =~= s@);
    while i < n
        invariant
            n == s.len(),
            i <= n,
            st == Lex::Code || st == Lex::Str || st == Lex::StrEsc,
            spec_strip_trailing_commas(s@) == out@ + strip_commas_from(
                s@.subrange(i as int, n as int),
                st,
            ),
        decreases n - i,
    {
        let ghost rest0 = s@.subrange(i as int, n as int);
        proof {
            lemma_unfold_comments(s@, i as int, st);
        }
        let c = s[i];
        let ghost old_out = out@;
        let ghost st0 = st;
        match st {
            Lex::Str => {
                out.push(c);
                if c == '\\' {
                    st = Lex::StrEsc;
                } else if c == '"' {
                    st = Lex::Code;
                }
            },
            Lex::StrEsc => {
                out.push(c);
                st = Lex::Str;
            },
            _ => {
                if c == '"' {
                    out.push(c);
                    st = Lex::Str;
                } else if c == ',' && is_trailing_comma(s, i) {
                } else {
                    out.push(c);
                }
            },
        }
        i = i + 1;
        assert(old_out + strip_commas_from(rest0, st0) =~= out@ + strip_commas_from(
            s@.subrange(i as int, n as int),
            st,
        ));
    }
    assert(s@.subrange(n as int, n as int) =~= Seq::<char>::empty());
    out
}

/// Returns JSON equivalent to the JSONC text `src`: comments and trailing commas
/// removed, string literals untouched.
pub fn strip(src: &str) -> (r: String)
    ensures
        r@ == spec_strip(src@),
{
    let v = chars_of(src);
    let no_comments = strip_comments_chars(&v);
    let out = strip_commas_chars(&no_comments);
    string_of(out.as_slice())
}


/// How many times `c` occurs in `s`.
pub open spec fn count_char(s: Seq<char>, c: char) -> nat
    decreases s.len(),
{
    if s.len() == 0 {
        0
    } else {
        (if s[0] == c { 1nat } else { 0nat }) + count_char(s.drop_first(), c)
    }
}

proof fn lemma_count_concat(a: Seq<char>, b: Seq<char>, c: char)
    ensures
        count_char(a + b, c) == count_char(a, c) + count_char(b, c),
    decreases a.len(),
{
    if a.len() > 0 {
        assert((a + b).drop_first() =~= a.drop_first() + b);
        lemma_count_concat(a.drop_first(), b, c);
    } else {
        assert(a + b =~= b);
    }
}

proof fn lemma_comments_keep_newlines(s: Seq<char>, st: Lex)
    ensures
        count_char(strip_comments_from(s, st), '\n') == count_char(s, '\n'),
    decreases s.len(),
{
    if s.len() == 0 {
        reveal_with_fuel(count_char, 2);
    } else {
        let c = s[0];
        let rest = s.drop_first();
        lemma_comments_keep_newlines(rest, Lex::Code);
        lemma_comments_keep_newlines(rest, Lex::Str);
        lemma_comments_keep_newlines(rest, Lex::StrEsc);
        lemma_comments_keep_newlines(rest, Lex::Line);
        lemma_comments_keep_newlines(rest, Lex::Block(false));
        lemma_comments_keep_newlines(rest, Lex::Block(true));
        if rest.len() > 0 {
            lemma_comments_keep_newlines(rest.drop_first(), Lex::Line);
            lemma_comments_keep_newlines(rest.drop_first(), Lex::Block(false));
        }
        reveal_with_fuel(count_char, 2);
        let out = strip_comments_from(s, st);
        match st {
            Lex::Code => {
                if c == '"' {
                    lemma_count_concat(seq![c], strip_comments_from(rest, Lex::Str), '\n');
                } else if c == '/' && rest.len() > 0 && (rest[0] == '/' || rest[0] == '*') {
                } else {
                    lemma_count_concat(seq![c], strip_comments_from(rest, Lex::Code), '\n');
                }
            },
            Lex::Str => {
                let nst = if c == '\\' {
                    Lex::StrEsc
                } else if c == '"' {
                    Lex::Code
                } else {
                    Lex::Str
                };
                lemma_count_concat(seq![c], strip_comments_from(rest, nst), '\n');
            },
            Lex::StrEsc => {
                lemma_count_concat(seq![c], strip_comments_from(rest, Lex::Str), '\n');
            },
            Lex::Line => {
                if c == '\n' {
                    lemma_count_concat(seq!['\n'], strip_comments_from(rest, Lex::Code), '\n');
                }
            },
            Lex::Block(prev_star) => {
                if prev_star && c == '/' {
                    lemma_count_concat(seq![' '], strip_comments_from(rest, Lex::Code), '\n');
                } else if c == '\n' {
                    lemma_count_concat(
                        seq!['\n'],
                        strip_comments_from(rest, Lex::Block(false)),
                        '\n',
                    );
                }
            },
        }
    }
}

proof fn lemma_commas_keep_newlines(s: Seq<char>, st: Lex)
    ensures
        count_char(strip_commas_from(s, st), '\n') == count_char(s, '\n'),
    decreases s.len(),
{
    if s.len() > 0 {
        let c = s[0];
        let rest = s.drop_first();
        lemma_commas_keep_newlines(rest, Lex::Code);
        lemma_commas_keep_newlines(rest, Lex::Str);
        lemma_commas_keep_newlines(rest, Lex::StrEsc);
        reveal_with_fuel(count_char, 2);
        let nst = match st {
            Lex::Str => if c == '\\' {
                Lex::StrEsc
            } else if c == '"' {
                Lex::Code
            } else {
                Lex::Str
            },
            Lex::StrEsc => Lex::Str,
            _ => if c == '"' {
                Lex::Str
            } else {
                Lex::Code
            },
        };
        lemma_count_concat(seq![c], strip_commas_from(rest, nst), '\n');
    }
}

/// Stripping keeps every line break: the JSON parser that reads the result reports
/// errors on the same line numbers as in the original JSONC text.
pub proof fn strip_keeps_line_numbers(s: Seq<char>)
    ensures
        count_char(spec_strip(s), '\n') == count_char(s, '\n'),
{
    lemma_comments_keep_newlines(s, Lex::Code);
    lemma_commas_keep_newlines(spec_strip_comments(s), Lex::Code);
}

} // verus!
