//! Turning a one-line command string from someone else's config into an argv.
//!
//! Two incompatible rule sets, both pure: POSIX shell word splitting (what iTerm2's
//! `Command` means) and `CommandLineToArgvW` (what Windows Terminal's `commandline`
//! means). Neither depends on the platform the code runs on.
use vstd::prelude::*;
use crate::text::{is_ws, chars_of, string_of, char_is_whitespace};

verus! {

/// Where the POSIX splitter is.
#[derive(PartialEq, Eq, Clone, Copy)]
pub enum Px {
    /// Outside quotes.
    Out,
    /// Inside `'...'`.
    Single,
    /// Inside `"..."`.
    Double,
}

/// Inside double quotes a backslash escapes only these four characters.
pub open spec fn dq_escapable(c: char) -> bool {
    c == '"' || c == '\\' || c == '$' || c == '`'
}

/// POSIX word splitting of the rest of the input `s`, in state `st`, with the word
/// under construction `cur` (`have` says whether a word has started, so that `""`
/// still yields an empty word).
pub open spec fn posix_from(s: Seq<char>, st: Px, cur: Seq<char>, have: bool) -> Seq<Seq<char>>
    decreases s.len(),
{
    if s.len() == 0 {
        if have {
            seq![cur]
        } else {
            Seq::empty()
        }
    } else {
        let c = s[0];
        let rest = s.drop_first();
        match st {
            Px::Out => if is_ws(c) {
                if have {
                    seq![cur] + posix_from(rest, Px::Out, Seq::empty(), false)
                } else {
                    posix_from(rest, Px::Out, Seq::empty(), false)
                }
            } else if c == '\'' {
                posix_from(rest, Px::Single, cur, true)
            } else if c == '"' {
                posix_from(rest, Px::Double, cur, true)
            } else if c == '\\' {
                if rest.len() > 0 {
                    posix_from(rest.drop_first(), Px::Out, cur.push(rest[0]), true)
                } else {
                    posix_from(rest, Px::Out, cur, true)
                }
            } else {
                posix_from(rest, Px::Out, cur.push(c), true)
            },
            Px::Single => if c == '\'' {
                posix_from(rest, Px::Out, cur, have)
            } else {
                posix_from(rest, Px::Single, cur.push(c), have)
            },
            Px::Double => if c == '"' {
                posix_from(rest, Px::Out, cur, have)
            } else if c == '\\' && rest.len() > 0 && dq_escapable(rest[0]) {
                posix_from(rest.drop_first(), Px::Double, cur.push(rest[0]), have)
            } else {
                posix_from(rest, Px::Double, cur.push(c), have)
            },
        }
    }
}

/// The words of `s` under POSIX shell quoting (single quotes, double quotes,
/// backslash). No expansion of any kind.
pub open spec fn spec_split_posix(s: Seq<char>) -> Seq<Seq<char>> {
    posix_from(s, Px::Out, Seq::empty(), false)
}

pub proof fn lemma_step(s: Seq<char>, i: int)
    requires
        0 <= i < s.len(),
    ensures
        s.subrange(i, s.len() as int)[0] == s[i],
        s.subrange(i, s.len() as int).drop_first() == s.subrange(i + 1, s.len() as int),
{
    assert(s.subrange(i, s.len() as int).drop_first() =~= s.subrange(i + 1, s.len() as int));
}

/// POSIX shell word splitting: single quotes, double quotes (where a backslash
/// escapes only `"`, `\`, `$` and `` ` ``) and backslash escapes; no variable or glob
/// expansion, no control operators.
pub fn split_posix(s: &str) -> (out: Vec<String>)
    ensures
        out.deep_view() == spec_split_posix(s@),
{
    let v = chars_of(s);
    let n = v.len();
    let mut out: Vec<String> = Vec::new();
    let mut cur: Vec<char> = Vec::new();
    let mut have = false;
    let mut st = Px::Out;
    let mut i: usize = 0;
    assert(v@.subrange(0, n as int) =~= v@);
    assert(out.deep_view() =~= Seq::<Seq<char>>::empty());
    while i < n
        invariant
            n == v.len(),
            i <= n,
            v@ == s@,
            !have ==> cur@ == Seq::<char>::empty(),
            st != Px::Out ==> have,
            spec_split_posix(s@) == out.deep_view() + posix_from(
                v@.subrange(i as int, n as int),
                st,
                cur@,
                have,
            ),
        decreases n - i,
    {
        let ghost rest0 = v@.subrange(i as int, n as int);
        let ghost out0 = out.deep_view();
        let ghost cur0 = cur@;
        let ghost have0 = have;
        let ghost st0 = st;
        proof {
            lemma_step(v@, i as int);
        }
        let c = v[i];
        match st {
            Px::Out => {
                if char_is_whitespace(c) {
                    if have {
                        let w = string_of(cur.as_slice());
                        out.push(w);
                        assert(out.deep_view() =~= out0 + seq![cur0]);
                        cur = Vec::new();
                        have = false;
                    }
                    i = i + 1;
                } else if c == '\'' {
                    have = true;
                    st = Px::Single;
                    i = i + 1;
                } else if c == '"' {
                    have = true;
                    st = Px::Double;
                    i = i + 1;
                } else if c == '\\' {
                    have = true;
                    if i + 1 < n {
                        proof {
                            lemma_step(v@, i + 1);
                        }
                        cur.push(v[i + 1]);
                        i = i + 2;
                    } else {
                        i = i + 1;
                    }
                } else {
                    have = true;
                    cur.push(c);
                    i = i + 1;
                }
            },
            Px::Single => {
                if c == '\'' {
                    st = Px::Out;
                } else {
                    cur.push(c);
                }
                i = i + 1;
            },
            Px::Double => {
                if c == '"' {
                    st = Px::Out;
                    i = i + 1;
                } else if c == '\\' && i + 1 < n && (v[i + 1] == '"' || v[i + 1] == '\\' || v[i
                    + 1] == '$' || v[i + 1] == '`') {
                    proof {
                        lemma_step(v@, i + 1);
                    }
                    cur.push(v[i + 1]);
                    i = i + 2;
                } else {
                    cur.push(c);
                    i = i + 1;
                }
            },
        }
        assert(out0 + posix_from(rest0, st0, cur0, have0) =~= out.deep_view() + posix_from(
            v@.subrange(i as int, n as int),
            st,
            cur@,
            have,
        ));
    }
    if have {
        let ghost out1 = out.deep_view();
        let w = string_of(cur.as_slice());
        out.push(w);
        assert(out.deep_view() =~= out1 + seq![cur@]);
    }
    assert(v@.subrange(n as int, n as int) =~= Seq::<char>::empty());
    assert(spec_split_posix(s@) =~= out.deep_view());
    out
}


/// `s` without its leading whitespace.
pub open spec fn lead_ws_dropped(s: Seq<char>) -> Seq<char>
    decreases s.len(),
{
    if s.len() > 0 && is_ws(s[0]) {
        lead_ws_dropped(s.drop_first())
    } else {
        s
    }
}

/// Index of the first whitespace character of `s`, or its length.
pub open spec fn first_ws(s: Seq<char>) -> nat
    decreases s.len(),
{
    if s.len() == 0 || is_ws(s[0]) {
        0
    } else {
        1 + first_ws(s.drop_first())
    }
}

/// Index of the first `"` of `s`, or its length.
pub open spec fn first_quote(s: Seq<char>) -> nat
    decreases s.len(),
{
    if s.len() == 0 || s[0] == '"' {
        0
    } else {
        1 + first_quote(s.drop_first())
    }
}

/// Number of backslashes at the start of `s`.
pub open spec fn bs_run(s: Seq<char>) -> nat
    decreases s.len(),
{
    if s.len() > 0 && s[0] == '\\' {
        1 + bs_run(s.drop_first())
    } else {
        0
    }
}

pub proof fn lemma_bs_run_le(s: Seq<char>)
    ensures
        bs_run(s) <= s.len(),
        s.len() > 0 && s[0] == '\\' ==> bs_run(s) >= 1,
    decreases s.len(),
{
    if s.len() > 0 && s[0] == '\\' {
        lemma_bs_run_le(s.drop_first());
    }
}

/// `k` copies of `c`.
pub open spec fn rep(c: char, k: nat) -> Seq<char> {
    Seq::new(k, |_i: int| c)
}

/// `CommandLineToArgvW` rules for every argument after the first: backslashes are
/// literal unless they precede a quote, where `2n` of them give `n` backslashes and
/// toggle quoting and `2n+1` give `n` backslashes and a literal quote.
pub open spec fn win_from(s: Seq<char>, cur: Seq<char>, in_q: bool, have: bool) -> Seq<Seq<char>>
    decreases s.len(),
{
    if s.len() == 0 {
        if have {
            seq![cur]
        } else {
            Seq::empty()
        }
    } else {
        let c = s[0];
        let rest = s.drop_first();
        if !in_q && is_ws(c) {
            if have {
                seq![cur] + win_from(rest, Seq::empty(), in_q, false)
            } else {
                win_from(rest, cur, in_q, false)
            }
        } else if c == '\\' {
            let k = bs_run(s);
            proof {
                lemma_bs_run_le(s);
            }
            let after = s.subrange(k as int, s.len() as int);
            if after.len() > 0 && after[0] == '"' {
                win_from(
                    after.drop_first(),
                    cur + rep('\\', k / 2) + (if k % 2 == 1 {
                        seq!['"']
                    } else {
                        Seq::empty()
                    }),
                    if k % 2 == 1 {
                        in_q
                    } else {
                        !in_q
                    },
                    true,
                )
            } else {
                win_from(after, cur + rep('\\', k), in_q, true)
            }
        } else if c == '"' {
            win_from(rest, cur, !in_q, true)
        } else {
            win_from(rest, cur.push(c), in_q, true)
        }
    }
}

/// The first argument (program name) and what follows it. `argv[0]` only knows
/// quotes: backslashes in it are always literal.
pub open spec fn arg0_split(s: Seq<char>) -> (Seq<char>, Seq<char>) {
    let t = lead_ws_dropped(s);
    if t.len() == 0 {
        (Seq::empty(), Seq::empty())
    } else if t[0] == '"' {
        let u = t.drop_first();
        let q = first_quote(u);
        (
            u.subrange(0, q as int),
            if q < u.len() {
                u.subrange(q as int + 1, u.len() as int)
            } else {
                Seq::empty()
            },
        )
    } else {
        let w = first_ws(t);
        (t.subrange(0, w as int), t.subrange(w as int, t.len() as int))
    }
}

/// The argv that `CommandLineToArgvW` makes of `s`.
pub open spec fn spec_split_windows(s: Seq<char>) -> Seq<Seq<char>> {
    let (a0, rest) = arg0_split(s);
    (if a0.len() > 0 {
        seq![a0]
    } else {
        Seq::empty()
    }) + win_from(rest, Seq::empty(), false, false)
}

pub proof fn lemma_lead_ws(s: Seq<char>, i: int)
    requires
        0 <= i <= s.len(),
        forall|k: int| 0 <= k < i ==> is_ws(#[trigger] s[k]),
        i == s.len() || !is_ws(s[i]),
    ensures
        lead_ws_dropped(s) == s.subrange(i, s.len() as int),
    decreases i,
{
    if i > 0 {
        lemma_lead_ws(s.drop_first(), i - 1);
        assert(s.drop_first().subrange(i - 1, s.drop_first().len() as int) =~= s.subrange(
            i,
            s.len() as int,
        ));
    } else {
        assert(s =~= s.subrange(0, s.len() as int));
    }
}

pub proof fn lemma_first_ws(s: Seq<char>, i: int)
    requires
        0 <= i <= s.len(),
        forall|k: int| 0 <= k < i ==> !is_ws(#[trigger] s[k]),
        i == s.len() || is_ws(s[i]),
    ensures
        first_ws(s) == i,
    decreases i,
{
    if i > 0 {
        lemma_first_ws(s.drop_first(), i - 1);
    }
}

proof fn lemma_first_quote(s: Seq<char>, i: int)
    requires
        0 <= i <= s.len(),
        forall|k: int| 0 <= k < i ==> #[trigger] s[k] != '"',
        i == s.len() || s[i] == '"',
    ensures
        first_quote(s) == i,
    decreases i,
{
    if i > 0 {
        lemma_first_quote(s.drop_first(), i - 1);
    }
}

proof fn lemma_bs_run(s: Seq<char>, i: int)
    requires
        0 <= i <= s.len(),
        forall|k: int| 0 <= k < i ==> #[trigger] s[k] == '\\',
        i == s.len() || s[i] != '\\',
    ensures
        bs_run(s) == i,
    decreases i,
{
    if i > 0 {
        lemma_bs_run(s.drop_first(), i - 1);
    }
}

/// Pushes `k` copies of `c` onto `cur`.
fn push_rep(cur: &mut Vec<char>, c: char, k: usize)
    ensures
        final(cur)@ == old(cur)@ + rep(c, k as nat),
{
    let mut j: usize = 0;
    while j < k
        invariant
            j <= k,
            cur@ == old(cur)@ + rep(c, j as nat),
        decreases k - j,
    {
        cur.push(c);
        j = j + 1;
        assert(cur@ =~= old(cur)@ + rep(c, j as nat));
    }
}

/// The argv that `CommandLineToArgvW` makes of a command line.
///
/// `argv[0]` follows its own rule: only quotes matter, backslashes are literal, so
/// `"C:\Program Files\pwsh.exe" -NoLogo` keeps its path intact. In the other
/// arguments a backslash is special only in front of a quote.
pub fn split_windows(s: &str) -> (out: Vec<String>)
    ensures
        out.deep_view() == spec_split_windows(s@),
{
    let v = chars_of(s);
    let n = v.len();
    let mut out: Vec<String> = Vec::new();
    let mut i: usize = 0;
    while i < n && char_is_whitespace(v[i])
        invariant
            i <= n,
            n == v.len(),
            forall|k: int| 0 <= k < i ==> is_ws(#[trigger] v@[k]),
        decreases n - i,
    {
        i = i + 1;
    }
    proof {
        lemma_lead_ws(v@, i as int);
    }
    let ghost t = v@.subrange(i as int, n as int);
    // `j` is where the remaining arguments begin.
    let mut j: usize = n;
    if i < n {
        let mut arg0: Vec<char> = Vec::new();
        if v[i] == '"' {
            let mut k = i + 1;
            while k < n && v[k] != '"'
                invariant
                    i < k <= n,
                    n == v.len(),
                    forall|x: int| i + 1 <= x < k ==> #[trigger] v@[x] != '"',
                    arg0@ == v@.subrange(i + 1, k as int),
                decreases n - k,
            {
                arg0.push(v[k]);
                k = k + 1;
                assert(arg0@ =~= v@.subrange(i + 1, k as int));
            }
            proof {
                let u = t.drop_first();
                assert(u =~= v@.subrange(i + 1, n as int));
                assert forall|x: int| 0 <= x < k - (i + 1) implies #[trigger] u[x] != '"' by {
                    assert(u[x] == v@[x + i + 1]);
                }
                lemma_first_quote(u, k - (i + 1));
                assert(u.subrange(0, k - (i + 1)) =~= arg0@);
                if k < n {
                    assert(u.subrange(k - (i + 1) + 1, u.len() as int) =~= v@.subrange(
                        k + 1,
                        n as int,
                    ));
                }
            }
            j = if k < n {
                k + 1
            } else {
                n
            };
        } else {
            let mut k = i;
            while k < n && !char_is_whitespace(v[k])
                invariant
                    i <= k <= n,
                    n == v.len(),
                    forall|x: int| i <= x < k ==> !is_ws(#[trigger] v@[x]),
                    arg0@ == v@.subrange(i as int, k as int),
                decreases n - k,
            {
                arg0.push(v[k]);
                k = k + 1;
                assert(arg0@ =~= v@.subrange(i as int, k as int));
            }
            proof {
                assert forall|x: int| 0 <= x < k - i implies !is_ws(#[trigger] t[x]) by {
                    assert(t[x] == v@[x + i]);
                }
                lemma_first_ws(t, k - i);
                assert(t.subrange(0, k - i) =~= arg0@);
                assert(t.subrange(k - i, t.len() as int) =~= v@.subrange(k as int, n as int));
            }
            j = k;
        }
        if arg0.len() > 0 {
            out.push(string_of(arg0.as_slice()));
        }
        assert(out.deep_view() =~= (if arg0@.len() > 0 {
            seq![arg0@]
        } else {
            Seq::empty()
        }));
    } else {
        assert(out.deep_view() =~= Seq::<Seq<char>>::empty());
        assert(v@.subrange(n as int, n as int) =~= Seq::<char>::empty());
    }
    assert(arg0_split(s@).1 =~= v@.subrange(j as int, n as int));
    let mut cur: Vec<char> = Vec::new();
    let mut in_q = false;
    let mut have = false;
    let mut i = j;
    while i < n
        invariant
            n == v.len(),
            j <= i <= n,
            v@ == s@,
            !have ==> cur@ == Seq::<char>::empty(),
            spec_split_windows(s@) == out.deep_view() + win_from(
                v@.subrange(i as int, n as int),
                cur@,
                in_q,
                have,
            ),
        decreases n - i,
    {
        let ghost rest0 = v@.subrange(i as int, n as int);
        let ghost out0 = out.deep_view();
        let ghost cur0 = cur@;
        let ghost have0 = have;
        let ghost q0 = in_q;
        proof {
            lemma_step(v@, i as int);
        }
        let c = v[i];
        if !in_q && char_is_whitespace(c) {
            if have {
                out.push(string_of(cur.as_slice()));
                assert(out.deep_view() =~= out0 + seq![cur0]);
                cur = Vec::new();
                have = false;
            }
            i = i + 1;
        } else if c == '\\' {
            let mut k = i;
            while k < n && v[k] == '\\'
                invariant
                    i <= k <= n,
                    n == v.len(),
                    forall|x: int| i <= x < k ==> #[trigger] v@[x] == '\\',
                decreases n - k,
            {
                k = k + 1;
            }
            let cnt = k - i;
            proof {
                assert forall|x: int| 0 <= x < cnt implies #[trigger] rest0[x] == '\\' by {
                    assert(rest0[x] == v@[x + i]);
                }
                lemma_bs_run(rest0, cnt as int);
                assert(rest0.subrange(cnt as int, rest0.len() as int) =~= v@.subrange(
                    k as int,
                    n as int,
                ));
            }
            if k < n && v[k] == '"' {
                proof {
                    lemma_step(v@, k as int);
                }
                push_rep(&mut cur, '\\', cnt / 2);
                if cnt % 2 == 1 {
                    cur.push('"');
                } else {
                    in_q = !in_q;
                }
                assert(cur@ =~= cur0 + rep('\\', (cnt / 2) as nat) + (if cnt % 2 == 1 {
                    seq!['"']
                } else {
                    Seq::empty()
                }));
                i = k + 1;
            } else {
                push_rep(&mut cur, '\\', cnt);
                i = k;
            }
            have = true;
        } else if c == '"' {
            in_q = !in_q;
            have = true;
            i = i + 1;
        } else {
            cur.push(c);
            have = true;
            i = i + 1;
        }
        assert(out0 + win_from(rest0, cur0, q0, have0) =~= out.deep_view() + win_from(
            v@.subrange(i as int, n as int),
            cur@,
            in_q,
            have,
        ));
    }
    if have {
        let ghost out1 = out.deep_view();
        out.push(string_of(cur.as_slice()));
        assert(out.deep_view() =~= out1 + seq![cur@]);
    }
    assert(v@.subrange(n as int, n as int) =~= Seq::<char>::empty());
    assert(spec_split_windows(s@) =~= out.deep_view());
    out
}


/// Index of the first `c` in `s`, or its length.
pub open spec fn first_of(s: Seq<char>, c: char) -> nat
    decreases s.len(),
{
    if s.len() == 0 || s[0] == c {
        0
    } else {
        1 + first_of(s.drop_first(), c)
    }
}

pub proof fn lemma_first_of_le(s: Seq<char>, c: char)
    ensures
        first_of(s, c) <= s.len(),
    decreases s.len(),
{
    if s.len() > 0 && s[0] != c {
        lemma_first_of_le(s.drop_first(), c);
    }
}

pub proof fn lemma_first_of(s: Seq<char>, c: char, i: int)
    requires
        0 <= i <= s.len(),
        forall|k: int| 0 <= k < i ==> #[trigger] s[k] != c,
        i == s.len() || s[i] == c,
    ensures
        first_of(s, c) == i,
    decreases i,
{
    if i > 0 {
        lemma_first_of(s.drop_first(), c, i - 1);
    }
}

/// The names that `%VAR%` expansion of `s` looks up, in order.
pub open spec fn env_names(s: Seq<char>) -> Seq<Seq<char>>
    decreases s.len(),
{
    let st = first_of(s, '%');
    if st >= s.len() {
        Seq::empty()
    } else {
        let after = s.subrange(st as int + 1, s.len() as int);
        let e = first_of(after, '%');
        if 0 < e < after.len() {
            seq![after.subrange(0, e as int)] + env_names(after.subrange(e as int + 1, after.len() as int))
        } else {
            env_names(after)
        }
    }
}

/// `%VAR%` expansion of `s`, where `vals` are the lookup results for the names of
/// [`env_names`], in order. A name that is not found stays as written (`%NAME%`);
/// a lone `%` or `%%` is kept as is.
pub open spec fn expand_from(s: Seq<char>, vals: Seq<Option<Seq<char>>>) -> Seq<char>
    decreases s.len(),
{
    let st = first_of(s, '%');
    if st >= s.len() {
        s
    } else {
        let prefix = s.subrange(0, st as int);
        let after = s.subrange(st as int + 1, s.len() as int);
        let e = first_of(after, '%');
        if 0 < e < after.len() {
            let name = after.subrange(0, e as int);
            let piece = if vals.len() > 0 && vals[0] is Some {
                vals[0]->Some_0
            } else {
                seq!['%'] + name + seq!['%']
            };
            prefix + piece + expand_from(
                after.subrange(e as int + 1, after.len() as int),
                if vals.len() > 0 {
                    vals.drop_first()
                } else {
                    vals
                },
            )
        } else {
            prefix + seq!['%'] + expand_from(after, vals)
        }
    }
}

/// The first `%` at or after `i`, or `v.len()`.
fn find_pct(v: &Vec<char>, i: usize) -> (j: usize)
    requires
        i <= v.len(),
    ensures
        i <= j <= v.len(),
        first_of(v@.subrange(i as int, v.len() as int), '%') == j - i,
{
    let mut j = i;
    while j < v.len() && v[j] != '%'
        invariant
            i <= j <= v.len(),
            forall|k: int| i <= k < j ==> #[trigger] v@[k] != '%',
        decreases v.len() - j,
    {
        j = j + 1;
    }
    proof {
        let t = v@.subrange(i as int, v.len() as int);
        assert forall|k: int| 0 <= k < j - i implies #[trigger] t[k] != '%' by {
            assert(t[k] == v@[k + i]);
        }
        lemma_first_of(t, '%', j - i);
    }
    j
}

proof fn lemma_pct_split(v: Seq<char>, i: int, j: int, e: int)
    requires
        0 <= i <= j < v.len(),
        j + 1 <= e <= v.len(),
        first_of(v.subrange(i, v.len() as int), '%') == j - i,
        first_of(v.subrange(j + 1, v.len() as int), '%') == e - (j + 1),
    ensures
        ({
            let s = v.subrange(i, v.len() as int);
            let after = s.subrange((j - i) + 1, s.len() as int);
            &&& s.subrange(0, j - i) == v.subrange(i, j)
            &&& after == v.subrange(j + 1, v.len() as int)
            &&& first_of(after, '%') == e - (j + 1)
            &&& after.subrange(0, e - (j + 1)) == v.subrange(j + 1, e)
            &&& (e < v.len() ==> after.subrange(e - (j + 1) + 1, after.len() as int) == v.subrange(
                e + 1,
                v.len() as int,
            ))
        }),
{
    let s = v.subrange(i, v.len() as int);
    let after = s.subrange((j - i) + 1, s.len() as int);
    assert(s.subrange(0, j - i) =~= v.subrange(i, j));
    assert(after =~= v.subrange(j + 1, v.len() as int));
    assert(after.subrange(0, e - (j + 1)) =~= v.subrange(j + 1, e));
    if e < v.len() {
        assert(after.subrange(e - (j + 1) + 1, after.len() as int) =~= v.subrange(
            e + 1,
            v.len() as int,
        ));
    }
}

/// Appends `v[a..b]` to `out`.
fn push_range(out: &mut Vec<char>, v: &Vec<char>, a: usize, b: usize)
    requires
        a <= b <= v.len(),
    ensures
        final(out)@ == old(out)@ + v@.subrange(a as int, b as int),
{
    let mut k = a;
    while k < b
        invariant
            a <= k <= b <= v.len(),
            out@ == old(out)@ + v@.subrange(a as int, k as int),
        decreases b - k,
    {
        out.push(v[k]);
        k = k + 1;
        assert(out@ =~= old(out)@ + v@.subrange(a as int, k as int));
    }
}

/// The names that `%VAR%` expansion of `s` looks up, in order.
pub fn env_var_names(s: &str) -> (names: Vec<String>)
    ensures
        names.deep_view() == env_names(s@),
{
    let v = chars_of(s);
    let n = v.len();
    let mut names: Vec<String> = Vec::new();
    let mut i: usize = 0;
    assert(v@.subrange(0, n as int) =~= v@);
    assert(names.deep_view() =~= Seq::<Seq<char>>::empty());
    while i < n
        invariant
            n == v.len(),
            i <= n,
            v@ == s@,
            env_names(s@) == names.deep_view() + env_names(v@.subrange(i as int, n as int)),
        decreases n - i,
    {
        let ghost s0 = v@.subrange(i as int, n as int);
        let ghost names0 = names.deep_view();
        let j = find_pct(&v, i);
        if j == n {
            assert(env_names(s0) == Seq::<Seq<char>>::empty());
            assert(v@.subrange(n as int, n as int) =~= Seq::<char>::empty());
            assert(env_names(v@.subrange(n as int, n as int)) =~= Seq::<Seq<char>>::empty());
            i = n;
        } else {
            let e = find_pct(&v, j + 1);
            proof {
                lemma_pct_split(v@, i as int, j as int, e as int);
            }
            if e < n && e > j + 1 {
                let name = slice_chars(&v, j + 1, e);
                names.push(string_of(name.as_slice()));
                assert(names.deep_view() =~= names0 + seq![v@.subrange(j + 1, e as int)]);
                i = e + 1;
            } else {
                i = j + 1;
            }
        }
    }
    assert(v@.subrange(n as int, n as int) =~= Seq::<char>::empty());
    assert(names.deep_view() =~= env_names(s@));
    names
}

fn slice_chars(v: &Vec<char>, a: usize, b: usize) -> (r: Vec<char>)
    requires
        a <= b <= v.len(),
    ensures
        r@ == v@.subrange(a as int, b as int),
{
    let mut r: Vec<char> = Vec::new();
    push_range(&mut r, v, a, b);
    assert(r@ =~= v@.subrange(a as int, b as int));
    r
}

/// `%VAR%` expansion of `s` given the lookup results `vals` for its names (as
/// listed by [`env_var_names`]), in order.
#[verifier::rlimit(40)]
pub fn expand_windows_env_with(s: &str, vals: &Vec<Option<String>>) -> (r: String)
    ensures
        r@ == expand_from(s@, vals.deep_view()),
{
    let v = chars_of(s);
    let n = v.len();
    let mut out: Vec<char> = Vec::new();
    let mut i: usize = 0;
    let mut idx: usize = 0;
    assert(v@.subrange(0, n as int) =~= v@);
    assert(vals.deep_view().subrange(0, vals.len() as int) =~= vals.deep_view());
    while i < n
        invariant
            n == v.len(),
            i <= n,
            idx <= vals.len(),
            v@ == s@,
            expand_from(s@, vals.deep_view()) == out@ + expand_from(
                v@.subrange(i as int, n as int),
                vals.deep_view().subrange(idx as int, vals.len() as int),
            ),
        decreases n - i,
    {
        let ghost s0 = v@.subrange(i as int, n as int);
        let ghost vs0 = vals.deep_view().subrange(idx as int, vals.len() as int);
        let ghost out0 = out@;
        let j = find_pct(&v, i);
        if j == n {
            push_range(&mut out, &v, i, n);
            assert(v@.subrange(n as int, n as int) =~= Seq::<char>::empty());
            assert(expand_from(v@.subrange(n as int, n as int), vs0) =~= Seq::<char>::empty());
            assert(out@ + expand_from(v@.subrange(n as int, n as int), vs0) =~= out0 + s0);
            i = n;
        } else {
            let e = find_pct(&v, j + 1);
            proof {
                lemma_pct_split(v@, i as int, j as int, e as int);
            }
            push_range(&mut out, &v, i, j);
            if e < n && e > j + 1 {
                let found = idx < vals.len() && vals[idx].is_some();
                if found {
                    let val = vals[idx].as_ref().unwrap();
                    let vc = chars_of(val.as_str());
                    let vn = vc.len();
                    push_range(&mut out, &vc, 0, vn);
                    assert(vc@.subrange(0, vn as int) =~= vc@);
                } else {
                    out.push('%');
                    push_range(&mut out, &v, j + 1, e);
                    out.push('%');
                }
                let ghost piece = if vs0.len() > 0 && vs0[0] is Some {
                    vs0[0]->Some_0
                } else {
                    seq!['%'] + v@.subrange(j + 1, e as int) + seq!['%']
                };
                assert(out@ =~= out0 + v@.subrange(i as int, j as int) + piece);
                if idx < vals.len() {
                    assert(vs0.drop_first() =~= vals.deep_view().subrange(
                        idx + 1,
                        vals.len() as int,
                    ));
                    idx = idx + 1;
                }
                i = e + 1;
            } else {
                out.push('%');
                i = j + 1;
            }
        }
    }
    assert(v@.subrange(n as int, n as int) =~= Seq::<char>::empty());
    assert(out@ =~= expand_from(s@, vals.deep_view()));
    string_of(out.as_slice())
}

/// What a lookup closure answered for the name `q`.
pub open spec fn env_answered<F: Fn(&str) -> Option<String>>(
    f: F,
    q: Seq<char>,
    r: Option<Seq<char>>,
) -> bool {
    exists|k: &str, o: Option<String>| k@ == q && call_ensures(f, (k,), o) && o.deep_view() == r
}

/// Expands `%VAR%` through `lookup`. A variable that is not found stays as
/// written, so `%SystemRoot%\System32` never turns into a plausible-looking
/// wrong path; a lone `%` or `%%` is kept.
pub fn expand_windows_env<F: Fn(&str) -> Option<String>>(s: &str, lookup: &F) -> (r: String)
    requires
        forall|k: &str| call_requires(*lookup, (k,)),
    ensures
        exists|vals: Seq<Option<Seq<char>>>|
            {
                &&& vals.len() == env_names(s@).len()
                &&& forall|i: int|
                    0 <= i < vals.len() ==> env_answered(*lookup, env_names(s@)[i], vals[i])
                &&& r@ == expand_from(s@, vals)
            },
        forall|envf: spec_fn(Seq<char>) -> Option<Seq<char>>|
            env_agrees(*lookup, envf) ==> r@ == #[trigger] expand_by(s@, envf),
{
    let names = env_var_names(s);
    let mut vals: Vec<Option<String>> = Vec::new();
    let mut i: usize = 0;
    while i < names.len()
        invariant
            i <= names.len(),
            vals.len() == i,
            names.deep_view() == env_names(s@),
            forall|k: &str| call_requires(*lookup, (k,)),
            forall|x: int|
                0 <= x < i ==> env_answered(*lookup, names.deep_view()[x], vals.deep_view()[x]),
        decreases names.len() - i,
    {
        let k = names[i].as_str();
        let o = lookup(k);
        proof {
            assert(call_ensures(*lookup, (k,), o));
            assert(env_answered(*lookup, names.deep_view()[i as int], o.deep_view()));
        }
        let ghost old_vals = vals.deep_view();
        vals.push(o);
        assert(vals.deep_view() =~= old_vals.push(o.deep_view()));
        i = i + 1;
    }
    let r = expand_windows_env_with(s, &vals);
    proof {
        assert forall|envf: spec_fn(Seq<char>) -> Option<Seq<char>>|
            env_agrees(*lookup, envf) implies r@ == #[trigger] expand_by(s@, envf) by {
            lemma_expand_by(*lookup, envf, s@, vals.deep_view());
        }
    }
    r
}

/// `f` answers every name as the function `envf` does: a lookup without side
/// effects.
pub open spec fn env_agrees<F: Fn(&str) -> Option<String>>(
    f: F,
    envf: spec_fn(Seq<char>) -> Option<Seq<char>>,
) -> bool {
    forall|k: &str, o: Option<String>| #[trigger] call_ensures(f, (k,), o) ==> o.deep_view() == envf(k@)
}

/// `%VAR%` expansion of `s` when each name is answered by `envf`.
pub open spec fn expand_by(s: Seq<char>, envf: spec_fn(Seq<char>) -> Option<Seq<char>>) -> Seq<char> {
    expand_from(s, env_names(s).map_values(envf))
}

/// Answers that agree with `envf` are `envf`'s answers.
pub proof fn lemma_expand_by<F: Fn(&str) -> Option<String>>(
    f: F,
    envf: spec_fn(Seq<char>) -> Option<Seq<char>>,
    s: Seq<char>,
    vals: Seq<Option<Seq<char>>>,
)
    requires
        env_agrees(f, envf),
        vals.len() == env_names(s).len(),
        forall|i: int| 0 <= i < vals.len() ==> env_answered(f, env_names(s)[i], vals[i]),
    ensures
        expand_from(s, vals) == expand_by(s, envf),
{
    let names = env_names(s);
    assert forall|i: int| 0 <= i < vals.len() implies vals[i] == names.map_values(envf)[i] by {
        assert(env_answered(f, names[i], vals[i]));
        let (k, o) = choose|k: &str, o: Option<String>|
            k@ == names[i] && call_ensures(f, (k,), o) && o.deep_view() == vals[i];
        assert(call_ensures(f, (k,), o));
    }
    assert(vals =~= names.map_values(envf));
}


/// Unix `PathBuf::push` of the relative-or-absolute `rest` onto `base`: an absolute
/// `rest` replaces `base`; otherwise a `/` separates them unless `base` is empty or
/// already ends with one.
pub open spec fn path_join(base: Seq<char>, rest: Seq<char>) -> Seq<char> {
    if rest.len() > 0 && rest[0] == '/' {
        rest
    } else if base.len() == 0 || base.last() == '/' {
        base + rest
    } else {
        base + seq!['/'] + rest
    }
}

/// `~` and a leading `~/` become the home directory; nothing else changes (a `~`
/// in the middle, `~user`, or no known home).
pub open spec fn spec_expand_tilde(s: Seq<char>, home: Option<Seq<char>>) -> Seq<char> {
    match home {
        None => s,
        Some(h) => if s == seq!['~'] {
            h
        } else if s.len() >= 2 && s[0] == '~' && s[1] == '/' {
            path_join(h, s.subrange(2, s.len() as int))
        } else {
            s
        },
    }
}

/// Expands a leading `~` / `~/` to `home` (joined with the Unix separator).
pub fn expand_tilde(s: &str, home: Option<&str>) -> (r: String)
    ensures
        r@ == spec_expand_tilde(s@, match home {
            Some(h) => Some(h@),
            None => None,
        }),
{
    let v = chars_of(s);
    match home {
        None => string_of(v.as_slice()),
        Some(h) => {
            let hv = chars_of(h);
            if v.len() == 1 && v[0] == '~' {
                assert(v@ =~= seq!['~']);
                string_of(hv.as_slice())
            } else if v.len() >= 2 && v[0] == '~' && v[1] == '/' {
                let mut out: Vec<char> = Vec::new();
                let ghost rest = v@.subrange(2, v.len() as int);
                if v.len() > 2 && v[2] == '/' {
                } else if hv.len() == 0 || hv[hv.len() - 1] == '/' {
                    push_range(&mut out, &hv, 0, hv.len());
                } else {
                    push_range(&mut out, &hv, 0, hv.len());
                    out.push('/');
                }
                push_range(&mut out, &v, 2, v.len());
                assert(hv@.subrange(0, hv.len() as int) =~= hv@);
                assert(out@ =~= path_join(hv@, rest));
                string_of(out.as_slice())
            } else {
                assert(v@ != seq!['~']);
                string_of(v.as_slice())
            }
        },
    }
}

/// `Path::join` on a Unix path (`path_join`).
pub fn join_unix(base: &str, rest: &str) -> (r: String)
    ensures
        r@ == path_join(base@, rest@),
{
    let b = chars_of(base);
    let t = chars_of(rest);
    let mut out: Vec<char> = Vec::new();
    if t.len() > 0 && t[0] == '/' {
        push_range(&mut out, &t, 0, t.len());
    } else {
        push_range(&mut out, &b, 0, b.len());
        if !(b.len() == 0 || b[b.len() - 1] == '/') {
            out.push('/');
        }
        push_range(&mut out, &t, 0, t.len());
    }
    assert(b@.subrange(0, b.len() as int) =~= b@);
    assert(t@.subrange(0, t.len() as int) =~= t@);
    assert(out@ =~= path_join(base@, rest@));
    string_of(out.as_slice())
}

/// Words joined by single spaces.
pub open spec fn join_spaces(ws: Seq<Seq<char>>) -> Seq<char>
    decreases ws.len(),
{
    if ws.len() == 0 {
        Seq::empty()
    } else if ws.len() == 1 {
        ws[0]
    } else {
        join_spaces(ws.drop_last()) + seq![' '] + ws.last()
    }
}

/// `words.join(" ")`.
pub fn join_with_spaces(words: &[String]) -> (r: String)
    ensures
        r@ == join_spaces(words.deep_view()),
{
    let mut out: Vec<char> = Vec::new();
    let mut i: usize = 0;
    assert(words.deep_view().subrange(0, 0) =~= Seq::<Seq<char>>::empty());
    while i < words.len()
        invariant
            i <= words.len(),
            out@ == join_spaces(words.deep_view().subrange(0, i as int)),
        decreases words.len() - i,
    {
        let w = chars_of(words[i].as_str());
        if i > 0 {
            out.push(' ');
        }
        push_range(&mut out, &w, 0, w.len());
        assert(w@.subrange(0, w.len() as int) =~= w@);
        let ghost pre = words.deep_view().subrange(0, i + 1);
        assert(pre.drop_last() =~= words.deep_view().subrange(0, i as int));
        i = i + 1;
    }
    assert(words.deep_view().subrange(0, words.len() as int) =~= words.deep_view());
    string_of(out.as_slice())
}

/// Whether `s` looks like a Windows path rather than a bare program name: it has a
/// separator, or a drive letter (`X:`).
pub open spec fn spec_looks_like_windows_path(s: Seq<char>) -> bool {
    s.contains('\\') || s.contains('/') || (s.len() > 1 && s[1] == ':')
}

/// The part of `s` after its last `\` or `/`.
pub open spec fn last_segment(s: Seq<char>) -> Seq<char>
    decreases s.len(),
{
    if s.len() == 0 {
        s
    } else if s.last() == '\\' || s.last() == '/' {
        Seq::empty()
    } else {
        last_segment(s.drop_last()).push(s.last())
    }
}

/// Whether the last path segment of `s` has a `.` (either separator counts, whatever
/// the platform).
pub open spec fn spec_has_file_extension(s: Seq<char>) -> bool {
    last_segment(s).contains('.')
}

fn looks_like_windows_path(s: &Vec<char>) -> (r: bool)
    ensures
        r == spec_looks_like_windows_path(s@),
{
    let mut i: usize = 0;
    while i < s.len()
        invariant
            i <= s.len(),
            forall|k: int| 0 <= k < i ==> s@[k] != '\\' && s@[k] != '/',
        decreases s.len() - i,
    {
        if s[i] == '\\' || s[i] == '/' {
            assert(s@.contains(s@[i as int]));
            return true;
        }
        i = i + 1;
    }
    s.len() > 1 && s[1] == ':'
}

fn has_file_extension(s: &Vec<char>) -> (r: bool)
    ensures
        r == spec_has_file_extension(s@),
{
    let mut i: usize = s.len();
    // Walks back over the last segment; `dot` says whether it holds a `.`.
    let mut dot = false;
    assert(s@.subrange(0, i as int) =~= s@);
    assert(last_segment(s@) =~= last_segment(s@.subrange(0, i as int)) + s@.subrange(
        i as int,
        s.len() as int,
    ));
    while i > 0 && s[i - 1] != '\\' && s[i - 1] != '/'
        invariant
            i <= s.len(),
            last_segment(s@) == last_segment(s@.subrange(0, i as int)) + s@.subrange(
                i as int,
                s.len() as int,
            ),
            dot == s@.subrange(i as int, s.len() as int).contains('.'),
        decreases i,
    {
        let ghost pre = s@.subrange(0, i as int);
        assert(pre.drop_last() =~= s@.subrange(0, i - 1));
        let ghost tail0 = s@.subrange(i as int, s.len() as int);
        if s[i - 1] == '.' {
            dot = true;
        }
        i = i - 1;
        let ghost tail1 = s@.subrange(i as int, s.len() as int);
        assert(tail1 =~= seq![s@[i as int]] + tail0);
        assert(last_segment(pre) =~= last_segment(s@.subrange(0, i as int)).push(s@[i as int]));
        assert(last_segment(s@) =~= last_segment(s@.subrange(0, i as int)) + tail1);
        assert(tail1.contains('.') == (s@[i as int] == '.' || tail0.contains('.'))) by {
            if tail0.contains('.') {
                let x = choose|x: int| 0 <= x < tail0.len() && tail0[x] == '.';
                assert(tail1[x + 1] == '.');
            }
            if s@[i as int] == '.' {
                assert(tail1[0] == '.');
            }
            if tail1.contains('.') {
                let x = choose|x: int| 0 <= x < tail1.len() && tail1[x] == '.';
                if x > 0 {
                    assert(tail0[x - 1] == '.');
                }
            }
        }
    }
    assert(last_segment(s@.subrange(0, i as int)) =~= Seq::<char>::empty());
    assert(last_segment(s@) =~= s@.subrange(i as int, s.len() as int));
    dot
}

/// The candidate executable path made of the first `end + 1` words.
pub open spec fn glue_candidate(argv: Seq<Seq<char>>, end: int) -> Seq<char> {
    join_spaces(argv.subrange(0, end + 1))
}

/// The files that gluing asks about, in order, each with the index of the last word
/// it swallows: every prefix joined by spaces, and, when that has no extension, the
/// same with `.exe` appended (what `CreateProcess` tries).
pub open spec fn glue_queries(argv: Seq<Seq<char>>) -> Seq<(Seq<char>, int)>
    decreases argv.len(),
{
    if argv.len() == 0 {
        Seq::empty()
    } else {
        let end = argv.len() - 1;
        let c = glue_candidate(argv, end);
        glue_queries(argv.drop_last()) + seq![(c, end)] + (if !spec_has_file_extension(c) {
            seq![(c + seq!['.', 'e', 'x', 'e'], end)]
        } else {
            Seq::empty()
        })
    }
}

/// The glued argv: `exe` followed by the words after `end`.
pub open spec fn glued(argv: Seq<Seq<char>>, exe: Seq<char>, end: int) -> Seq<Seq<char>> {
    seq![exe] + argv.subrange(end + 1, argv.len() as int)
}

/// What an existence-check closure answered for the path `q`.
pub open spec fn file_answered<F: Fn(&str) -> bool>(f: F, q: Seq<char>, r: bool) -> bool {
    exists|k: &str| k@ == q && call_ensures(f, (k,), r)
}

/// The result of gluing when the first query answered `true` is number `k` (or
/// none, `k == queries.len()`).
pub open spec fn spec_glue(argv: Seq<Seq<char>>, k: int) -> Seq<Seq<char>> {
    let qs = glue_queries(argv);
    if 0 <= k < qs.len() {
        glued(argv, qs[k].0, qs[k].1)
    } else {
        argv
    }
}


proof fn lemma_glue_queries_prefix(argv: Seq<Seq<char>>, m: int)
    requires
        0 <= m <= argv.len(),
    ensures
        glue_queries(argv.subrange(0, m)).len() <= glue_queries(argv).len(),
        forall|j: int|
            0 <= j < glue_queries(argv.subrange(0, m)).len() ==> #[trigger] glue_queries(
                argv.subrange(0, m),
            )[j] == glue_queries(argv)[j],
    decreases argv.len() - m,
{
    if m == argv.len() {
        assert(argv.subrange(0, m) =~= argv);
    } else {
        lemma_glue_queries_prefix(argv.drop_last(), m);
        assert(argv.drop_last().subrange(0, m) =~= argv.subrange(0, m));
    }
}

proof fn lemma_glue_queries_step(argv: Seq<Seq<char>>, end: int)
    requires
        0 <= end < argv.len(),
    ensures
        glue_queries(argv.subrange(0, end + 1)) == glue_queries(argv.subrange(0, end)) + seq![
            (glue_candidate(argv, end), end),
        ] + (if !spec_has_file_extension(glue_candidate(argv, end)) {
            seq![(glue_candidate(argv, end) + seq!['.', 'e', 'x', 'e'], end)]
        } else {
            Seq::empty()
        }),
{
    let p = argv.subrange(0, end + 1);
    assert(p.drop_last() =~= argv.subrange(0, end));
    assert(p.subrange(0, end + 1) =~= p);
}

/// `[exe] ++ argv[start..]`.
fn glued_argv(exe: String, argv: &Vec<String>, start: usize) -> (out: Vec<String>)
    requires
        start <= argv.len(),
    ensures
        out.deep_view() == seq![exe@] + argv.deep_view().subrange(start as int, argv.len() as int),
{
    let mut out: Vec<String> = Vec::new();
    out.push(exe);
    let mut i: usize = start;
    assert(out.deep_view() =~= seq![exe@] + argv.deep_view().subrange(start as int, i as int));
    while i < argv.len()
        invariant
            start <= i <= argv.len(),
            out.deep_view() == seq![exe@] + argv.deep_view().subrange(start as int, i as int),
        decreases argv.len() - i,
    {
        let c = argv[i].clone();
        assert(c@ == argv.deep_view()[i as int]);
        let ghost o0 = out.deep_view();
        out.push(c);
        assert(out.deep_view() =~= o0.push(c@));
        assert(out.deep_view() =~= seq![exe@] + argv.deep_view().subrange(start as int, i + 1));
        i = i + 1;
    }
    out
}

/// The search behind [`glue_unquoted_windows_exe`], stated over the answers `is_file`
/// gave.
fn glue_search<F: Fn(&str) -> bool>(argv: Vec<String>, is_file: &F) -> (r: Vec<
    String,
>)
    requires
        forall|k: &str| call_requires(*is_file, (k,)),
    ensures
        argv.len() == 0 || !spec_looks_like_windows_path(argv.deep_view()[0]) ==> r.deep_view()
            == argv.deep_view(),
        argv.len() > 0 && spec_looks_like_windows_path(argv.deep_view()[0]) ==> exists|k: int|
            #![trigger spec_glue(argv.deep_view(), k)]
            {
                let qs = glue_queries(argv.deep_view());
                &&& 0 <= k <= qs.len()
                &&& forall|j: int| 0 <= j < k ==> file_answered(*is_file, #[trigger] qs[j].0, false)
                &&& k < qs.len() ==> file_answered(*is_file, qs[k].0, true)
                &&& r.deep_view() == spec_glue(argv.deep_view(), k)
            },
{
    if argv.len() == 0 {
        return argv;
    }
    let first = chars_of(argv[0].as_str());
    if !looks_like_windows_path(&first) {
        return argv;
    }
    let ghost av = argv.deep_view();
    assert(first@ == av[0]);
    let ghost qs = glue_queries(av);
    let mut cand: Vec<char> = Vec::new();
    let mut end: usize = 0;
    let ghost mut q: int = 0;
    assert(av.subrange(0, 0) =~= Seq::<Seq<char>>::empty());
    while end < argv.len()
        invariant
            end <= argv.len(),
            av == argv.deep_view(),
            qs == glue_queries(av),
            forall|k: &str| call_requires(*is_file, (k,)),
            q == glue_queries(av.subrange(0, end as int)).len(),
            q <= qs.len(),
            end > 0 ==> cand@ == glue_candidate(av, end - 1),
            end == 0 ==> cand@ == Seq::<char>::empty(),
            spec_looks_like_windows_path(av[0]),
            forall|j: int| 0 <= j < q ==> file_answered(*is_file, #[trigger] qs[j].0, false),
        decreases argv.len() - end,
    {
        let w = chars_of(argv[end].as_str());
        if end > 0 {
            cand.push(' ');
        }
        push_range(&mut cand, &w, 0, w.len());
        proof {
            assert(w@.subrange(0, w.len() as int) =~= w@);
            let p = av.subrange(0, end + 1);
            assert(p.drop_last() =~= av.subrange(0, end as int));
            assert(p.last() == w@);
            if end == 0 {
                assert(cand@ =~= join_spaces(p));
            } else {
                assert(cand@ =~= join_spaces(p));
            }
            lemma_glue_queries_step(av, end as int);
            lemma_glue_queries_prefix(av, end + 1);
        }
        let candidate = string_of(cand.as_slice());
        let ck = candidate.as_str();
        let hit = is_file(ck);
        proof {
            let g = glue_queries(av.subrange(0, end + 1));
            assert(g[q] == (glue_candidate(av, end as int), end as int));
            assert(g[q] == qs[q]);
        }
        if hit {
            assert(call_ensures(*is_file, (ck,), hit));
            let out = glued_argv(candidate, &argv, end + 1);
            assert(out.deep_view() =~= spec_glue(av, q));
            return out;
        }
        assert(call_ensures(*is_file, (ck,), hit));
        assert(file_answered(*is_file, qs[q].0, false));
        proof {
            q = q + 1;
        }
        if !has_file_extension(&cand) {
            let mut ev = cand.clone();
            ev.push('.');
            ev.push('e');
            ev.push('x');
            ev.push('e');
            let with_exe = string_of(ev.as_slice());
            let ek = with_exe.as_str();
            let hit2 = is_file(ek);
            proof {
                assert(ev@ =~= cand@ + seq!['.', 'e', 'x', 'e']);
                let g = glue_queries(av.subrange(0, end + 1));
                assert(g[q] == (glue_candidate(av, end as int) + seq!['.', 'e', 'x', 'e'], end as int));
                assert(g[q] == qs[q]);
            }
            assert(call_ensures(*is_file, (ek,), hit2));
            if hit2 {
                let out = glued_argv(with_exe, &argv, end + 1);
                assert(out.deep_view() =~= spec_glue(av, q));
                return out;
            }
            assert(file_answered(*is_file, qs[q].0, false));
            proof {
                q = q + 1;
            }
        }
        end = end + 1;
    }
    assert(av.subrange(0, argv.len() as int) =~= av);
    assert(argv.deep_view() == spec_glue(av, q));
    argv
}

/// Whether `q` is an existing file, by a side-effect-free existence check.
pub open spec fn file_agrees<F: Fn(&str) -> bool>(f: F, filef: spec_fn(Seq<char>) -> bool) -> bool {
    forall|k: &str, b: bool| #[trigger] call_ensures(f, (k,), b) ==> b == filef(k@)
}

/// The index of the first query that names a file, or the number of queries.
pub open spec fn first_hit(qs: Seq<(Seq<char>, int)>, filef: spec_fn(Seq<char>) -> bool) -> int
    decreases qs.len(),
{
    if qs.len() == 0 {
        0
    } else if filef(qs[0].0) {
        0
    } else {
        1 + first_hit(qs.drop_first(), filef)
    }
}

/// The argv gluing gives when `filef` says which paths are files.
pub open spec fn glue_by(argv: Seq<Seq<char>>, filef: spec_fn(Seq<char>) -> bool) -> Seq<Seq<char>> {
    if argv.len() == 0 || !spec_looks_like_windows_path(argv[0]) {
        argv
    } else {
        spec_glue(argv, first_hit(glue_queries(argv), filef))
    }
}

proof fn lemma_first_hit(qs: Seq<(Seq<char>, int)>, filef: spec_fn(Seq<char>) -> bool, k: int)
    requires
        0 <= k <= qs.len(),
        forall|j: int| 0 <= j < k ==> !filef(#[trigger] qs[j].0),
        k < qs.len() ==> filef(qs[k].0),
    ensures
        first_hit(qs, filef) == k,
    decreases qs.len(),
{
    if qs.len() > 0 && k > 0 {
        assert(!filef(qs[0].0));
        assert forall|j: int| 0 <= j < k - 1 implies !filef(#[trigger] qs.drop_first()[j].0) by {
            assert(qs.drop_first()[j] == qs[j + 1]);
        }
        lemma_first_hit(qs.drop_first(), filef, k - 1);
    }
}

/// Puts back together an unquoted executable path that `CommandLineToArgvW` split on
/// its spaces (`C:\Program Files\Git\bin\bash.exe -li`), the way `CreateProcessW`
/// does: the shortest prefix of words that names an existing file wins, trying
/// `.exe` too when the prefix has no extension. A bare program name is left alone,
/// and so is the argv when no prefix names a file. `is_file` is the existence check.
pub fn glue_unquoted_windows_exe<F: Fn(&str) -> bool>(argv: Vec<String>, is_file: &F) -> (r: Vec<
    String,
>)
    requires
        forall|k: &str| call_requires(*is_file, (k,)),
    ensures
        forall|filef: spec_fn(Seq<char>) -> bool|
            file_agrees(*is_file, filef) ==> r.deep_view() == #[trigger] glue_by(argv.deep_view(), filef),
{
    let ghost av = argv.deep_view();
    let r = glue_search(argv, is_file);
    proof {
        assert forall|filef: spec_fn(Seq<char>) -> bool|
            file_agrees(*is_file, filef) implies r.deep_view() == #[trigger] glue_by(av, filef) by {
            if av.len() > 0 && spec_looks_like_windows_path(av[0]) {
                let qs = glue_queries(av);
                let k = choose|k: int|
                    #![trigger spec_glue(av, k)]
                    {
                        &&& 0 <= k <= qs.len()
                        &&& forall|j: int| 0 <= j < k ==> file_answered(*is_file, #[trigger] qs[j].0, false)
                        &&& k < qs.len() ==> file_answered(*is_file, qs[k].0, true)
                        &&& r.deep_view() == spec_glue(av, k)
                    };
                assert forall|j: int| 0 <= j < k implies !filef(#[trigger] qs[j].0) by {
                    assert(file_answered(*is_file, qs[j].0, false));
                    let kk = choose|kk: &str| kk@ == qs[j].0 && call_ensures(*is_file, (kk,), false);
                    assert(call_ensures(*is_file, (kk,), false));
                }
                if k < qs.len() {
                    assert(file_answered(*is_file, qs[k].0, true));
                    let kk = choose|kk: &str| kk@ == qs[k].0 && call_ensures(*is_file, (kk,), true);
                    assert(call_ensures(*is_file, (kk,), true));
                }
                lemma_first_hit(qs, filef, k);
            }
        }
    }
    r
}

proof fn lemma_first_of_hit(s: Seq<char>, c: char)
    ensures
        first_of(s, c) < s.len() ==> s[first_of(s, c) as int] == c,
        forall|k: int| 0 <= k < first_of(s, c) && k < s.len() ==> s[k] != c,
    decreases s.len(),
{
    if s.len() > 0 && s[0] != c {
        lemma_first_of_hit(s.drop_first(), c);
        assert forall|k: int| 0 <= k < first_of(s, c) && k < s.len() implies s[k] != c by {
            if k > 0 {
                assert(s[k] == s.drop_first()[k - 1]);
            }
        }
    }
}

proof fn lemma_expand_all_unknown(s: Seq<char>, vals: Seq<Option<Seq<char>>>)
    requires
        forall|i: int| 0 <= i < vals.len() ==> vals[i] is None,
    ensures
        expand_from(s, vals) == s,
    decreases s.len(),
{
    let st = first_of(s, '%');
    lemma_first_of_le(s, '%');
    lemma_first_of_hit(s, '%');
    if st < s.len() {
        let prefix = s.subrange(0, st as int);
        let after = s.subrange(st as int + 1, s.len() as int);
        let e = first_of(after, '%');
        lemma_first_of_le(after, '%');
        lemma_first_of_hit(after, '%');
        if 0 < e < after.len() {
            let name = after.subrange(0, e as int);
            let rest = after.subrange(e as int + 1, after.len() as int);
            let vs = if vals.len() > 0 {
                vals.drop_first()
            } else {
                vals
            };
            assert forall|i: int| 0 <= i < vs.len() implies vs[i] is None by {
                if vals.len() > 0 {
                    assert(vs[i] == vals[i + 1]);
                }
            }
            lemma_expand_all_unknown(rest, vs);
            assert(s =~= prefix + (seq!['%'] + name + seq!['%']) + rest);
        } else {
            lemma_expand_all_unknown(after, vals);
            assert(s =~= prefix + seq!['%'] + after);
        }
    }
}

/// Unknown variables are kept as written: when no name is set, expansion returns the
/// text unchanged (erasing `%SystemRoot%` would turn `%SystemRoot%\System32\cmd.exe`
/// into a wrong path that looks absolute).
pub proof fn unknown_variables_stay_as_written(s: Seq<char>, envf: spec_fn(Seq<char>) -> Option<Seq<char>>)
    requires
        forall|n: Seq<char>| #[trigger] envf(n) is None,
    ensures
        expand_by(s, envf) == s,
{
    let vals = env_names(s).map_values(envf);
    assert forall|i: int| 0 <= i < vals.len() implies vals[i] is None by {
        assert(vals[i] == envf(env_names(s)[i]));
    }
    lemma_expand_all_unknown(s, vals);
}

/// With no file on disk, gluing leaves the argv as it is, so the spawn reports the
/// original words.
pub proof fn without_files_argv_is_left_alone(argv: Seq<Seq<char>>, filef: spec_fn(Seq<char>) -> bool)
    requires
        forall|q: Seq<char>| !#[trigger] filef(q),
    ensures
        glue_by(argv, filef) == argv,
{
    let qs = glue_queries(argv);
    lemma_first_hit(qs, filef, qs.len() as int);
}

/// Splitting at whitespace alone, as `str::split_whitespace` does: the maximal runs
/// of non-whitespace characters, with `cur` the run being read (`have`: one started).
pub open spec fn ws_words_from(s: Seq<char>, cur: Seq<char>, have: bool) -> Seq<Seq<char>>
    decreases s.len(),
{
    if s.len() == 0 {
        if have {
            seq![cur]
        } else {
            Seq::empty()
        }
    } else if is_ws(s[0]) {
        if have {
            seq![cur] + ws_words_from(s.drop_first(), Seq::empty(), false)
        } else {
            ws_words_from(s.drop_first(), Seq::empty(), false)
        }
    } else {
        ws_words_from(s.drop_first(), cur.push(s[0]), true)
    }
}

/// The words of `s` split at whitespace alone.
pub open spec fn ws_words(s: Seq<char>) -> Seq<Seq<char>> {
    ws_words_from(s, Seq::empty(), false)
}

proof fn lemma_posix_plain(s: Seq<char>, cur: Seq<char>, have: bool)
    requires
        !s.contains('\''),
        !s.contains('"'),
        !s.contains('\\'),
    ensures
        posix_from(s, Px::Out, cur, have) == ws_words_from(s, cur, have),
    decreases s.len(),
{
    if s.len() > 0 {
        let r = s.drop_first();
        assert forall|c: char| r.contains(c) implies s.contains(c) by {
            let i = choose|i: int| 0 <= i < r.len() && r[i] == c;
            assert(s[i + 1] == c);
        }
        assert(s[0] != '\'' && s[0] != '"' && s[0] != '\\') by {
            assert(s.contains(s[0]));
        }
        if is_ws(s[0]) {
            lemma_posix_plain(r, Seq::empty(), false);
        } else {
            lemma_posix_plain(r, cur.push(s[0]), true);
        }
    }
}

/// Without quotes or backslashes POSIX splitting is splitting at whitespace: every
/// other character, `$`, `*` and `|` included, is kept as it is.
pub proof fn plain_posix_line_splits_at_whitespace(s: Seq<char>)
    requires
        !s.contains('\''),
        !s.contains('"'),
        !s.contains('\\'),
    ensures
        spec_split_posix(s) == ws_words(s),
{
    lemma_posix_plain(s, Seq::empty(), false);
}

proof fn lemma_suffix_contains(s: Seq<char>, j: int, c: char)
    requires
        0 <= j <= s.len(),
        s.subrange(j, s.len() as int).contains(c),
    ensures
        s.contains(c),
{
    let t = s.subrange(j, s.len() as int);
    let i = choose|i: int| 0 <= i < t.len() && t[i] == c;
    assert(s[j + i] == c);
}

proof fn lemma_bs_run_chars(s: Seq<char>)
    ensures
        forall|i: int| 0 <= i < bs_run(s) ==> s[i] == '\\',
        bs_run(s) < s.len() ==> s[bs_run(s) as int] != '\\',
    decreases s.len(),
{
    lemma_bs_run_le(s);
    if s.len() > 0 && s[0] == '\\' {
        lemma_bs_run_chars(s.drop_first());
        assert forall|i: int| 0 <= i < bs_run(s) implies s[i] == '\\' by {
            if i > 0 {
                assert(s[i] == s.drop_first()[i - 1]);
            }
        }
    }
}

proof fn lemma_first_ws_chars(s: Seq<char>)
    ensures
        first_ws(s) <= s.len(),
        forall|i: int| 0 <= i < first_ws(s) ==> !is_ws(s[i]),
        first_ws(s) < s.len() ==> is_ws(s[first_ws(s) as int]),
    decreases s.len(),
{
    if s.len() > 0 && !is_ws(s[0]) {
        lemma_first_ws_chars(s.drop_first());
        assert forall|i: int| 0 <= i < first_ws(s) implies !is_ws(s[i]) by {
            if i > 0 {
                assert(s[i] == s.drop_first()[i - 1]);
            }
        }
    }
}

/// Reading `k >= 1` non-whitespace characters puts them on the current word.
proof fn lemma_ws_run(s: Seq<char>, cur: Seq<char>, have: bool, k: int)
    requires
        1 <= k <= s.len(),
        forall|i: int| 0 <= i < k ==> !is_ws(#[trigger] s[i]),
    ensures
        ws_words_from(s, cur, have) == ws_words_from(s.subrange(k, s.len() as int), cur + s.subrange(0, k), true),
    decreases k,
{
    assert(!is_ws(s[0]));
    if k == 1 {
        assert(s.drop_first() =~= s.subrange(1, s.len() as int));
        assert(cur.push(s[0]) =~= cur + s.subrange(0, 1));
    } else {
        let r = s.drop_first();
        assert forall|i: int| 0 <= i < k - 1 implies !is_ws(#[trigger] r[i]) by {
            assert(r[i] == s[i + 1]);
        }
        lemma_ws_run(r, cur.push(s[0]), true, k - 1);
        assert(r.subrange(k - 1, r.len() as int) =~= s.subrange(k, s.len() as int));
        assert(cur.push(s[0]) + r.subrange(0, k - 1) =~= cur + s.subrange(0, k));
    }
}

proof fn lemma_win_plain(s: Seq<char>, cur: Seq<char>, have: bool)
    requires
        !s.contains('"'),
        !have ==> cur == Seq::<char>::empty(),
    ensures
        win_from(s, cur, false, have) == ws_words_from(s, cur, have),
    decreases s.len(),
{
    if s.len() > 0 {
        let c = s[0];
        let r = s.drop_first();
        assert(c != '"') by {
            assert(s.contains(c));
        }
        assert(!r.contains('"')) by {
            if r.contains('"') {
                let i = choose|i: int| 0 <= i < r.len() && r[i] == '"';
                assert(s[i + 1] == '"');
            }
        }
        if is_ws(c) {
            lemma_win_plain(r, Seq::empty(), false);
        } else if c == '\\' {
            let k = bs_run(s);
            lemma_bs_run_chars(s);
            lemma_bs_run_le(s);
            let after = s.subrange(k as int, s.len() as int);
            if after.len() > 0 {
                assert(after[0] == s[k as int]);
                assert(after[0] != '"') by {
                    assert(s.contains(s[k as int]));
                }
            }
            assert(!after.contains('"')) by {
                if after.contains('"') {
                    lemma_suffix_contains(s, k as int, '"');
                }
            }
            assert forall|i: int| 0 <= i < k implies !is_ws(#[trigger] s[i]) by {
                assert(s[i] == '\\');
            }
            lemma_ws_run(s, cur, have, k as int);
            assert(s.subrange(0, k as int) =~= rep('\\', k));
            lemma_win_plain(after, cur + rep('\\', k), true);
        } else {
            lemma_win_plain(r, cur.push(c), true);
        }
    }
}

proof fn lemma_lead_ws_plain(s: Seq<char>)
    ensures
        ws_words(s) == ws_words(lead_ws_dropped(s)),
        lead_ws_dropped(s).len() > 0 ==> !is_ws(lead_ws_dropped(s)[0]),
        exists|j: int| 0 <= j <= s.len() && lead_ws_dropped(s) == #[trigger] s.subrange(j, s.len() as int),
    decreases s.len(),
{
    if s.len() > 0 && is_ws(s[0]) {
        lemma_lead_ws_plain(s.drop_first());
        let j = choose|j: int| 0 <= j <= s.drop_first().len() && lead_ws_dropped(s.drop_first()) == #[trigger] s.drop_first().subrange(j, s.drop_first().len() as int);
        assert(s.drop_first().subrange(j, s.drop_first().len() as int) =~= s.subrange(j + 1, s.len() as int));
    } else {
        assert(s =~= s.subrange(0, s.len() as int));
    }
}

/// Without quotes a Windows command line splits at whitespace: every backslash is
/// literal, in the program name and in the arguments.
pub proof fn unquoted_windows_line_splits_at_whitespace(s: Seq<char>)
    requires
        !s.contains('"'),
    ensures
        spec_split_windows(s) == ws_words(s),
{
    let t = lead_ws_dropped(s);
    lemma_lead_ws_plain(s);
    let j = choose|j: int| 0 <= j <= s.len() && t == #[trigger] s.subrange(j, s.len() as int);
    assert(!t.contains('"')) by {
        if t.contains('"') {
            lemma_suffix_contains(s, j, '"');
        }
    }
    if t.len() == 0 {
        assert(ws_words(t) == Seq::<Seq<char>>::empty());
        assert(spec_split_windows(s) =~= Seq::<Seq<char>>::empty());
    } else {
        assert(t[0] != '"') by {
            assert(t.contains(t[0]));
        }
        let w = first_ws(t);
        lemma_first_ws_chars(t);
        assert(w >= 1);
        let a0 = t.subrange(0, w as int);
        let rest = t.subrange(w as int, t.len() as int);
        assert(arg0_split(s) == (a0, rest));
        lemma_ws_run(t, Seq::empty(), false, w as int);
        assert(Seq::<char>::empty() + a0 =~= a0);
        assert(!rest.contains('"')) by {
            if rest.contains('"') {
                lemma_suffix_contains(t, w as int, '"');
            }
        }
        if w == t.len() {
            assert(rest =~= Seq::<char>::empty());
            assert(spec_split_windows(s) =~= seq![a0]);
        } else {
            assert(rest[0] == t[w as int]);
            assert(is_ws(rest[0]));
            lemma_win_plain(rest.drop_first(), Seq::empty(), false);
            assert(win_from(rest, Seq::empty(), false, false) == win_from(rest.drop_first(), Seq::empty(), false, false));
            assert(ws_words_from(rest, a0, true) == seq![a0] + ws_words_from(rest.drop_first(), Seq::empty(), false));
        }
    }
}

/// The file name `CreateProcess` tries for the prefix ending at word `end`: the
/// prefix itself, or, when it has no extension, the prefix with `.exe`.
pub open spec fn prefix_hit(argv: Seq<Seq<char>>, filef: spec_fn(Seq<char>) -> bool, end: int) -> bool {
    let c = glue_candidate(argv, end);
    filef(c) || (!spec_has_file_extension(c) && filef(c + seq!['.', 'e', 'x', 'e']))
}

proof fn lemma_queries_shape(x: Seq<Seq<char>>)
    ensures
        forall|j: int| 0 <= j < glue_queries(x).len() ==> {
            let q = #[trigger] glue_queries(x)[j];
            &&& 0 <= q.1 < x.len()
            &&& (q.0 == glue_candidate(x, q.1) || (q.0 == glue_candidate(x, q.1) + seq!['.', 'e', 'x', 'e']
                && !spec_has_file_extension(glue_candidate(x, q.1))))
        },
    decreases x.len(),
{
    if x.len() > 0 {
        let p = x.drop_last();
        lemma_queries_shape(p);
        let end = x.len() - 1;
        assert forall|i: int| 0 <= i < p.len() implies glue_candidate(p, i) == glue_candidate(x, i) by {
            assert(p.subrange(0, i + 1) =~= x.subrange(0, i + 1));
        }
        let qs = glue_queries(x);
        let c = glue_candidate(x, end);
        let tail = seq![(c, end)] + (if !spec_has_file_extension(c) {
            seq![(c + seq!['.', 'e', 'x', 'e'], end)]
        } else {
            Seq::empty()
        });
        assert(qs == glue_queries(p) + tail);
        assert forall|j: int| 0 <= j < qs.len() implies {
            let q = #[trigger] qs[j];
            &&& 0 <= q.1 < x.len()
            &&& (q.0 == glue_candidate(x, q.1) || (q.0 == glue_candidate(x, q.1) + seq!['.', 'e', 'x', 'e']
                && !spec_has_file_extension(glue_candidate(x, q.1))))
        } by {
            if j < glue_queries(p).len() {
                assert(qs[j] == glue_queries(p)[j]);
            } else {
                assert(qs[j] == tail[j - glue_queries(p).len()]);
            }
        }
    }
}

/// The shortest prefix wins: when word `k` ends the first prefix of words that names
/// a file (as it is, or with `.exe` when it has no extension), the program is that
/// file and the remaining words follow it. (`cmd.exe /c echo`, with `cmd.exe`
/// existing, comes back unchanged.)
pub proof fn the_shortest_matching_prefix_wins(argv: Seq<Seq<char>>, filef: spec_fn(Seq<char>) -> bool, k: int)
    requires
        argv.len() > 0,
        spec_looks_like_windows_path(argv[0]),
        0 <= k < argv.len(),
        prefix_hit(argv, filef, k),
        forall|j: int| 0 <= j < k ==> !prefix_hit(argv, filef, j),
    ensures
        glue_by(argv, filef) == glued(
            argv,
            if filef(glue_candidate(argv, k)) {
                glue_candidate(argv, k)
            } else {
                glue_candidate(argv, k) + seq!['.', 'e', 'x', 'e']
            },
            k,
        ),
{
    let qs = glue_queries(argv);
    let pk = argv.subrange(0, k);
    let pre = glue_queries(pk);
    let n: int = pre.len() as int;
    lemma_glue_queries_prefix(argv, k);
    lemma_glue_queries_prefix(argv, k + 1);
    lemma_glue_queries_step(argv, k);
    lemma_queries_shape(pk);
    let c = glue_candidate(argv, k);
    let g = glue_queries(argv.subrange(0, k + 1));
    assert(g[n] == (c, k));
    assert(qs[n] == (c, k));
    assert forall|j: int| 0 <= j < n implies !filef(#[trigger] qs[j].0) by {
        let q = pre[j];
        assert(qs[j] == q);
        assert(pk.subrange(0, q.1 + 1) =~= argv.subrange(0, q.1 + 1));
        assert(glue_candidate(pk, q.1) == glue_candidate(argv, q.1));
        assert(!prefix_hit(argv, filef, q.1));
    }
    if filef(c) {
        lemma_first_hit(qs, filef, n);
    } else {
        assert(!spec_has_file_extension(c) && filef(c + seq!['.', 'e', 'x', 'e']));
        assert(g[n + 1] == (c + seq!['.', 'e', 'x', 'e'], k));
        assert(qs[n + 1] == g[n + 1]);
        assert(!filef(qs[n].0));
        assert forall|j: int| 0 <= j < n + 1 implies !filef(#[trigger] qs[j].0) by {}
        lemma_first_hit(qs, filef, n + 1);
    }
}

/// Text without `%` is left as it is, whatever the variables hold, and nothing is
/// looked up for it.
pub proof fn text_without_percent_is_unchanged(s: Seq<char>, envf: spec_fn(Seq<char>) -> Option<Seq<char>>)
    requires
        !s.contains('%'),
    ensures
        env_names(s).len() == 0,
        expand_by(s, envf) == s,
{
    lemma_first_of_le(s, '%');
    lemma_first_of_hit(s, '%');
    if first_of(s, '%') < s.len() {
        assert(s.contains(s[first_of(s, '%') as int]));
    }
}

/// The names looked up are never empty and hold no `%`.
pub proof fn looked_up_names_are_plain(s: Seq<char>)
    ensures
        forall|i: int| 0 <= i < env_names(s).len() ==> (#[trigger] env_names(s)[i]).len() > 0 && !env_names(s)[i].contains('%'),
    decreases s.len(),
{
    let st = first_of(s, '%');
    lemma_first_of_le(s, '%');
    if st < s.len() {
        let after = s.subrange(st as int + 1, s.len() as int);
        let e = first_of(after, '%');
        lemma_first_of_le(after, '%');
        lemma_first_of_hit(after, '%');
        if 0 < e < after.len() {
            let name = after.subrange(0, e as int);
            let rest = after.subrange(e as int + 1, after.len() as int);
            looked_up_names_are_plain(rest);
            assert(!name.contains('%')) by {
                if name.contains('%') {
                    let j = choose|j: int| 0 <= j < name.len() && name[j] == '%';
                    assert(after[j] == '%');
                }
            }
            let ns = env_names(s);
            assert(ns == seq![name] + env_names(rest));
            assert forall|i: int| 0 <= i < ns.len() implies (#[trigger] ns[i]).len() > 0 && !ns[i].contains('%') by {
                if i > 0 {
                    assert(ns[i] == env_names(rest)[i - 1]);
                }
            }
        } else {
            looked_up_names_are_plain(after);
            assert(env_names(s) == env_names(after));
        }
    } else {
        assert(env_names(s) == Seq::<Seq<char>>::empty());
    }
}

/// A bare program name (no path separator, no drive) is never glued: the argv comes
/// back as it is, whatever exists on disk.
pub proof fn bare_program_names_are_left_alone(argv: Seq<Seq<char>>, filef: spec_fn(Seq<char>) -> bool)
    requires
        argv.len() == 0 || !spec_looks_like_windows_path(argv[0]),
    ensures
        glue_by(argv, filef) == argv,
{
}

proof fn lemma_single_quoted(s: Seq<char>, t: Seq<char>, cur: Seq<char>, have: bool)
    requires
        !s.contains('\''),
    ensures
        posix_from(s + t, Px::Single, cur, have) == posix_from(t, Px::Single, cur + s, have),
    decreases s.len(),
{
    if s.len() == 0 {
        assert(s + t =~= t);
        assert(cur + s =~= cur);
    } else {
        let u = s + t;
        assert(u[0] == s[0]);
        assert(s[0] != '\'') by {
            assert(s.contains(s[0]));
        }
        assert(u.drop_first() =~= s.drop_first() + t);
        assert(!s.drop_first().contains('\'')) by {
            if s.drop_first().contains('\'') {
                let i = choose|i: int| 0 <= i < s.drop_first().len() && s.drop_first()[i] == '\'';
                assert(s[i + 1] == '\'');
            }
        }
        lemma_single_quoted(s.drop_first(), t, cur.push(s[0]), have);
        assert(cur.push(s[0]) + s.drop_first() =~= cur + s);
    }
}

/// Single quotes are fully literal: a text with no single quote, put between single
/// quotes, splits into exactly that one word, every character kept (a backslash
/// included) and an empty text giving one empty word.
pub proof fn single_quotes_keep_everything(s: Seq<char>)
    requires
        !s.contains('\''),
    ensures
        spec_split_posix(seq!['\''] + s + seq!['\'']) == seq![s],
{
    let q = seq!['\''];
    let whole = q + s + q;
    assert(whole[0] == '\'');
    assert(whole.drop_first() =~= s + q);
    assert(!is_ws('\''));
    assert(posix_from(whole, Px::Out, Seq::empty(), false) == posix_from(s + q, Px::Single, Seq::empty(), true));
    lemma_single_quoted(s, q, Seq::empty(), true);
    assert(Seq::<char>::empty() + s =~= s);
    assert(q.drop_first() =~= Seq::<char>::empty());
    assert(posix_from(q, Px::Single, s, true) == posix_from(Seq::<char>::empty(), Px::Out, s, true));
}


proof fn lemma_double_quoted(s: Seq<char>, t: Seq<char>, cur: Seq<char>, have: bool)
    requires
        !s.contains('"'),
        !s.contains('\\'),
    ensures
        posix_from(s + t, Px::Double, cur, have) == posix_from(t, Px::Double, cur + s, have),
    decreases s.len(),
{
    if s.len() == 0 {
        assert(s + t =~= t);
        assert(cur + s =~= cur);
    } else {
        let u = s + t;
        assert(u[0] == s[0]);
        assert(s[0] != '"' && s[0] != '\\') by {
            assert(s.contains(s[0]));
        }
        assert(u.drop_first() =~= s.drop_first() + t);
        assert(!s.drop_first().contains('"') && !s.drop_first().contains('\\')) by {
            if s.drop_first().contains('"') {
                let i = choose|i: int| 0 <= i < s.drop_first().len() && s.drop_first()[i] == '"';
                assert(s[i + 1] == '"');
            }
            if s.drop_first().contains('\\') {
                let i = choose|i: int| 0 <= i < s.drop_first().len() && s.drop_first()[i] == '\\';
                assert(s[i + 1] == '\\');
            }
        }
        lemma_double_quoted(s.drop_first(), t, cur.push(s[0]), have);
        assert(cur.push(s[0]) + s.drop_first() =~= cur + s);
    }
}

/// Double quotes group: a text with no double quote and no backslash, put between
/// double quotes, splits into exactly that one word, its blanks and single quotes
/// kept, and an empty text giving one empty word.
pub proof fn double_quotes_make_one_word(s: Seq<char>)
    requires
        !s.contains('"'),
        !s.contains('\\'),
    ensures
        spec_split_posix(seq!['"'] + s + seq!['"']) == seq![s],
{
    let q = seq!['"'];
    let whole = q + s + q;
    assert(whole[0] == '"');
    assert(whole.drop_first() =~= s + q);
    assert(!is_ws('"'));
    assert(posix_from(whole, Px::Out, Seq::empty(), false) == posix_from(s + q, Px::Double, Seq::empty(), true));
    lemma_double_quoted(s, q, Seq::empty(), true);
    assert(Seq::<char>::empty() + s =~= s);
    assert(q.drop_first() =~= Seq::<char>::empty());
    assert(posix_from(q, Px::Double, s, true) == posix_from(Seq::<char>::empty(), Px::Out, s, true));
}

/// Outside quotes a backslash takes the next character literally, whatever it is
/// (a blank, a quote or another backslash): the two make a word of that one
/// character.
pub proof fn a_backslash_escapes_the_next_character(c: char)
    ensures
        spec_split_posix(seq!['\\', c]) == seq![seq![c]],
{
    let w = seq!['\\', c];
    assert(!is_ws('\\'));
    assert(w.drop_first() =~= seq![c]);
    assert(w.drop_first().drop_first() =~= Seq::<char>::empty());
    assert(Seq::<char>::empty().push(c) =~= seq![c]);
    assert(posix_from(w, Px::Out, Seq::empty(), false) == posix_from(
        Seq::<char>::empty(),
        Px::Out,
        seq![c],
        true,
    ));
}


/// Inside double quotes a backslash escapes only a double quote, another backslash,
/// `$` and `` ` ``; before any other character it is kept as it is.
pub proof fn inside_double_quotes_a_backslash_escapes_little(c: char)
    ensures
        (c == '"' || c == '\\' || c == '$' || c == '`') ==> spec_split_posix(seq!['"', '\\', c, '"']) == seq![seq![c]],
        !(c == '"' || c == '\\' || c == '$' || c == '`') ==> spec_split_posix(seq!['"', '\\', c, '"']) == seq![
            seq!['\\', c],
        ],
{
    let w = seq!['"', '\\', c, '"'];
    let w1 = w.drop_first();
    let w2 = w1.drop_first();
    let w3 = w2.drop_first();
    assert(w1 =~= seq!['\\', c, '"']);
    assert(w2 =~= seq![c, '"']);
    assert(w3 =~= seq!['"']);
    assert(w3.drop_first() =~= Seq::<char>::empty());
    assert(!is_ws('"'));
    let e = Seq::<char>::empty();
    assert(w[0] == '"' && w1[0] == '\\' && w2[0] == c && w3[0] == '"');
    assert(w2.drop_first() =~= w3);
    assert(posix_from(w, Px::Out, e, false) == posix_from(w1, Px::Double, e, true));
    if c == '"' || c == '\\' || c == '$' || c == '`' {
        assert(dq_escapable(c));
        assert(posix_from(w3, Px::Double, e.push(c), true) == posix_from(e, Px::Out, e.push(c), true));
        assert(posix_from(w1, Px::Double, e, true) == posix_from(w3, Px::Double, e.push(c), true));
        assert(e.push(c) =~= seq![c]);
    } else {
        assert(posix_from(w3, Px::Double, e.push('\\').push(c), true) == posix_from(
            e,
            Px::Out,
            e.push('\\').push(c),
            true,
        ));
        assert(posix_from(w2, Px::Double, e.push('\\'), true) == posix_from(
            w3,
            Px::Double,
            e.push('\\').push(c),
            true,
        ));
        assert(!dq_escapable(c));
        assert(posix_from(w1, Px::Double, e, true) == posix_from(w2, Px::Double, e.push('\\'), true));
        assert(e.push('\\').push(c) =~= seq!['\\', c]);
    }
}

} // verus!
