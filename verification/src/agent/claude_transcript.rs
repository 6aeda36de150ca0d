//! An agent's JSONL transcript, normalised into the chat view's messages.
//!
//! The input is a whole window of text; each line is one record. A line that cannot
//! be read (windows are cut by bytes, so the first and last lines are often halves)
//! is skipped alone. A message read twice gets the same id: it comes from the
//! record's own id, else from a hash of its content, never from a reading position.
use vstd::prelude::*;
use vstd::string::StringSliceAdditionalSpecFns;
use crate::json::{Json, JsonView, jview, spec_get, spec_get_str, spec_json_compact, json_to_string, parse_json, spec_parse_json};
use crate::text::{trim, trim_string, str_eq, chars_of, string_of};
use crate::launcher::windows_terminal::guid::hex_digit;
use super::transcript::{Block, Message, Role, clamp_text, spec_clamp_text, flatten_tool_input, spec_flatten_tool_input};

verus! {

/// Rust's `/` on integers: rounds toward zero.
pub open spec fn tdiv(a: int, b: int) -> int
    recommends
        b > 0,
{
    if a >= 0 {
        a / b
    } else {
        -((-a) / b)
    }
}

pub open spec fn is_digit(b: u8) -> bool {
    48 <= b <= 57
}

/// Value of the ASCII decimal digits `s`.
pub open spec fn digits_value(s: Seq<u8>) -> int
    decreases s.len(),
{
    if s.len() == 0 {
        0
    } else {
        digits_value(s.drop_last()) * 10 + (s.last() - 48)
    }
}

pub open spec fn all_digits(t: Seq<u8>) -> bool {
    forall|i: int| 0 <= i < t.len() ==> is_digit(#[trigger] t[i])
}

/// `str::parse::<i64>` of a short field: an optional `+` or `-`, then at least one
/// decimal digit and nothing else.
pub open spec fn parse_small_int(s: Seq<u8>) -> Option<int> {
    let signed = s.len() > 0 && (s[0] == 43 || s[0] == 45);
    let neg = s.len() > 0 && s[0] == 45;
    let body = if signed {
        s.drop_first()
    } else {
        s
    };
    if body.len() > 0 && all_digits(body) {
        Some(
            if neg {
                -digits_value(body)
            } else {
                digits_value(body)
            },
        )
    } else {
        None
    }
}

/// Unix seconds of a civil date and time (proleptic Gregorian calendar, through the
/// Julian day number, with Rust's rounding-toward-zero division).
pub open spec fn unix_seconds(y: int, mo: int, d: int, h: int, mi: int, se: int) -> int {
    let a = tdiv(14 - mo, 12);
    let yy = y + 4800 - a;
    let mm = mo + 12 * a - 3;
    let jdn = d + tdiv(153 * mm + 2, 5) + 365 * yy + tdiv(yy, 4) - tdiv(yy, 100) + tdiv(yy, 400)
        - 32045;
    (jdn - 2_440_588) * 86_400 + h * 3600 + mi * 60 + se
}

/// The field `b[a..z]` as a number.
pub open spec fn field(b: Seq<u8>, a: int, z: int) -> Option<int> {
    parse_small_int(b.subrange(a, z))
}

/// What `parse_ts` makes of the UTF-8 bytes `b` of a timestamp: the prefix
/// `YYYY-MM-DDTHH:MM:SS` read as UTC, or `None` when the shape or a number is wrong or
/// the instant lies before 1970.
pub open spec fn spec_parse_ts(b: Seq<u8>) -> Option<u64> {
    if b.len() < 19 || b[4] != 45 || b[7] != 45 || b[10] != 84 {
        None
    } else {
        match (field(b, 0, 4), field(b, 5, 7), field(b, 8, 10), field(b, 11, 13), field(b, 14, 16), field(b, 17, 19)) {
            (Some(y), Some(mo), Some(d), Some(h), Some(mi), Some(se)) => {
                let secs = unix_seconds(y, mo, d, h, mi, se);
                if 0 <= secs <= u64::MAX {
                    Some(secs as u64)
                } else {
                    None
                }
            },
            _ => None,
        }
    }
}

/// `b[a..z]` read as a small signed decimal (see [`parse_small_int`]).
fn parse_field(b: &[u8], a: usize, z: usize) -> (r: Option<i64>)
    requires
        a < z <= b.len(),
        z - a <= 4,
    ensures
        match field(b@, a as int, z as int) {
            Some(v) => r == Some(v as i64) && -9999 <= v <= 9999,
            None => r is None,
        },
{
    let ghost s = b@.subrange(a as int, z as int);
    let neg = b[a] == 45;
    let signed = b[a] == 43 || b[a] == 45;
    let start = if signed {
        a + 1
    } else {
        a
    };
    let ghost body = if signed {
        s.drop_first()
    } else {
        s
    };
    assert(s.len() > 0 && s[0] == b@[a as int]);
    assert(body =~= b@.subrange(start as int, z as int));
    proof {
        lemma_pow10_le4();
    }
    if start >= z {
        return None;
    }
    let mut v: i64 = 0;
    let mut i = start;
    while i < z
        invariant
            a < z,
            a <= start <= i <= z <= b.len(),
            z - start <= 4,
            body == b@.subrange(start as int, z as int),
            forall|k: int| 0 <= k < i - start ==> is_digit(#[trigger] body[k]),
            v == digits_value(body.subrange(0, i - start)),
            0 <= v < pow10((i - start) as nat),
            pow10(0) == 1 && pow10(1) == 10 && pow10(2) == 100 && pow10(3) == 1000 && pow10(4) == 10000,
            s == b@.subrange(a as int, z as int),
            body == (if signed { s.drop_first() } else { s }),
            neg == (s[0] == 45),
            signed == (s[0] == 43 || s[0] == 45),
        decreases z - i,
    {
        let c = b[i];
        if c < 48 || c > 57 {
            assert(body[i - start] == c);
            assert(!is_digit(body[i - start]));
            let ghost sb = if s.len() > 0 && (s[0] == 43 || s[0] == 45) {
                s.drop_first()
            } else {
                s
            };
            assert(sb == body);
            assert(0 <= i - start < sb.len() && !is_digit(sb[i - start]));
            assert(!all_digits(sb));
            assert(parse_small_int(s) is None);
            return None;
        }
        proof {
            let t = body.subrange(0, i + 1 - start);
            assert(t.drop_last() =~= body.subrange(0, i - start));
            assert(t.last() == c);
            lemma_pow10_step((i - start) as nat);
        }
        v = v * 10 + (c - 48) as i64;
        i = i + 1;
    }
    assert(body.subrange(0, z - start) =~= body);
    proof {
        lemma_pow10_le4();
    }
    if neg {
        Some(-v)
    } else {
        Some(v)
    }
}

pub open spec fn pow10(n: nat) -> int
    decreases n,
{
    if n == 0 {
        1
    } else {
        10 * pow10((n - 1) as nat)
    }
}

proof fn lemma_pow10_step(n: nat)
    ensures
        pow10(n + 1) == 10 * pow10(n),
{
}

proof fn lemma_pow10_le4()
    ensures
        pow10(0) == 1,
        pow10(1) == 10,
        pow10(2) == 100,
        pow10(3) == 1000,
        pow10(4) == 10000,
{
    reveal_with_fuel(pow10, 5);
}

fn civil_to_unix(y: i64, mo: i64, d: i64, h: i64, mi: i64, se: i64) -> (r: i64)
    requires
        -9999 <= y <= 9999,
        -9999 <= mo <= 9999,
        -9999 <= d <= 9999,
        -9999 <= h <= 9999,
        -9999 <= mi <= 9999,
        -9999 <= se <= 9999,
    ensures
        r == unix_seconds(y as int, mo as int, d as int, h as int, mi as int, se as int),
{
    let a = (14 - mo) / 12;
    let yy = y + 4800 - a;
    let mm = mo + 12 * a - 3;
    let jdn = d + (153 * mm + 2) / 5 + 365 * yy + yy / 4 - yy / 100 + yy / 400 - 32045;
    (jdn - 2_440_588) * 86_400 + h * 3600 + mi * 60 + se
}

/// ISO 8601 timestamp → Unix seconds, for the prefix `YYYY-MM-DDTHH:MM:SS` only (no
/// date library); `None` when that shape is not there.
pub fn parse_ts(s: &str) -> (r: Option<u64>)
    ensures
        r == spec_parse_ts(s.spec_bytes()),
{
    let b = s.as_bytes();
    if b.len() < 19 || b[4] != 45 || b[7] != 45 || b[10] != 84 {
        return None;
    }
    let y = match parse_field(b, 0, 4) {
        Some(v) => v,
        None => return None,
    };
    let mo = match parse_field(b, 5, 7) {
        Some(v) => v,
        None => return None,
    };
    let d = match parse_field(b, 8, 10) {
        Some(v) => v,
        None => return None,
    };
    let h = match parse_field(b, 11, 13) {
        Some(v) => v,
        None => return None,
    };
    let mi = match parse_field(b, 14, 16) {
        Some(v) => v,
        None => return None,
    };
    let se = match parse_field(b, 17, 19) {
        Some(v) => v,
        None => return None,
    };
    let secs = civil_to_unix(y, mo, d, h, mi, se);
    if secs >= 0 {
        Some(secs as u64)
    } else {
        None
    }
}

} // verus!

verus! {

/// A block as plain values.
pub ghost enum BlockView {
    Text(Seq<char>),
    Thinking(Seq<char>),
    ToolUse(Seq<char>, Seq<char>),
    ToolResult(bool, Seq<char>),
}

pub open spec fn bview(b: Block) -> BlockView {
    match b {
        Block::Text { text } => BlockView::Text(text@),
        Block::Thinking { text } => BlockView::Thinking(text@),
        Block::ToolUse { name, input } => BlockView::ToolUse(name@, input@),
        Block::ToolResult { ok, text } => BlockView::ToolResult(ok, text@),
    }
}

pub open spec fn bviews(s: Seq<Block>) -> Seq<BlockView> {
    s.map_values(|b: Block| bview(b))
}

/// The string member `key`, or the empty string.
pub open spec fn str_or_empty(b: Json, key: Seq<char>) -> Seq<char> {
    match spec_get_str(b, key) {
        Some(s) => s,
        None => Seq::empty(),
    }
}

/// The texts of the items that have a string `text`, in order.
pub open spec fn texts_of(items: Seq<Json>) -> Seq<Seq<char>>
    decreases items.len(),
{
    if items.len() == 0 {
        Seq::empty()
    } else {
        texts_of(items.drop_last()) + match spec_get_str(items.last(), "text"@) {
            Some(t) => seq![t],
            None => Seq::empty(),
        }
    }
}

/// Lines joined by `\n`.
pub open spec fn join_lines(parts: Seq<Seq<char>>) -> Seq<char>
    decreases parts.len(),
{
    if parts.len() == 0 {
        Seq::empty()
    } else if parts.len() == 1 {
        parts[0]
    } else {
        join_lines(parts.drop_last()) + seq!['\n'] + parts.last()
    }
}

/// A tool result's content as text: a string as it is; a list of blocks by their
/// texts, one per line; anything else as compact JSON; nothing as empty.
pub open spec fn spec_result_text(v: Option<Json>) -> Seq<char> {
    match v {
        Some(Json::Str(s)) => s@,
        Some(Json::Array(items)) => join_lines(texts_of(items@)),
        Some(other) => spec_json_compact(jview(other)),
        None => Seq::empty(),
    }
}

/// One content block of a record. Blocks of a kind not known here are dropped, not
/// passed on: passing them would let clients depend on the agent's internals.
pub open spec fn spec_parse_block(b: Json) -> Option<BlockView> {
    match spec_get_str(b, "type"@) {
        Some(t) => if t == "text"@ {
            Some(BlockView::Text(spec_clamp_text(str_or_empty(b, "text"@))))
        } else if t == "thinking"@ {
            Some(BlockView::Thinking(spec_clamp_text(str_or_empty(b, "thinking"@))))
        } else if t == "tool_use"@ {
            Some(BlockView::ToolUse(
                match spec_get_str(b, "name"@) {
                    Some(n) => n,
                    None => "?"@,
                },
                spec_flatten_tool_input(match spec_get(b, "input"@) {
                    Some(x) => x,
                    None => Json::Null,
                }),
            ))
        } else if t == "tool_result"@ {
            Some(BlockView::ToolResult(
                !(match spec_get(b, "is_error"@) {
                    Some(Json::Bool(e)) => e,
                    _ => false,
                }),
                spec_clamp_text(spec_result_text(spec_get(b, "content"@))),
            ))
        } else {
            None
        },
        None => None,
    }
}

fn get_str_owned(b: &Json, key: &str) -> (r: Option<String>)
    ensures
        match r {
            Some(s) => spec_get_str(*b, key@) == Some(s@),
            None => spec_get_str(*b, key@) is None,
        },
{
    match b.get(key) {
        Some(v) => match v.as_str() {
            Some(t) => Some(t.to_string()),
            None => None,
        },
        None => None,
    }
}

fn str_or_empty_exec(b: &Json, key: &str) -> (r: String)
    ensures
        r@ == str_or_empty(*b, key@),
{
    match get_str_owned(b, key) {
        Some(s) => s,
        None => String::new(),
    }
}

fn result_text(v: Option<&Json>) -> (r: String)
    ensures
        r@ == spec_result_text(match v {
            Some(x) => Some(*x),
            None => None,
        }),
{
    match v {
        Some(Json::Str(s)) => s.clone(),
        Some(Json::Array(items)) => {
            let mut out: Vec<char> = Vec::new();
            let mut any = false;
            let mut i: usize = 0;
            while i < items.len()
                invariant
                    i <= items.len(),
                    any == (texts_of(items@.subrange(0, i as int)).len() > 0),
                    out@ == join_lines(texts_of(items@.subrange(0, i as int))),
                decreases items.len() - i,
            {
                let ghost pre = items@.subrange(0, i as int);
                assert(items@.subrange(0, i + 1).drop_last() =~= pre);
                assert(items@.subrange(0, i + 1).last() == items@[i as int]);
                if let Some(t) = get_str_owned(&items[i], "text") {
                    let ghost o0 = out@;
                    let ghost parts = texts_of(pre).push(t@);
                    assert(texts_of(items@.subrange(0, i + 1)) =~= parts);
                    assert(parts.drop_last() =~= texts_of(pre));
                    if any {
                        out.push('\n');
                    }
                    let tc = chars_of(t.as_str());
                    let mut k: usize = 0;
                    while k < tc.len()
                        invariant
                            k <= tc.len(),
                            out@ == (if any { o0 + seq!['\n'] } else { o0 }) + tc@.subrange(0, k as int),
                        decreases tc.len() - k,
                    {
                        out.push(tc[k]);
                        k = k + 1;
                        assert(out@ =~= (if any { o0 + seq!['\n'] } else { o0 }) + tc@.subrange(0, k as int));
                    }
                    assert(tc@.subrange(0, tc.len() as int) =~= tc@);
                    if !any {
                        assert(o0 =~= Seq::<char>::empty());
                        assert(out@ =~= t@);
                    }
                    any = true;
                } else {
                    assert(texts_of(items@.subrange(0, i + 1)) =~= texts_of(pre));
                }
                i = i + 1;
            }
            assert(items@.subrange(0, items.len() as int) =~= items@);
            string_of(out.as_slice())
        },
        Some(other) => json_to_string(other),
        None => String::new(),
    }
}

fn parse_block(b: &Json) -> (r: Option<Block>)
    ensures
        match r {
            Some(x) => spec_parse_block(*b) == Some(bview(x)),
            None => spec_parse_block(*b) is None,
        },
{
    let t = match get_str_owned(b, "type") {
        Some(t) => t,
        None => return None,
    };
    proof {
        reveal_strlit("text");
        reveal_strlit("thinking");
        reveal_strlit("tool_use");
        reveal_strlit("tool_result");
    }
    if str_eq(t.as_str(), "text") {
        Some(Block::Text { text: clamp_text(str_or_empty_exec(b, "text")) })
    } else if str_eq(t.as_str(), "thinking") {
        Some(Block::Thinking { text: clamp_text(str_or_empty_exec(b, "thinking")) })
    } else if str_eq(t.as_str(), "tool_use") {
        let name = match get_str_owned(b, "name") {
            Some(n) => n,
            None => String::from_str("?"),
        };
        let input = match b.get("input") {
            Some(x) => flatten_tool_input(x),
            None => flatten_tool_input(&Json::Null),
        };
        Some(Block::ToolUse { name, input })
    } else if str_eq(t.as_str(), "tool_result") {
        let is_error = match b.get("is_error") {
            Some(Json::Bool(e)) => *e,
            _ => false,
        };
        Some(Block::ToolResult { ok: !is_error, text: clamp_text(result_text(b.get("content"))) })
    } else {
        None
    }
}

/// A block as it goes on the wire: tagged by `kind`, in kebab case, then its fields.
pub open spec fn block_json(b: BlockView) -> JsonView {
    match b {
        BlockView::Text(t) => JsonView::Object(seq![("kind"@, JsonView::Str("text"@)), ("text"@, JsonView::Str(t))]),
        BlockView::Thinking(t) => JsonView::Object(seq![("kind"@, JsonView::Str("thinking"@)), ("text"@, JsonView::Str(t))]),
        BlockView::ToolUse(n, i) => JsonView::Object(
            seq![("kind"@, JsonView::Str("tool-use"@)), ("name"@, JsonView::Str(n)), ("input"@, JsonView::Str(i))],
        ),
        BlockView::ToolResult(ok, t) => JsonView::Object(
            seq![("kind"@, JsonView::Str("tool-result"@)), ("ok"@, JsonView::Bool(ok)), ("text"@, JsonView::Str(t))],
        ),
    }
}

fn member(ms: &mut Vec<(String, Json)>, key: &str, v: Json)
    ensures
        crate::json::mviews(final(ms)@) == crate::json::mviews(old(ms)@) + seq![(key@, jview(v))],
{
    let ghost m0 = ms@;
    ms.push((key.to_string(), v));
    assert(ms@.drop_last() =~= m0);
}

fn to_json(b: &Block) -> (r: Json)
    ensures
        jview(r) == block_json(bview(*b)),
{
    let mut ms: Vec<(String, Json)> = Vec::new();
    assert(crate::json::mviews(ms@) =~= Seq::empty());
    match b {
        Block::Text { text } => {
            member(&mut ms, "kind", Json::Str(String::from_str("text")));
            member(&mut ms, "text", Json::Str(text.clone()));
            assert(crate::json::mviews(ms@) =~= seq![("kind"@, JsonView::Str("text"@)), ("text"@, JsonView::Str(text@))]);
        },
        Block::Thinking { text } => {
            member(&mut ms, "kind", Json::Str(String::from_str("thinking")));
            member(&mut ms, "text", Json::Str(text.clone()));
            assert(crate::json::mviews(ms@) =~= seq![("kind"@, JsonView::Str("thinking"@)), ("text"@, JsonView::Str(text@))]);
        },
        Block::ToolUse { name, input } => {
            member(&mut ms, "kind", Json::Str(String::from_str("tool-use")));
            member(&mut ms, "name", Json::Str(name.clone()));
            member(&mut ms, "input", Json::Str(input.clone()));
            assert(crate::json::mviews(ms@) =~= seq![("kind"@, JsonView::Str("tool-use"@)), ("name"@, JsonView::Str(name@)), ("input"@, JsonView::Str(input@))]);
        },
        Block::ToolResult { ok, text } => {
            member(&mut ms, "kind", Json::Str(String::from_str("tool-result")));
            member(&mut ms, "ok", Json::Bool(*ok));
            member(&mut ms, "text", Json::Str(text.clone()));
            assert(crate::json::mviews(ms@) =~= seq![("kind"@, JsonView::Str("tool-result"@)), ("ok"@, JsonView::Bool(*ok)), ("text"@, JsonView::Str(text@))]);
        },
    }
    Json::Object(ms)
}

/// FNV-1a's offset basis and prime (64-bit).
pub const FNV_OFFSET: u64 = 0xcbf2_9ce4_8422_2325;
pub const FNV_PRIME: u64 = 0x0000_0100_0000_01b3;

/// FNV-1a over bytes.
pub open spec fn fnv_bytes(h: u64, bytes: Seq<u8>) -> u64
    decreases bytes.len(),
{
    if bytes.len() == 0 {
        h
    } else {
        (fnv_bytes(h, bytes.drop_last()) ^ (bytes.last() as u64)).wrapping_mul(FNV_PRIME)
    }
}

/// FNV-1a over the blocks' wire text (UTF-8), one block after another.
pub open spec fn fnv_blocks(h: u64, bs: Seq<BlockView>) -> u64
    decreases bs.len(),
{
    if bs.len() == 0 {
        h
    } else {
        fnv_bytes(fnv_blocks(h, bs.drop_last()), vstd::utf8::encode_utf8(spec_json_compact(block_json(bs.last()))))
    }
}

/// The `n` low hexadecimal digits of `h`, zero padded, most significant first.
pub open spec fn hex_n(h: u64, n: nat) -> Seq<char>
    decreases n,
{
    if n == 0 {
        Seq::empty()
    } else {
        hex_n(h / 16, (n - 1) as nat).push(hex_digit((h % 16) as u8))
    }
}

/// The id a record without its own gets: `h` and the FNV-1a hash of its blocks in 16
/// hexadecimal digits.
pub open spec fn content_id(bs: Seq<BlockView>) -> Seq<char> {
    seq!['h'] + hex_n(fnv_blocks(FNV_OFFSET, bs), 16)
}

/// A message's id: the record's `uuid`, else its `id`, else its message's `id`, else
/// a hash of its content.
pub open spec fn spec_message_id(row: Json, bs: Seq<BlockView>) -> Seq<char> {
    match spec_get_str(row, "uuid"@) {
        Some(v) => v,
        None => match spec_get_str(row, "id"@) {
            Some(v) => v,
            None => match spec_get(row, "message"@) {
                Some(m) => match spec_get_str(m, "id"@) {
                    Some(v) => v,
                    None => content_id(bs),
                },
                None => content_id(bs),
            },
        },
    }
}

fn hex_into(h: u64, n: usize, out: &mut Vec<char>)
    ensures
        final(out)@ == old(out)@ + hex_n(h, n as nat),
    decreases n,
{
    if n > 0 {
        hex_into(h / 16, n - 1, out);
        let d = (h % 16) as u8;
        let c = if d < 10 {
            (48u8 + d) as char
        } else {
            (87u8 + d) as char
        };
        assert(c == hex_digit(d));
        out.push(c);
    }
}

fn content_hash(blocks: &Vec<Block>) -> (r: String)
    ensures
        r@ == content_id(bviews(blocks@)),
{
    let mut h: u64 = FNV_OFFSET;
    let mut i: usize = 0;
    while i < blocks.len()
        invariant
            i <= blocks.len(),
            h == fnv_blocks(FNV_OFFSET, bviews(blocks@.subrange(0, i as int))),
        decreases blocks.len() - i,
    {
        let j = to_json(&blocks[i]);
        let text = json_to_string(&j);
        let bytes = text.as_str().as_bytes();
        let ghost h0 = h;
        let mut k: usize = 0;
        while k < bytes.len()
            invariant
                k <= bytes.len(),
                h == fnv_bytes(h0, bytes@.subrange(0, k as int)),
            decreases bytes.len() - k,
        {
            assert(bytes@.subrange(0, k + 1).drop_last() =~= bytes@.subrange(0, k as int));
            h = (h ^ (bytes[k] as u64)).wrapping_mul(FNV_PRIME);
            k = k + 1;
        }
        assert(bytes@.subrange(0, bytes.len() as int) =~= bytes@);
        proof {
            let pre = bviews(blocks@.subrange(0, i as int));
            let post = bviews(blocks@.subrange(0, i + 1));
            assert(post.drop_last() =~= pre);
            assert(post.last() == bview(blocks@[i as int]));
        }
        i = i + 1;
    }
    assert(blocks@.subrange(0, blocks.len() as int) =~= blocks@);
    let mut out: Vec<char> = Vec::new();
    out.push('h');
    hex_into(h, 16, &mut out);
    string_of(out.as_slice())
}

fn message_id(row: &Json, blocks: &Vec<Block>) -> (r: String)
    ensures
        r@ == spec_message_id(*row, bviews(blocks@)),
{
    if let Some(v) = get_str_owned(row, "uuid") {
        return v;
    }
    if let Some(v) = get_str_owned(row, "id") {
        return v;
    }
    if let Some(m) = row.get("message") {
        if let Some(v) = get_str_owned(m, "id") {
            return v;
        }
    }
    content_hash(blocks)
}

/// A message as plain values.
pub ghost struct MessageView {
    pub id: Seq<char>,
    pub role: Role,
    pub ts: Option<u64>,
    pub blocks: Seq<BlockView>,
}

pub open spec fn mview(m: Message) -> MessageView {
    MessageView { id: m.id@, role: m.role, ts: m.ts, blocks: bviews(m.blocks@) }
}

/// The blocks of a content list that are kept, in order.
pub open spec fn spec_blocks_of(items: Seq<Json>) -> Seq<BlockView>
    decreases items.len(),
{
    if items.len() == 0 {
        Seq::empty()
    } else {
        spec_blocks_of(items.drop_last()) + match spec_parse_block(items.last()) {
            Some(b) => seq![b],
            None => Seq::empty(),
        }
    }
}

/// One line of the transcript: a user or assistant record with a non-empty content;
/// anything else (blank, not JSON, another record type, no content) is skipped.
#[verifier::opaque]
pub open spec fn spec_parse_line(line: Seq<char>) -> Option<MessageView> {
    let t = trim(line);
    if t.len() == 0 {
        None
    } else {
        match spec_parse_json(t) {
            None => None,
            Some(row) => {
                let role = match spec_get_str(row, "type"@) {
                    Some(k) => if k == "user"@ {
                        Some(Role::User)
                    } else if k == "assistant"@ {
                        Some(Role::Assistant)
                    } else {
                        None
                    },
                    None => None,
                };
                match (role, spec_get(row, "message"@)) {
                    (Some(r), Some(m)) => {
                        let blocks = match spec_get(m, "content"@) {
                            Some(Json::Str(c)) => Some(seq![BlockView::Text(spec_clamp_text(c@))]),
                            Some(Json::Array(items)) => Some(spec_blocks_of(items@)),
                            _ => None,
                        };
                        match blocks {
                            Some(bs) => if bs.len() == 0 {
                                None
                            } else {
                                Some(MessageView {
                                    id: spec_message_id(row, bs),
                                    role: r,
                                    ts: match spec_get_str(row, "timestamp"@) {
                                        Some(ts) => spec_parse_ts(vstd::utf8::encode_utf8(ts)),
                                        None => None,
                                    },
                                    blocks: bs,
                                })
                            },
                            None => None,
                        }
                    },
                    _ => None,
                }
            },
        }
    }
}

/// The text's pieces between line feeds (a trailing line feed leaves an empty last
/// piece, which reads as nothing).
pub open spec fn split_lines(s: Seq<char>) -> Seq<Seq<char>>
    decreases s.len(),
{
    if s.len() == 0 {
        seq![Seq::empty()]
    } else {
        let p = split_lines(s.drop_last());
        if s.last() == '\n' {
            p.push(Seq::empty())
        } else {
            p.update(p.len() - 1, p.last().push(s.last()))
        }
    }
}

/// The messages of a list of lines, in order.
pub open spec fn messages_of(lines: Seq<Seq<char>>) -> Seq<MessageView>
    decreases lines.len(),
{
    if lines.len() == 0 {
        Seq::empty()
    } else {
        messages_of(lines.drop_last()) + match spec_parse_line(lines.last()) {
            Some(m) => seq![m],
            None => Seq::empty(),
        }
    }
}

fn blocks_of(items: &Vec<Json>) -> (r: Vec<Block>)
    ensures
        bviews(r@) == spec_blocks_of(items@),
{
    let mut out: Vec<Block> = Vec::new();
    let mut i: usize = 0;
    while i < items.len()
        invariant
            i <= items.len(),
            bviews(out@) == spec_blocks_of(items@.subrange(0, i as int)),
        decreases items.len() - i,
    {
        let ghost pre = items@.subrange(0, i as int);
        assert(items@.subrange(0, i + 1).drop_last() =~= pre);
        assert(items@.subrange(0, i + 1).last() == items@[i as int]);
        let ghost o0 = out@;
        match parse_block(&items[i]) {
            Some(b) => {
                out.push(b);
                assert(bviews(out@) =~= bviews(o0).push(bview(out@.last())));
            },
            None => {
                assert(spec_blocks_of(items@.subrange(0, i + 1)) =~= spec_blocks_of(pre));
            },
        }
        i = i + 1;
    }
    assert(items@.subrange(0, items.len() as int) =~= items@);
    out
}

fn parse_line(line: &str) -> (r: Option<Message>)
    ensures
        match r {
            Some(m) => spec_parse_line(line@) == Some(mview(m)),
            None => spec_parse_line(line@) is None,
        },
{
    proof {
        reveal(spec_parse_line);
    }
    let t = trim_string(line);
    if t.unicode_len() == 0 {
        return None;
    }
    let row = match parse_json(t.as_str()) {
        Ok(v) => v,
        Err(_) => return None,
    };
    proof {
        reveal_strlit("user");
        reveal_strlit("assistant");
    }
    let role = match get_str_owned(&row, "type") {
        Some(k) => {
            if str_eq(k.as_str(), "user") {
                Role::User
            } else if str_eq(k.as_str(), "assistant") {
                Role::Assistant
            } else {
                return None;
            }
        },
        None => return None,
    };
    let m = match row.get("message") {
        Some(m) => m,
        None => return None,
    };
    let blocks = match m.get("content") {
        Some(Json::Str(c)) => {
            let mut v: Vec<Block> = Vec::new();
            v.push(Block::Text { text: clamp_text(c.clone()) });
            assert(bviews(v@) =~= seq![bview(v@[0])]);
            v
        },
        Some(Json::Array(items)) => blocks_of(items),
        _ => return None,
    };
    if blocks.len() == 0 {
        return None;
    }
    let id = message_id(&row, &blocks);
    let ts = match get_str_owned(&row, "timestamp") {
        Some(s) => parse_ts(s.as_str()),
        None => None,
    };
    Some(Message { id, role, ts, blocks })
}

/// The messages of a transcript window, in order. A line that cannot be read is
/// skipped alone.
pub fn parse(text: &str) -> (r: Vec<Message>)
    ensures
        r@.map_values(|m: Message| mview(m)) == messages_of(split_lines(text@)),
{
    let cs = chars_of(text);
    let mut out: Vec<Message> = Vec::new();
    let mut line: Vec<char> = Vec::new();
    let mut i: usize = 0;
    while i < cs.len()
        invariant
            i <= cs.len(),
            cs@ == text@,
            split_lines(cs@.subrange(0, i as int)).len() >= 1,
            line@ == split_lines(cs@.subrange(0, i as int)).last(),
            out@.map_values(|m: Message| mview(m)) == messages_of(split_lines(cs@.subrange(0, i as int)).drop_last()),
        decreases cs.len() - i,
    {
        let ghost pre = cs@.subrange(0, i as int);
        let ghost post = cs@.subrange(0, i + 1);
        assert(post.drop_last() =~= pre);
        assert(post.last() == cs@[i as int]);
        if cs[i] == '\n' {
            let piece = string_of(line.as_slice());
            let ghost o0 = out@;
            match parse_line(piece.as_str()) {
                Some(m) => {
                    out.push(m);
                    assert(out@.map_values(|m: Message| mview(m)) =~= o0.map_values(|m: Message| mview(m)).push(mview(out@.last())));
                },
                None => {},
            }
            line = Vec::new();
            proof {
                let sp = split_lines(pre);
                assert(split_lines(post) == sp.push(Seq::<char>::empty()));
                assert(split_lines(post).drop_last() =~= sp);
                assert(sp =~= sp.drop_last().push(sp.last()));
                assert(messages_of(sp) == messages_of(sp.drop_last()) + match spec_parse_line(sp.last()) {
                    Some(m) => seq![m],
                    None => Seq::<MessageView>::empty(),
                });
                assert(out@.map_values(|m: Message| mview(m)) =~= messages_of(sp));
                assert(line@ =~= split_lines(post).last());
            }
        } else {
            line.push(cs[i]);
            proof {
                let sp = split_lines(pre);
                let np = split_lines(post);
                assert(np == sp.update(sp.len() - 1, sp.last().push(cs@[i as int])));
                assert(np.drop_last() =~= sp.drop_last());
            }
        }
        i = i + 1;
    }
    assert(cs@.subrange(0, cs.len() as int) =~= cs@);
    let piece = string_of(line.as_slice());
    let ghost o0 = out@;
    match parse_line(piece.as_str()) {
        Some(m) => {
            out.push(m);
            assert(out@.map_values(|m: Message| mview(m)) =~= o0.map_values(|m: Message| mview(m)).push(mview(out@.last())));
        },
        None => {},
    }
    proof {
        let sp = split_lines(cs@);
        assert(sp =~= sp.drop_last().push(sp.last()));
    }
    out
}

proof fn lemma_split_lines_nonempty(s: Seq<char>)
    ensures
        split_lines(s).len() >= 1,
    decreases s.len(),
{
    if s.len() > 0 {
        lemma_split_lines_nonempty(s.drop_last());
    }
}

proof fn lemma_split_lines_join(a: Seq<char>, b: Seq<char>)
    ensures
        split_lines(a + seq!['\n'] + b) == split_lines(a) + split_lines(b),
    decreases b.len(),
{
    let s = a + seq!['\n'] + b;
    if b.len() == 0 {
        assert(s =~= a.push('\n'));
        assert(s.drop_last() =~= a);
        assert(split_lines(a).push(Seq::empty()) =~= split_lines(a) + seq![Seq::<char>::empty()]);
    } else {
        lemma_split_lines_join(a, b.drop_last());
        lemma_split_lines_nonempty(b.drop_last());
        lemma_split_lines_nonempty(a);
        assert(s.drop_last() =~= a + seq!['\n'] + b.drop_last());
        assert(s.last() == b.last());
        let sa = split_lines(a);
        let p = split_lines(b.drop_last());
        if b.last() == '\n' {
            assert((sa + p).push(Seq::empty()) =~= sa + p.push(Seq::empty()));
        } else {
            let q = sa + p;
            assert(q.update(q.len() - 1, q.last().push(b.last())) =~= sa + p.update(p.len() - 1, p.last().push(b.last())));
        }
    }
}

proof fn lemma_messages_concat(x: Seq<Seq<char>>, y: Seq<Seq<char>>)
    ensures
        messages_of(x + y) == messages_of(x) + messages_of(y),
    decreases y.len(),
{
    if y.len() == 0 {
        assert(x + y =~= x);
        assert(messages_of(x) + messages_of(y) =~= messages_of(x));
    } else {
        lemma_messages_concat(x, y.drop_last());
        assert((x + y).drop_last() =~= x + y.drop_last());
        assert((x + y).last() == y.last());
        let extra = match spec_parse_line(y.last()) {
            Some(m) => seq![m],
            None => Seq::<MessageView>::empty(),
        };
        assert(messages_of(x) + messages_of(y.drop_last()) + extra =~= messages_of(x) + (messages_of(y.drop_last()) + extra));
    }
}

/// Lines are read independently: the messages of two texts joined by a line feed are
/// the messages of the first followed by those of the second, so a line that cannot
/// be read never affects another, and a line gives the same message wherever it is.
pub proof fn reading_distributes_over_lines(a: Seq<char>, b: Seq<char>)
    ensures
        messages_of(split_lines(a + seq!['\n'] + b)) == messages_of(split_lines(a)) + messages_of(split_lines(b)),
{
    lemma_split_lines_join(a, b);
    lemma_messages_concat(split_lines(a), split_lines(b));
}

} // verus!
