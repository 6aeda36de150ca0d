//! Profile GUIDs: the key that ties a settings entry to the fragment that defines it.
//!
//! A fragment profile without a `guid` gets the UUID v5 that Windows Terminal derives
//! from the fragment's `source` and the profile's `name`, both hashed as UTF-16LE.
use vstd::prelude::*;
use crate::text::{trim, trim_bounds, slice_to_vec, chars_of, string_of};

verus! {

/// The namespace Windows Terminal hashes fragment sources under,
/// `f65ddb7e-706b-4499-8a50-40313caf510a`.
pub const FRAGMENT_NAMESPACE: [u8; 16] = [
    0xf6u8, 0x5du8, 0xdbu8, 0x7eu8, 0x70u8, 0x6bu8, 0x44u8, 0x99u8,
    0x8au8, 0x50u8, 0x40u8, 0x31u8, 0x3cu8, 0xafu8, 0x51u8, 0x0au8,
];

/// The UTF-16 code units of one character.
pub open spec fn utf16_units(c: char) -> Seq<u16> {
    let v = c as u32;
    if v < 0x10000 {
        seq![v as u16]
    } else {
        seq![(0xD800 + (v - 0x10000) / 0x400) as u16, (0xDC00 + (v - 0x10000) % 0x400) as u16]
    }
}

/// A code unit as two little-endian bytes.
pub open spec fn unit_le(u: u16) -> Seq<u8> {
    seq![(u % 256) as u8, (u / 256) as u8]
}

/// The little-endian bytes of the UTF-16 code units of one character.
pub open spec fn char_utf16le(c: char) -> Seq<u8> {
    let us = utf16_units(c);
    if us.len() == 1 {
        unit_le(us[0])
    } else {
        unit_le(us[0]) + unit_le(us[1])
    }
}

/// `s` encoded as UTF-16LE.
pub open spec fn spec_utf16le(s: Seq<char>) -> Seq<u8>
    decreases s.len(),
{
    if s.len() == 0 {
        Seq::empty()
    } else {
        spec_utf16le(s.drop_last()) + char_utf16le(s.last())
    }
}

fn push_unit_le(out: &mut Vec<u8>, u: u32)
    requires
        u < 0x10000,
    ensures
        final(out)@ == old(out)@ + unit_le(u as u16),
{
    let lo = (u % 256) as u8;
    let hi = (u / 256) as u8;
    out.push(lo);
    out.push(hi);
    assert(final(out)@ =~= old(out)@ + unit_le(u as u16));
}

/// `s` encoded as UTF-16LE: each character's code units, low byte first.
pub fn utf16le(s: &str) -> (r: Vec<u8>)
    ensures
        r@ == spec_utf16le(s@),
{
    let cs = chars_of(s);
    let mut out: Vec<u8> = Vec::new();
    let mut i: usize = 0;
    while i < cs.len()
        invariant
            i <= cs.len(),
            cs@ == s@,
            out@ == spec_utf16le(cs@.subrange(0, i as int)),
        decreases cs.len() - i,
    {
        let c = cs[i];
        let v = c as u32;
        proof {
            vstd::utf8::char_is_scalar(c);
            let p = cs@.subrange(0, i + 1);
            assert(p.drop_last() =~= cs@.subrange(0, i as int));
            assert(p.last() == c);
        }
        if v < 0x10000 {
            push_unit_le(&mut out, v);
        } else {
            let w = v - 0x10000;
            push_unit_le(&mut out, 0xD800 + w / 0x400);
            push_unit_le(&mut out, 0xDC00 + w % 0x400);
        }
        i = i + 1;
    }
    assert(cs@.subrange(0, cs.len() as int) =~= cs@);
    out
}

/// Names the UUID v5 (SHA-1 of `namespace` followed by `name`, with the version and
/// variant bits set) that `uuid` computes, as its 16 bytes.
pub uninterp spec fn spec_uuid_v5(namespace: Seq<u8>, name: Seq<u8>) -> Seq<u8>;

/// `uuid::Uuid::new_v5`. The bytes are a function of `namespace` and `name` alone;
/// the contract names them, and states of them only what `Builder::from_sha1_bytes`
/// sets: the version nibble 5 and the RFC 4122 variant.
#[verifier::external_body]
fn uuid_v5(namespace: &[u8; 16], name: &[u8]) -> (r: [u8; 16])
    ensures
        r@ == spec_uuid_v5(namespace@, name@),
        r@[6] / 16 == 5,
        r@[8] / 64 == 2,
{
    *uuid::Uuid::new_v5(&uuid::Uuid::from_bytes(*namespace), name).as_bytes()
}

/// A lowercase hexadecimal digit.
pub open spec fn hex_digit(n: u8) -> char {
    if n < 10 {
        (48 + n) as char
    } else {
        (87 + n) as char
    }
}

/// The hyphenated lowercase text of the first `n` bytes of a UUID
/// (`8-4-4-4-12` digits once all 16 are written).
pub open spec fn uuid_text_prefix(b: Seq<u8>, n: int) -> Seq<char>
    decreases n,
{
    if n <= 0 {
        Seq::empty()
    } else {
        let k = n - 1;
        uuid_text_prefix(b, k) + (if k == 4 || k == 6 || k == 8 || k == 10 {
            seq!['-']
        } else {
            Seq::empty()
        }) + seq![hex_digit(b[k] / 16), hex_digit(b[k] % 16)]
    }
}

/// The braced, hyphenated, lowercase text of a UUID, as Windows Terminal writes
/// profile GUIDs.
pub open spec fn braced_uuid(b: Seq<u8>) -> Seq<char> {
    seq!['{'] + uuid_text_prefix(b, 16) + seq!['}']
}

fn hex_char(n: u8) -> (c: char)
    requires
        n < 16,
    ensures
        c == hex_digit(n),
{
    if n < 10 {
        ((48 + n) as char)
    } else {
        ((87 + n) as char)
    }
}

/// `{xxxxxxxx-xxxx-xxxx-xxxx-xxxxxxxxxxxx}` for the 16 bytes of a UUID.
pub fn format_guid(bytes: &[u8; 16]) -> (r: String)
    ensures
        r@ == braced_uuid(bytes@),
{
    let mut out: Vec<char> = Vec::new();
    out.push('{');
    let mut i: usize = 0;
    while i < 16
        invariant
            i <= 16,
            bytes@.len() == 16,
            out@ == seq!['{'] + uuid_text_prefix(bytes@, i as int),
        decreases 16 - i,
    {
        if i == 4 || i == 6 || i == 8 || i == 10 {
            out.push('-');
        }
        let b = bytes[i];
        out.push(hex_char(b / 16));
        out.push(hex_char(b % 16));
        i = i + 1;
        assert(out@ =~= seq!['{'] + uuid_text_prefix(bytes@, i as int));
    }
    out.push('}');
    assert(out@ =~= braced_uuid(bytes@));
    string_of(out.as_slice())
}

/// The GUID Windows Terminal gives a fragment profile that names none.
pub open spec fn spec_fragment_guid(source: Seq<char>, name: Seq<char>) -> Seq<char> {
    braced_uuid(
        spec_uuid_v5(
            spec_uuid_v5(FRAGMENT_NAMESPACE@, spec_utf16le(source)),
            spec_utf16le(name),
        ),
    )
}

/// The GUID of a fragment profile without one: UUID v5 of the UTF-16LE `name` under
/// the UUID v5 of the UTF-16LE `source` under the fragment namespace, braced and
/// lowercase as settings.json writes it.
pub fn fragment_profile_guid(source: &str, name: &str) -> (r: String)
    ensures
        r@ == spec_fragment_guid(source@, name@),
{
    let ns = FRAGMENT_NAMESPACE;
    let app_ns = uuid_v5(&ns, utf16le(source).as_slice());
    let id = uuid_v5(&app_ns, utf16le(name).as_slice());
    format_guid(&id)
}

/// ASCII uppercase letters lowered; everything else kept.
pub open spec fn ascii_lower(c: char) -> char {
    if 'A' <= c <= 'Z' {
        ((c as u32) + 32) as char
    } else {
        c
    }
}

/// The comparison key of a GUID as written anywhere: trimmed, at most one brace
/// taken off each end, trimmed again, ASCII lowercase, braced.
pub open spec fn spec_guid_key(s: Seq<char>) -> Seq<char> {
    let t = trim(s);
    let a = if t.len() > 0 && t[0] == '{' {
        t.drop_first()
    } else {
        t
    };
    let b = if a.len() > 0 && a.last() == '}' {
        a.drop_last()
    } else {
        a
    };
    seq!['{'] + trim(b).map_values(|c: char| ascii_lower(c)) + seq!['}']
}

fn lower_char(c: char) -> (r: char)
    ensures
        r == ascii_lower(c),
{
    if 'A' <= c && c <= 'Z' {
        let v = c as u32;
        ((v + 32) as u8) as char
    } else {
        c
    }
}

/// The key GUIDs are matched by, so `{EE60…}` in settings finds `{ee60…}` in a
/// fragment.
pub fn guid_key(s: &str) -> (r: String)
    ensures
        r@ == spec_guid_key(s@),
{
    let v = chars_of(s);
    let (a0, b0) = trim_bounds(&v);
    let t = slice_to_vec(&v, a0, b0);
    let mut a: usize = 0;
    let mut b: usize = t.len();
    if b > 0 && t[0] == '{' {
        a = 1;
    }
    if b > a && t[b - 1] == '}' {
        b = b - 1;
    }
    let inner = slice_to_vec(&t, a, b);
    proof {
        let tt = trim(s@);
        let aa = if tt.len() > 0 && tt[0] == '{' { tt.drop_first() } else { tt };
        assert(t@ == tt);
        assert(aa =~= t@.subrange(a as int, t@.len() as int));
        if aa.len() > 0 && aa.last() == '}' {
            assert(inner@ =~= aa.drop_last());
        } else {
            assert(inner@ =~= aa);
        }
    }
    let (c0, d0) = trim_bounds(&inner);
    let mut out: Vec<char> = Vec::new();
    out.push('{');
    let mut i: usize = c0;
    while i < d0
        invariant
            c0 <= i <= d0 <= inner.len(),
            out@ == seq!['{'] + inner@.subrange(c0 as int, i as int).map_values(
                |c: char| ascii_lower(c),
            ),
        decreases d0 - i,
    {
        out.push(lower_char(inner[i]));
        i = i + 1;
        assert(out@ =~= seq!['{'] + inner@.subrange(c0 as int, i as int).map_values(
            |c: char| ascii_lower(c),
        ));
    }
    out.push('}');
    assert(out@ =~= spec_guid_key(s@));
    string_of(out.as_slice())
}

} // verus!
