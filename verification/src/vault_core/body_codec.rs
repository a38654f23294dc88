//! JSON encoding of the vault body.
//!
//! The body is stored as compact JSON, fields in declaration order:
//! `{"version":1,"entries":[{"id":"..","title":"..","username":"..",
//! "password":"..","urls":[".."],"notes":"..","created":"..","updated":".."}]}`.
//! Strings are written as their UTF-8 bytes with `"` and `\` escaped, the
//! control characters with a short form (`\b \t \n \f \r`) written short,
//! and the other control characters as `\u00xx` with lowercase hex digits.
//!
//! The decoder accepts exactly the byte strings the encoder produces: it is
//! the encoder's inverse on its image and rejects every other input.

use vstd::prelude::*;

use crate::vault_core::entry::{
    entries_view, strings_view, Entry, EntryModel, VaultBody, VaultBodyModel,
};

verus! {

/// The bytes of `{"version":`.
pub const TOKEN_VERSION: [u8; 11] = [123, 34, 118, 101, 114, 115, 105, 111, 110, 34, 58];

/// The bytes of `,"entries":`.
pub const TOKEN_ENTRIES: [u8; 11] = [44, 34, 101, 110, 116, 114, 105, 101, 115, 34, 58];

/// The bytes of `{"id":`.
pub const TOKEN_ID: [u8; 6] = [123, 34, 105, 100, 34, 58];

/// The bytes of `,"title":`.
pub const TOKEN_TITLE: [u8; 9] = [44, 34, 116, 105, 116, 108, 101, 34, 58];

/// The bytes of `,"username":`.
pub const TOKEN_USERNAME: [u8; 12] = [44, 34, 117, 115, 101, 114, 110, 97, 109, 101, 34, 58];

/// The bytes of `,"password":`.
pub const TOKEN_PASSWORD: [u8; 12] = [44, 34, 112, 97, 115, 115, 119, 111, 114, 100, 34, 58];

/// The bytes of `,"urls":`.
pub const TOKEN_URLS: [u8; 8] = [44, 34, 117, 114, 108, 115, 34, 58];

/// The bytes of `,"notes":`.
pub const TOKEN_NOTES: [u8; 9] = [44, 34, 110, 111, 116, 101, 115, 34, 58];

/// The bytes of `,"created":`.
pub const TOKEN_CREATED: [u8; 11] = [44, 34, 99, 114, 101, 97, 116, 101, 100, 34, 58];

/// The bytes of `,"updated":`.
pub const TOKEN_UPDATED: [u8; 11] = [44, 34, 117, 112, 100, 97, 116, 101, 100, 34, 58];

const QUOTE: u8 = 34;

const BACKSLASH: u8 = 92;

const COMMA: u8 = 44;

const OPEN_BRACKET: u8 = 91;

const CLOSE_BRACKET: u8 = 93;

const CLOSE_BRACE: u8 = 125;

// ---- The encoding ----------------------------------------------------------

/// The lowercase hex digit of `n` (below 16).
pub open spec fn hex_digit(n: u8) -> u8 {
    if n < 10 {
        (48 + n) as u8
    } else {
        (87 + n) as u8
    }
}

/// How one byte of a string's UTF-8 encoding is written inside quotes.
pub open spec fn escape_byte(c: u8) -> Seq<u8> {
    if c == 34 {
        seq![92u8, 34u8]
    } else if c == 92 {
        seq![92u8, 92u8]
    } else if c == 8 {
        seq![92u8, 98u8]
    } else if c == 9 {
        seq![92u8, 116u8]
    } else if c == 10 {
        seq![92u8, 110u8]
    } else if c == 12 {
        seq![92u8, 102u8]
    } else if c == 13 {
        seq![92u8, 114u8]
    } else if c < 32 {
        seq![92u8, 117u8, 48u8, 48u8, hex_digit(c / 16), hex_digit(c % 16)]
    } else {
        seq![c]
    }
}

/// The escaped form of a byte string.
pub open spec fn escape_bytes(raw: Seq<u8>) -> Seq<u8>
    decreases raw.len(),
{
    if raw.len() == 0 {
        seq![]
    } else {
        escape_bytes(raw.drop_last()) + escape_byte(raw.last())
    }
}

/// A JSON string literal holding `s`.
pub open spec fn json_str(s: Seq<char>) -> Seq<u8> {
    seq![34u8] + escape_bytes(vstd::utf8::encode_utf8(s)) + seq![34u8]
}

/// Byte strings joined with commas.
pub open spec fn join_commas(parts: Seq<Seq<u8>>) -> Seq<u8>
    decreases parts.len(),
{
    if parts.len() == 0 {
        seq![]
    } else if parts.len() == 1 {
        parts[0]
    } else {
        join_commas(parts.drop_last()) + seq![44u8] + parts.last()
    }
}

/// The string literals of `v`.
pub open spec fn json_strs(v: Seq<Seq<char>>) -> Seq<Seq<u8>> {
    v.map_values(|s: Seq<char>| json_str(s))
}

/// The comma-separated string literals of `v`.
pub open spec fn json_str_items(v: Seq<Seq<char>>) -> Seq<u8> {
    join_commas(json_strs(v))
}

/// A JSON array of string literals.
pub open spec fn json_str_list(v: Seq<Seq<char>>) -> Seq<u8> {
    seq![91u8] + json_str_items(v) + seq![93u8]
}

/// A field name token followed by a string literal.
pub open spec fn field_json(token: Seq<u8>, s: Seq<char>) -> Seq<u8> {
    token + json_str(s)
}

/// The JSON object of one entry.
#[verifier::opaque]
pub open spec fn entry_json(e: EntryModel) -> Seq<u8> {
    field_json(TOKEN_ID@, e.id) + field_json(TOKEN_TITLE@, e.title) + field_json(
        TOKEN_USERNAME@,
        e.username,
    ) + field_json(TOKEN_PASSWORD@, e.password) + (TOKEN_URLS@ + json_str_list(e.urls))
        + field_json(TOKEN_NOTES@, e.notes) + field_json(TOKEN_CREATED@, e.created) + field_json(
        TOKEN_UPDATED@,
        e.updated,
    ) + seq![125u8]
}

/// The entry objects of `v`.
pub open spec fn entry_jsons(v: Seq<EntryModel>) -> Seq<Seq<u8>> {
    v.map_values(|e: EntryModel| entry_json(e))
}

/// The comma-separated entry objects.
pub open spec fn entry_items(v: Seq<EntryModel>) -> Seq<u8> {
    join_commas(entry_jsons(v))
}

/// The decimal digits of `v`, without leading zeros.
pub open spec fn decimal(v: nat) -> Seq<u8>
    decreases v,
{
    if v < 10 {
        seq![(48 + v) as u8]
    } else {
        decimal(v / 10) + seq![(48 + v % 10) as u8]
    }
}

/// A JSON array of entry objects.
pub open spec fn entry_list_json(v: Seq<EntryModel>) -> Seq<u8> {
    seq![91u8] + entry_items(v) + seq![93u8]
}

/// The JSON encoding of a vault body.
pub open spec fn body_json(m: VaultBodyModel) -> Seq<u8> {
    TOKEN_VERSION@ + decimal(m.version as nat) + TOKEN_ENTRIES@ + entry_list_json(m.entries)
        + seq![125u8]
}

// ---- Encoder -----------------------------------------------------------------

fn push_all(out: &mut Vec<u8>, b: &[u8])
    ensures
        final(out)@ == old(out)@ + b@,
{
    out.extend_from_slice(b);
    assert(out@ =~= old(out)@ + b@);
}

fn hex_digit_exec(n: u8) -> (r: u8)
    requires
        n < 16,
    ensures
        r == hex_digit(n),
{
    if n < 10 {
        48 + n
    } else {
        87 + n
    }
}

fn push_escaped_byte(out: &mut Vec<u8>, c: u8)
    ensures
        final(out)@ == old(out)@ + escape_byte(c),
{
    if c == 34 || c == 92 {
        out.push(BACKSLASH);
        out.push(c);
    } else if c == 8 {
        out.push(BACKSLASH);
        out.push(98);
    } else if c == 9 {
        out.push(BACKSLASH);
        out.push(116);
    } else if c == 10 {
        out.push(BACKSLASH);
        out.push(110);
    } else if c == 12 {
        out.push(BACKSLASH);
        out.push(102);
    } else if c == 13 {
        out.push(BACKSLASH);
        out.push(114);
    } else if c < 32 {
        out.push(BACKSLASH);
        out.push(117);
        out.push(48);
        out.push(48);
        out.push(hex_digit_exec(c / 16));
        out.push(hex_digit_exec(c % 16));
    } else {
        out.push(c);
    }
    assert(out@ =~= old(out)@ + escape_byte(c));
}

fn push_json_str(out: &mut Vec<u8>, s: &str)
    ensures
        final(out)@ == old(out)@ + json_str(s@),
{
    let bytes = s.as_bytes();
    let ghost raw = bytes@;
    out.push(QUOTE);
    let mut i: usize = 0;
    while i < bytes.len()
        invariant
            0 <= i <= bytes@.len(),
            raw == bytes@,
            out@ == old(out)@ + seq![34u8] + escape_bytes(raw.take(i as int)),
        decreases bytes@.len() - i,
    {
        push_escaped_byte(out, bytes[i]);
        proof {
            assert(raw.take(i + 1).drop_last() =~= raw.take(i as int));
            assert(raw.take(i + 1).last() == raw[i as int]);
        }
        i = i + 1;
        assert(out@ =~= old(out)@ + seq![34u8] + escape_bytes(raw.take(i as int)));
    }
    out.push(QUOTE);
    assert(raw.take(raw.len() as int) =~= raw);
    assert(out@ =~= old(out)@ + json_str(s@));
}

fn push_decimal(out: &mut Vec<u8>, v: u32)
    ensures
        final(out)@ == old(out)@ + decimal(v as nat),
    decreases v,
{
    if v >= 10 {
        push_decimal(out, v / 10);
    }
    out.push(48 + (v % 10) as u8);
    assert(out@ =~= old(out)@ + decimal(v as nat));
}

fn push_str_list(out: &mut Vec<u8>, v: &Vec<String>)
    ensures
        final(out)@ == old(out)@ + json_str_list(strings_view(v@)),
{
    let ghost l = strings_view(v@);
    out.push(OPEN_BRACKET);
    let mut i: usize = 0;
    while i < v.len()
        invariant
            0 <= i <= v@.len(),
            l == strings_view(v@),
            out@ == old(out)@ + seq![91u8] + json_str_items(l.take(i as int)),
        decreases v@.len() - i,
    {
        if i > 0 {
            out.push(COMMA);
        }
        push_json_str(out, v[i].as_str());
        proof {
            assert(json_strs(l.take(i + 1)).drop_last() =~= json_strs(l.take(i as int)));
            assert(json_strs(l.take(i + 1)).last() == json_str(v@[i as int]@));
        }
        i = i + 1;
        assert(out@ =~= old(out)@ + seq![91u8] + json_str_items(l.take(i as int)));
    }
    out.push(CLOSE_BRACKET);
    assert(l.take(l.len() as int) =~= l);
    assert(out@ =~= old(out)@ + json_str_list(l));
}

fn push_field(out: &mut Vec<u8>, token: &[u8], s: &String)
    ensures
        final(out)@ == old(out)@ + field_json(token@, s@),
{
    push_all(out, token);
    push_json_str(out, s.as_str());
    assert(out@ =~= old(out)@ + field_json(token@, s@));
}

fn push_entry(out: &mut Vec<u8>, e: &Entry)
    ensures
        final(out)@ == old(out)@ + entry_json(e@),
{
    let ghost o = old(out)@;
    push_field(out, &TOKEN_ID, &e.id);
    push_field(out, &TOKEN_TITLE, &e.title);
    push_field(out, &TOKEN_USERNAME, &e.username);
    push_field(out, &TOKEN_PASSWORD, &e.password);
    let ghost before_urls = out@;
    push_all(out, &TOKEN_URLS);
    push_str_list(out, &e.urls);
    assert(out@ =~= before_urls + (TOKEN_URLS@ + json_str_list(strings_view(e.urls@))));
    push_field(out, &TOKEN_NOTES, &e.notes);
    push_field(out, &TOKEN_CREATED, &e.created);
    push_field(out, &TOKEN_UPDATED, &e.updated);
    out.push(CLOSE_BRACE);
    reveal(entry_json);
    assert(out@ =~= o + entry_json(e@));
}

/// Encode a vault body as compact JSON.
pub fn encode_body(body: &VaultBody) -> (out: Vec<u8>)
    ensures
        out@ == body_json(body@),
{
    let ghost l = entries_view(body.entries@);
    let mut out: Vec<u8> = Vec::new();
    push_all(&mut out, &TOKEN_VERSION);
    push_decimal(&mut out, body.version);
    push_all(&mut out, &TOKEN_ENTRIES);
    out.push(OPEN_BRACKET);
    let ghost start = out@;
    let mut i: usize = 0;
    while i < body.entries.len()
        invariant
            0 <= i <= body.entries@.len(),
            l == entries_view(body.entries@),
            out@ == start + entry_items(l.take(i as int)),
        decreases body.entries@.len() - i,
    {
        if i > 0 {
            out.push(COMMA);
        }
        push_entry(&mut out, &body.entries[i]);
        proof {
            assert(entry_jsons(l.take(i + 1)).drop_last() =~= entry_jsons(l.take(i as int)));
            assert(entry_jsons(l.take(i + 1)).last() == entry_json(body.entries@[i as int]@));
        }
        i = i + 1;
        assert(out@ =~= start + entry_items(l.take(i as int)));
    }
    out.push(CLOSE_BRACKET);
    out.push(CLOSE_BRACE);
    assert(l.take(l.len() as int) =~= l);
    assert(out@ =~= start + entry_items(l) + seq![93u8, 125u8]);
    assert(out@ =~= body_json(body@));
    out
}

// ---- Decoder: strings ---------------------------------------------------------

/// `p` occurs in `b` at offset `pos`.
pub open spec fn prefix_at(p: Seq<u8>, b: Seq<u8>, pos: int) -> bool {
    &&& 0 <= pos
    &&& pos + p.len() <= b.len()
    &&& b.subrange(pos, pos + p.len()) == p
}

/// Splitting an occurrence of a concatenation into occurrences of its parts.
pub proof fn lemma_prefix_split(a: Seq<u8>, c: Seq<u8>, b: Seq<u8>, pos: int)
    ensures
        prefix_at(a + c, b, pos) <==> (prefix_at(a, b, pos) && prefix_at(c, b, pos + a.len())),
{
    if prefix_at(a + c, b, pos) {
        assert(b.subrange(pos, pos + a.len()) =~= (a + c).subrange(0, a.len() as int));
        assert(b.subrange(pos + a.len(), pos + a.len() + c.len()) =~= (a + c).subrange(
            a.len() as int,
            (a.len() + c.len()) as int,
        ));
        assert((a + c).subrange(0, a.len() as int) =~= a);
        assert((a + c).subrange(a.len() as int, (a.len() + c.len()) as int) =~= c);
    }
    if prefix_at(a, b, pos) && prefix_at(c, b, pos + a.len()) {
        assert(b.subrange(pos, pos + (a + c).len()) =~= a + c);
    }
}

/// The value of a lowercase hex digit.
pub open spec fn hex_value(h: u8) -> Option<u8> {
    if 48 <= h <= 57 {
        Some((h - 48) as u8)
    } else if 97 <= h <= 102 {
        Some((h - 87) as u8)
    } else {
        None
    }
}

/// The byte written by the escape unit at `i` of `b`, with the unit's
/// length; `None` where no canonical unit starts (a quote, a raw control
/// byte, an unknown or non-canonical escape, or the end of input).
pub open spec fn unit_at(b: Seq<u8>, i: int) -> Option<(u8, int)> {
    if i < 0 || i >= b.len() || b[i] == 34 || b[i] < 32 {
        None
    } else if b[i] != 92 {
        Some((b[i], 1))
    } else if i + 1 >= b.len() {
        None
    } else if b[i + 1] == 34 {
        Some((34u8, 2))
    } else if b[i + 1] == 92 {
        Some((92u8, 2))
    } else if b[i + 1] == 98 {
        Some((8u8, 2))
    } else if b[i + 1] == 116 {
        Some((9u8, 2))
    } else if b[i + 1] == 110 {
        Some((10u8, 2))
    } else if b[i + 1] == 102 {
        Some((12u8, 2))
    } else if b[i + 1] == 114 {
        Some((13u8, 2))
    } else if b[i + 1] == 117 && i + 5 < b.len() && b[i + 2] == 48 && b[i + 3] == 48 && hex_value(
        b[i + 4],
    ) is Some && hex_value(b[i + 5]) is Some {
        let v = (hex_value(b[i + 4])->0 * 16 + hex_value(b[i + 5])->0) as u8;
        if v < 32 && v != 8 && v != 9 && v != 10 && v != 12 && v != 13 {
            Some((v, 6))
        } else {
            None
        }
    } else {
        None
    }
}

proof fn lemma_hex_digit_value(n: u8)
    requires
        n < 16,
    ensures
        hex_value(hex_digit(n)) == Some(n),
{
}

proof fn lemma_hex_value_digit(h: u8)
    requires
        hex_value(h) is Some,
    ensures
        hex_digit(hex_value(h)->0) == h,
        hex_value(h)->0 < 16,
{
}

/// A decoded unit is the escape of the byte it decodes to.
proof fn lemma_unit_sound(b: Seq<u8>, i: int)
    requires
        unit_at(b, i) is Some,
    ensures
        ({
            let (c, n) = unit_at(b, i)->0;
            n == escape_byte(c).len() && prefix_at(escape_byte(c), b, i)
        }),
{
    let (c, n) = unit_at(b, i)->0;
    if b[i] == 92 && b[i + 1] == 117 {
        let d1 = hex_value(b[i + 4])->0;
        let d2 = hex_value(b[i + 5])->0;
        lemma_hex_value_digit(b[i + 4]);
        lemma_hex_value_digit(b[i + 5]);
        assert(c / 16 == d1 && c % 16 == d2);
    }
    assert(b.subrange(i, i + n) =~= escape_byte(c));
}

/// The escape of a byte decodes back to that byte.
proof fn lemma_unit_complete(c: u8, b: Seq<u8>, i: int)
    requires
        prefix_at(escape_byte(c), b, i),
    ensures
        unit_at(b, i) == Some((c, escape_byte(c).len() as int)),
        b[i] != 34,
{
    let e = escape_byte(c);
    assert(b[i] == e[0]);
    if e.len() > 1 {
        assert(b[i + 1] == e[1]);
    }
    if e.len() == 6 {
        assert(b[i + 2] == e[2]);
        assert(b[i + 3] == e[3]);
        assert(b[i + 4] == e[4]);
        assert(b[i + 5] == e[5]);
        lemma_hex_digit_value(c / 16);
        lemma_hex_digit_value(c % 16);
    }
}

/// Escaping distributes over concatenation.
pub proof fn lemma_escape_append(x: Seq<u8>, y: Seq<u8>)
    ensures
        escape_bytes(x + y) == escape_bytes(x) + escape_bytes(y),
    decreases y.len(),
{
    if y.len() == 0 {
        assert(x + y =~= x);
        assert(escape_bytes(x) + escape_bytes(y) =~= escape_bytes(x));
    } else {
        lemma_escape_append(x, y.drop_last());
        assert((x + y).drop_last() =~= x + y.drop_last());
        assert((x + y).last() == y.last());
        assert(escape_bytes(x + y) =~= escape_bytes(x) + escape_bytes(y));
    }
}

fn decode_unit(b: &[u8], i: usize) -> (r: Option<(u8, usize)>)
    ensures
        match r {
            Some((c, n)) => unit_at(b@, i as int) == Some((c, n as int)),
            None => unit_at(b@, i as int) is None,
        },
{
    if i >= b.len() || b[i] == QUOTE || b[i] < 32 {
        return None;
    }
    if b[i] != BACKSLASH {
        return Some((b[i], 1));
    }
    if i + 1 >= b.len() {
        return None;
    }
    let e = b[i + 1];
    if e == 34 {
        Some((34, 2))
    } else if e == 92 {
        Some((92, 2))
    } else if e == 98 {
        Some((8, 2))
    } else if e == 116 {
        Some((9, 2))
    } else if e == 110 {
        Some((10, 2))
    } else if e == 102 {
        Some((12, 2))
    } else if e == 114 {
        Some((13, 2))
    } else if e == 117 && b.len() - i > 5 && b[i + 2] == 48 && b[i + 3] == 48 {
        let d1 = hex_value_exec(b[i + 4]);
        let d2 = hex_value_exec(b[i + 5]);
        match (d1, d2) {
            (Some(d1), Some(d2)) => {
                let v = d1 * 16 + d2;
                if v < 32 && v != 8 && v != 9 && v != 10 && v != 12 && v != 13 {
                    Some((v, 6))
                } else {
                    None
                }
            },
            _ => None,
        }
    } else {
        None
    }
}

fn hex_value_exec(h: u8) -> (r: Option<u8>)
    ensures
        r == hex_value(h),
        r matches Some(v) ==> v < 16,
{
    if 48 <= h && h <= 57 {
        Some(h - 48)
    } else if 97 <= h && h <= 102 {
        Some(h - 87)
    } else {
        None
    }
}

/// Calls `String::from_utf8`.
///
/// Claims: it succeeds exactly on valid UTF-8, and the string it returns
/// has the given bytes as its UTF-8 encoding.
#[verifier::external_body]
pub(crate) fn string_from_utf8(bytes: Vec<u8>) -> (r: Option<String>)
    ensures
        r is Some <==> vstd::utf8::valid_utf8(bytes@),
        r matches Some(s) ==> vstd::utf8::encode_utf8(s@) == bytes@,
{
    String::from_utf8(bytes).ok()
}

/// Where the escaped form of `raw` has been read up to `i` while `b` holds
/// the string literal of `t` at `pos`: either more of `t` remains and its
/// next byte's escape starts at `i`, or all of it was read and the closing
/// quote is at `i`.
proof fn lemma_string_progress(b: Seq<u8>, pos: int, i: int, raw: Seq<u8>, t: Seq<char>)
    requires
        0 <= pos < i <= b.len(),
        b.subrange(pos + 1, i) == escape_bytes(raw),
        prefix_at(json_str(t), b, pos),
        raw.len() <= vstd::utf8::encode_utf8(t).len(),
        raw == vstd::utf8::encode_utf8(t).take(raw.len() as int),
    ensures
        ({
            let r = vstd::utf8::encode_utf8(t);
            if raw.len() < r.len() {
                prefix_at(escape_byte(r[raw.len() as int]), b, i)
            } else {
                raw == r && i < b.len() && b[i] == 34
            }
        }),
{
    let r = vstd::utf8::encode_utf8(t);
    let k = raw.len() as int;
    let rest = r.skip(k);
    assert(r =~= raw + rest);
    lemma_escape_append(raw, rest);
    lemma_prefix_split(seq![34u8] + escape_bytes(r), seq![34u8], b, pos);
    lemma_prefix_split(seq![34u8], escape_bytes(r), b, pos);
    lemma_prefix_split(escape_bytes(raw), escape_bytes(rest), b, pos + 1);
    assert(b.subrange(pos + 1, pos + 1 + escape_bytes(raw).len()) == escape_bytes(raw));
    assert(pos + 1 + escape_bytes(raw).len() == i) by {
        assert(b.subrange(pos + 1, i).len() == i - pos - 1);
    }
    if k < r.len() {
        assert(rest =~= seq![r[k]] + rest.drop_first());
        lemma_escape_append(seq![r[k]], rest.drop_first());
        assert(escape_bytes(seq![r[k]]) =~= escape_byte(r[k])) by {
            assert(seq![r[k]].drop_last() =~= Seq::<u8>::empty());
            assert(escape_bytes(Seq::<u8>::empty()) == Seq::<u8>::empty());
            assert(escape_bytes(seq![r[k]]) == escape_bytes(Seq::<u8>::empty()) + escape_byte(r[k]));
        }
        lemma_prefix_split(escape_byte(r[k]), escape_bytes(rest.drop_first()), b, i);
    } else {
        assert(raw =~= r);
        assert(rest.len() == 0);
        assert(escape_bytes(rest) =~= Seq::<u8>::empty());
        assert(b[i] == b.subrange(pos + 1 + escape_bytes(r).len(), pos + 2 + escape_bytes(r).len())[0]);
    }
}

/// Parse the JSON string literal at `pos`.
///
/// On success returns the string and the offset just past the closing
/// quote, and the bytes read are exactly the literal of that string; when
/// the literal of some string occurs at `pos`, the parse succeeds with that
/// string.
pub fn parse_json_str(b: &[u8], pos: usize) -> (r: Option<(String, usize)>)
    ensures
        r matches Some((s, end)) ==> end == pos + json_str(s@).len() && prefix_at(
            json_str(s@),
            b@,
            pos as int,
        ),
        forall|t: Seq<char>|
            #![trigger json_str(t)]
            prefix_at(json_str(t), b@, pos as int) ==> (r matches Some((s, end)) && s@ == t),
{
    if pos >= b.len() || b[pos] != QUOTE {
        proof {
            assert forall|t: Seq<char>| #![trigger json_str(t)] !prefix_at(json_str(t), b@, pos as int) by {
                if prefix_at(json_str(t), b@, pos as int) {
                    assert(b@[pos as int] == b@.subrange(pos as int, pos + json_str(t).len())[0]);
                }
            }
        }
        return None;
    }
    let mut raw: Vec<u8> = Vec::new();
    let mut i: usize = pos + 1;
    assert(b@.subrange(pos + 1, i as int) =~= escape_bytes(raw@));
    loop
        invariant
            pos < i <= b@.len(),
            b@[pos as int] == 34,
            b@.subrange(pos + 1, i as int) == escape_bytes(raw@),
            forall|t: Seq<char>|
                #![trigger json_str(t)]
                prefix_at(json_str(t), b@, pos as int) ==> raw@.len() <= vstd::utf8::encode_utf8(t).len()
                    && raw@ == vstd::utf8::encode_utf8(t).take(raw@.len() as int),
        ensures
            pos < i < b@.len(),
            b@[i as int] == 34,
            b@.subrange(pos + 1, i as int) == escape_bytes(raw@),
            forall|t: Seq<char>|
                #![trigger json_str(t)]
                prefix_at(json_str(t), b@, pos as int) ==> raw@ == vstd::utf8::encode_utf8(t),
        decreases b@.len() - i,
    {
        if i >= b.len() {
            proof {
                assert forall|t: Seq<char>| #![trigger json_str(t)] !prefix_at(json_str(t), b@, pos as int) by {
                    if prefix_at(json_str(t), b@, pos as int) {
                        lemma_string_progress(b@, pos as int, i as int, raw@, t);
                    }
                }
            }
            return None;
        }
        if b[i] == QUOTE {
            proof {
                assert forall|t: Seq<char>| #![trigger json_str(t)] prefix_at(json_str(t), b@, pos as int)
                    implies raw@ == vstd::utf8::encode_utf8(t) by {
                    lemma_string_progress(b@, pos as int, i as int, raw@, t);
                    let r = vstd::utf8::encode_utf8(t);
                    if raw@.len() < r.len() {
                        lemma_unit_complete(r[raw@.len() as int], b@, i as int);
                    }
                }
            }
            break;
        }
        match decode_unit(b, i) {
            None => {
                proof {
                    assert forall|t: Seq<char>| #![trigger json_str(t)] !prefix_at(json_str(t), b@, pos as int) by {
                        if prefix_at(json_str(t), b@, pos as int) {
                            lemma_string_progress(b@, pos as int, i as int, raw@, t);
                            let r = vstd::utf8::encode_utf8(t);
                            if raw@.len() < r.len() {
                                lemma_unit_complete(r[raw@.len() as int], b@, i as int);
                            }
                        }
                    }
                }
                return None;
            },
            Some((c, n)) => {
                let ghost old_raw = raw@;
                let ghost old_i = i as int;
                proof {
                    lemma_unit_sound(b@, i as int);
                    assert forall|t: Seq<char>| #![trigger json_str(t)] prefix_at(json_str(t), b@, pos as int)
                        implies old_raw.len() < vstd::utf8::encode_utf8(t).len() && vstd::utf8::encode_utf8(t)[old_raw.len() as int] == c by {
                        lemma_string_progress(b@, pos as int, i as int, raw@, t);
                        let r = vstd::utf8::encode_utf8(t);
                        if raw@.len() < r.len() {
                            lemma_unit_complete(r[raw@.len() as int], b@, i as int);
                        }
                    }
                }
                raw.push(c);
                i = i + n;
                proof {
                    assert(raw@.drop_last() =~= old_raw);
                    assert(escape_bytes(raw@) == escape_bytes(old_raw) + escape_byte(c));
                    lemma_prefix_split(escape_bytes(old_raw), escape_byte(c), b@, pos + 1);
                    assert(b@.subrange(pos + 1, old_i) == escape_bytes(old_raw));
                    assert(b@.subrange(pos + 1, i as int) =~= escape_bytes(old_raw) + escape_byte(c)) by {
                        assert(b@.subrange(old_i, old_i + n) == escape_byte(c));
                    }
                    assert forall|t: Seq<char>| #![trigger json_str(t)] prefix_at(json_str(t), b@, pos as int)
                        implies raw@.len() <= vstd::utf8::encode_utf8(t).len() && raw@ == vstd::utf8::encode_utf8(t).take(raw@.len() as int) by {
                        let r = vstd::utf8::encode_utf8(t);
                        assert(old_raw == r.take(old_raw.len() as int));
                        assert(raw@ =~= r.take(raw@.len() as int));
                    }
                }
            },
        }
    }
    let end = i + 1;
    let ghost rawv = raw@;
    match string_from_utf8(raw) {
        None => {
            proof {
                assert forall|t: Seq<char>| #![trigger json_str(t)] !prefix_at(json_str(t), b@, pos as int) by {
                    if prefix_at(json_str(t), b@, pos as int) {
                        vstd::utf8::encode_utf8_valid_utf8(t);
                    }
                }
            }
            None
        },
        Some(s) => {
            proof {
                assert(b@.subrange(pos as int, end as int) =~= seq![34u8] + escape_bytes(rawv) + seq![34u8]);
                assert forall|t: Seq<char>| #![trigger json_str(t)] prefix_at(json_str(t), b@, pos as int)
                    implies s@ == t by {
                    vstd::utf8::encode_utf8_decode_utf8(t);
                    vstd::utf8::encode_utf8_decode_utf8(s@);
                }
            }
            Some((s, end))
        },
    }
}

// ---- Decoder: lists --------------------------------------------------------------

/// The bytes between the opening bracket of a list and its element `k`.
pub open spec fn list_prefix(parts: Seq<Seq<u8>>, k: int) -> Seq<u8> {
    if k == 0 {
        seq![]
    } else {
        join_commas(parts.take(k)) + seq![44u8]
    }
}

/// The bytes between element `k` of a list and its closing bracket.
pub open spec fn list_suffix(parts: Seq<Seq<u8>>, k: int) -> Seq<u8> {
    if k + 1 < parts.len() {
        seq![44u8] + join_commas(parts.skip(k + 1))
    } else {
        seq![]
    }
}

proof fn lemma_join_single(x: Seq<u8>)
    ensures
        join_commas(seq![x]) == x,
{
}

/// Splitting a comma-joined list after `k` parts.
pub proof fn lemma_join_split(parts: Seq<Seq<u8>>, k: int)
    requires
        0 < k < parts.len(),
    ensures
        join_commas(parts) == join_commas(parts.take(k)) + seq![44u8] + join_commas(parts.skip(k)),
    decreases parts.len(),
{
    if k == parts.len() - 1 {
        assert(parts.take(k) =~= parts.drop_last());
        assert(parts.skip(k) =~= seq![parts.last()]);
        lemma_join_single(parts.last());
    } else {
        lemma_join_split(parts.drop_last(), k);
        assert(parts.drop_last().take(k) =~= parts.take(k));
        assert(parts.drop_last().skip(k) =~= parts.skip(k).drop_last());
        assert(parts.skip(k).last() == parts.last());
        assert(join_commas(parts.skip(k)) == join_commas(parts.skip(k).drop_last()) + seq![44u8]
            + parts.skip(k).last());
        assert(join_commas(parts) =~= join_commas(parts.take(k)) + seq![44u8] + join_commas(
            parts.skip(k),
        ));
    }
}

/// A comma-joined list around its element `k`.
pub proof fn lemma_join_around(parts: Seq<Seq<u8>>, k: int)
    requires
        0 <= k < parts.len(),
    ensures
        join_commas(parts) == list_prefix(parts, k) + parts[k] + list_suffix(parts, k),
{
    let rest = parts.skip(k);
    if k + 1 < parts.len() {
        lemma_join_split(rest, 1);
        assert(rest.take(1) =~= seq![parts[k]]);
        lemma_join_single(parts[k]);
        assert(rest.skip(1) =~= parts.skip(k + 1));
    } else {
        assert(rest =~= seq![parts[k]]);
        lemma_join_single(parts[k]);
    }
    if k > 0 {
        lemma_join_split(parts, k);
    } else {
        assert(parts.skip(0) =~= parts);
    }
    assert(join_commas(parts) =~= list_prefix(parts, k) + parts[k] + list_suffix(parts, k));
}

/// Where a bracketed list occurs at `pos`, its element `k` occurs after the
/// opening bracket and the parts before it, and is followed by a comma when
/// more parts follow and by the closing bracket otherwise.
proof fn lemma_list_element(parts: Seq<Seq<u8>>, b: Seq<u8>, pos: int, k: int)
    requires
        0 <= k < parts.len(),
        prefix_at(seq![91u8] + join_commas(parts) + seq![93u8], b, pos),
    ensures
        prefix_at(list_prefix(parts, k), b, pos + 1),
        prefix_at(parts[k], b, pos + 1 + list_prefix(parts, k).len()),
        pos + 1 + list_prefix(parts, k).len() + parts[k].len() < b.len(),
        b[pos + 1 + list_prefix(parts, k).len() + parts[k].len()] == (if k + 1 < parts.len() {
            44u8
        } else {
            93u8
        }),
{
    lemma_join_around(parts, k);
    let pre = list_prefix(parts, k);
    let suf = list_suffix(parts, k);
    let whole = seq![91u8] + join_commas(parts) + seq![93u8];
    assert(whole =~= seq![91u8] + pre + parts[k] + (suf + seq![93u8]));
    lemma_prefix_split(seq![91u8] + pre + parts[k], suf + seq![93u8], b, pos);
    lemma_prefix_split(seq![91u8] + pre, parts[k], b, pos);
    lemma_prefix_split(seq![91u8], pre, b, pos);
    let at = pos + 1 + pre.len() + parts[k].len();
    assert(b[at] == (suf + seq![93u8])[0]) by {
        assert(b.subrange(at, at + (suf + seq![93u8]).len()) == suf + seq![93u8]);
    }
}

/// Appending one more parsed element to a list read so far.
proof fn lemma_list_grow(parts: Seq<Seq<u8>>, x: Seq<u8>, b: Seq<u8>, pos: int, i: int)
    requires
        0 <= pos,
        pos + 1 <= i,
        i <= b.len(),
        b.subrange(pos + 1, i) == list_prefix(parts, parts.len() as int),
        prefix_at(x, b, i),
    ensures
        b.subrange(pos + 1, i + x.len()) == join_commas(parts.push(x)),
{
    assert(parts.push(x).drop_last() =~= parts);
    assert(parts.take(parts.len() as int) =~= parts);
    if parts.len() == 0 {
        lemma_join_single(x);
        assert(parts.push(x) =~= seq![x]);
    }
    assert(b.subrange(pos + 1, i + x.len()) =~= b.subrange(pos + 1, i) + x);
}

/// Read `tok` at `pos`.
fn expect_token(b: &[u8], pos: usize, tok: &[u8]) -> (r: Option<usize>)
    ensures
        r is Some <==> prefix_at(tok@, b@, pos as int),
        r matches Some(j) ==> j == pos + tok@.len(),
{
    if pos > b.len() || b.len() - pos < tok.len() {
        return None;
    }
    let mut k: usize = 0;
    while k < tok.len()
        invariant
            0 <= k <= tok@.len(),
            pos + tok@.len() <= b@.len(),
            pos + tok.len() <= b.len(),
            forall|j: int| 0 <= j < k ==> b@[pos + j] == tok@[j],
        decreases tok@.len() - k,
    {
        if b[pos + k] != tok[k] {
            proof {
                if prefix_at(tok@, b@, pos as int) {
                    assert(b@[pos + k] == b@.subrange(pos as int, pos + tok@.len())[k as int]);
                }
            }
            return None;
        }
        k = k + 1;
    }
    assert(b@.subrange(pos as int, pos + tok@.len()) =~= tok@);
    Some(pos + tok.len())
}

/// Parse a JSON array of string literals at `pos`.
pub fn parse_str_list(b: &[u8], pos: usize) -> (r: Option<(Vec<String>, usize)>)
    ensures
        r matches Some((v, end)) ==> end == pos + json_str_list(strings_view(v@)).len() && prefix_at(
            json_str_list(strings_view(v@)),
            b@,
            pos as int,
        ),
        forall|l: Seq<Seq<char>>|
            #![trigger json_str_list(l)]
            prefix_at(json_str_list(l), b@, pos as int) ==> (r matches Some((v, end)) && strings_view(
                v@,
            ) == l),
{
    if pos >= b.len() || b[pos] != OPEN_BRACKET {
        proof {
            assert forall|l: Seq<Seq<char>>| #![trigger json_str_list(l)] !prefix_at(json_str_list(l), b@, pos as int) by {
                if prefix_at(json_str_list(l), b@, pos as int) {
                    assert(b@[pos as int] == b@.subrange(pos as int, pos + json_str_list(l).len())[0]);
                }
            }
        }
        return None;
    }
    if pos + 1 < b.len() && b[pos + 1] == CLOSE_BRACKET {
        let v: Vec<String> = Vec::new();
        proof {
            assert(strings_view(v@) =~= Seq::<Seq<char>>::empty());
            assert(json_strs(strings_view(v@)) =~= Seq::<Seq<u8>>::empty());
            assert(b@.subrange(pos as int, pos + 2) =~= json_str_list(strings_view(v@)));
            assert forall|l: Seq<Seq<char>>| #![trigger json_str_list(l)] prefix_at(json_str_list(l), b@, pos as int)
                implies strings_view(v@) == l by {
                if l.len() > 0 {
                    lemma_list_element(json_strs(l), b@, pos as int, 0);
                    let x = json_strs(l)[0];
                    assert(b@[pos + 1] == b@.subrange(pos + 1, pos + 1 + x.len())[0]);
                }
                assert(strings_view(v@) =~= l);
            }
        }
        return Some((v, pos + 2));
    }
    let mut v: Vec<String> = Vec::new();
    let mut i: usize = pos + 1;
    proof {
        assert(b@.subrange(pos + 1, i as int) =~= list_prefix(json_strs(strings_view(v@)), 0));
        assert forall|l: Seq<Seq<char>>| #![trigger json_str_list(l)] prefix_at(json_str_list(l), b@, pos as int)
            implies 0 < l.len() && strings_view(v@) == l.take(0) by {
            if l.len() == 0 {
                assert(json_strs(l) =~= Seq::<Seq<u8>>::empty());
                assert(b@[pos + 1] == b@.subrange(pos as int, pos + 2)[1]);
            }
            assert(strings_view(v@) =~= l.take(0));
        }
    }
    loop
        invariant
            pos < i <= b@.len(),
            b@[pos as int] == 91,
            b@.subrange(pos + 1, i as int) == list_prefix(
                json_strs(strings_view(v@)),
                v@.len() as int,
            ),
            forall|l: Seq<Seq<char>>|
                #![trigger json_str_list(l)]
                prefix_at(json_str_list(l), b@, pos as int) ==> v@.len() < l.len() && strings_view(v@)
                    == l.take(v@.len() as int),
        decreases b@.len() - i,
    {
        let ghost k = v@.len() as int;
        let ghost parsed = json_strs(strings_view(v@));
        proof {
            assert forall|l: Seq<Seq<char>>| #![trigger json_str_list(l)] prefix_at(json_str_list(l), b@, pos as int)
                implies prefix_at(json_str(l[k]), b@, i as int) && i + json_str(l[k]).len() < b@.len() && b@[i + json_str(l[k]).len()] == (if k + 1 < l.len() { 44u8 } else { 93u8 }) by {
                lemma_list_element(json_strs(l), b@, pos as int, k);
                assert(json_strs(l).take(k) =~= parsed);
                assert(parsed.take(k) =~= parsed);
                assert(list_prefix(json_strs(l), k) == list_prefix(parsed, k));
            }
        }
        match parse_json_str(b, i) {
            None => {
                return None;
            },
            Some((s, j)) => {
                let ghost old_v = strings_view(v@);
                v.push(s);
                proof {
                    assert(strings_view(v@) =~= old_v.push(s@));
                    assert(json_strs(strings_view(v@)) =~= parsed.push(json_str(s@)));
                    lemma_prefix_split(json_str(s@), Seq::<u8>::empty(), b@, i as int);
                    lemma_list_grow(parsed, json_str(s@), b@, pos as int, i as int);
                    assert forall|l: Seq<Seq<char>>| #![trigger json_str_list(l)] prefix_at(json_str_list(l), b@, pos as int)
                        implies strings_view(v@) == l.take(k + 1) by {
                        assert(l.take(k + 1) =~= l.take(k).push(l[k]));
                    }
                }
                if j < b.len() && b[j] == COMMA {
                    i = j + 1;
                    proof {
                        let np = json_strs(strings_view(v@));
                        assert(np.take(k + 1) =~= np);
                        assert(b@.subrange(pos + 1, i as int) =~= b@.subrange(pos + 1, j as int) + seq![44u8]);
                        assert(b@.subrange(pos + 1, i as int) == list_prefix(np, k + 1));
                    }
                } else if j < b.len() && b[j] == CLOSE_BRACKET {
                    let end = j + 1;
                    proof {
                        let np = json_strs(strings_view(v@));
                        assert(b@.subrange(pos as int, end as int) =~= seq![91u8] + join_commas(np) + seq![93u8]);
                        assert forall|l: Seq<Seq<char>>| #![trigger json_str_list(l)] prefix_at(json_str_list(l), b@, pos as int)
                            implies strings_view(v@) == l by {
                            if k + 1 < l.len() {
                                assert(b@[j as int] == 44u8);
                            }
                            assert(l.take(k + 1) =~= l);
                        }
                    }
                    return Some((v, end));
                } else {
                    proof {
                        assert forall|l: Seq<Seq<char>>| #![trigger json_str_list(l)] !prefix_at(json_str_list(l), b@, pos as int) by {
                            if prefix_at(json_str_list(l), b@, pos as int) {
                                assert(prefix_at(json_str(l[k]), b@, i as int));
                                assert(s@ == l[k]);
                                assert(j == i + json_str(l[k]).len());
                            }
                        }
                    }
                    return None;
                }
            },
        }
    }
}

// ---- Decoder: entries and the body -------------------------------------------

/// Parse a field name token followed by a string literal at `pos`.
fn parse_field(b: &[u8], pos: usize, tok: &[u8]) -> (r: Option<(String, usize)>)
    ensures
        r matches Some((s, end)) ==> end == pos + field_json(tok@, s@).len() && prefix_at(
            field_json(tok@, s@),
            b@,
            pos as int,
        ),
        forall|t: Seq<char>|
            #![trigger field_json(tok@, t)]
            prefix_at(field_json(tok@, t), b@, pos as int) ==> (r matches Some((s, end)) && s@ == t),
{
    match expect_token(b, pos, tok) {
        None => {
            proof {
                assert forall|t: Seq<char>| #![trigger field_json(tok@, t)] !prefix_at(field_json(tok@, t), b@, pos as int) by {
                    lemma_prefix_split(tok@, json_str(t), b@, pos as int);
                }
            }
            None
        },
        Some(i) => {
            assert(prefix_at(tok@, b@, pos as int));
            assert(b@.len() == b.len());
            assert(i == pos + tok@.len());
            let r = parse_json_str(b, i);
            proof {
                assert forall|t: Seq<char>| #![trigger field_json(tok@, t)] prefix_at(field_json(tok@, t), b@, pos as int)
                    implies (r matches Some((s, end)) && s@ == t) by {
                    lemma_prefix_split(tok@, json_str(t), b@, pos as int);
                    assert(field_json(tok@, t) == tok@ + json_str(t));
                    assert(prefix_at(tok@ + json_str(t), b@, pos as int));
                    assert(prefix_at(tok@, b@, pos as int));
                    assert(i == pos + tok@.len());
                    assert(prefix_at(json_str(t), b@, i as int));
                }
                if r is Some {
                    let (s, end) = r->0;
                    lemma_prefix_split(tok@, json_str(s@), b@, pos as int);
                    assert(field_json(tok@, s@).len() == tok@.len() + json_str(s@).len());
                }
            }
            r
        },
    }
}

/// `b` holds, from `pos` on, the pieces of the object of `m` one after the
/// other.
pub open spec fn entry_pieces_at(m: EntryModel, b: Seq<u8>, pos: int) -> bool {
    let f1 = field_json(TOKEN_ID@, m.id);
    let f2 = field_json(TOKEN_TITLE@, m.title);
    let f3 = field_json(TOKEN_USERNAME@, m.username);
    let f4 = field_json(TOKEN_PASSWORD@, m.password);
    let p5 = pos + f1.len() + f2.len() + f3.len() + f4.len();
    let u = TOKEN_URLS@ + json_str_list(m.urls);
    let f6 = field_json(TOKEN_NOTES@, m.notes);
    let f7 = field_json(TOKEN_CREATED@, m.created);
    let f8 = field_json(TOKEN_UPDATED@, m.updated);
    &&& prefix_at(f1, b, pos)
    &&& prefix_at(f2, b, pos + f1.len())
    &&& prefix_at(f3, b, pos + f1.len() + f2.len())
    &&& prefix_at(f4, b, pos + f1.len() + f2.len() + f3.len())
    &&& prefix_at(TOKEN_URLS@, b, p5)
    &&& prefix_at(json_str_list(m.urls), b, p5 + TOKEN_URLS@.len())
    &&& prefix_at(f6, b, p5 + u.len())
    &&& prefix_at(f7, b, p5 + u.len() + f6.len())
    &&& prefix_at(f8, b, p5 + u.len() + f6.len() + f7.len())
    &&& prefix_at(seq![125u8], b, p5 + u.len() + f6.len() + f7.len() + f8.len())
}

proof fn lemma_entry_pieces(m: EntryModel, b: Seq<u8>, pos: int)
    ensures
        prefix_at(entry_json(m), b, pos) <==> entry_pieces_at(m, b, pos),
{
    let f1 = field_json(TOKEN_ID@, m.id);
    let f2 = field_json(TOKEN_TITLE@, m.title);
    let f3 = field_json(TOKEN_USERNAME@, m.username);
    let f4 = field_json(TOKEN_PASSWORD@, m.password);
    let u = TOKEN_URLS@ + json_str_list(m.urls);
    let f6 = field_json(TOKEN_NOTES@, m.notes);
    let f7 = field_json(TOKEN_CREATED@, m.created);
    let f8 = field_json(TOKEN_UPDATED@, m.updated);
    reveal(entry_json);
    let a1 = f1;
    let a2 = a1 + f2;
    let a3 = a2 + f3;
    let a4 = a3 + f4;
    let a5 = a4 + u;
    let a6 = a5 + f6;
    let a7 = a6 + f7;
    let a8 = a7 + f8;
    assert(entry_json(m) == a8 + seq![125u8]);
    lemma_prefix_split(a8, seq![125u8], b, pos);
    lemma_prefix_split(a7, f8, b, pos);
    lemma_prefix_split(a6, f7, b, pos);
    lemma_prefix_split(a5, f6, b, pos);
    lemma_prefix_split(a4, u, b, pos);
    lemma_prefix_split(a3, f4, b, pos);
    lemma_prefix_split(a2, f3, b, pos);
    lemma_prefix_split(a1, f2, b, pos);
    lemma_prefix_split(TOKEN_URLS@, json_str_list(m.urls), b, pos + a4.len());
}

/// An entry object opens with a brace.
proof fn lemma_entry_json_opens(m: EntryModel)
    ensures
        entry_json(m).len() > 0,
        entry_json(m)[0] == 123u8,
{
    reveal(entry_json);
    assert(entry_json(m)[0] == field_json(TOKEN_ID@, m.id)[0]);
}

/// Parse one entry object at `pos`.
#[verifier::rlimit(40)]
fn parse_entry(b: &[u8], pos: usize) -> (r: Option<(Entry, usize)>)
    ensures
        r matches Some((e, end)) ==> end == pos + entry_json(e@).len() && prefix_at(
            entry_json(e@),
            b@,
            pos as int,
        ),
        forall|m: EntryModel|
            #![trigger entry_json(m)]
            prefix_at(entry_json(m), b@, pos as int) ==> (r matches Some((e, end)) && e@ == m),
{
    let (id, i1) = match parse_field(b, pos, &TOKEN_ID) {
        Some(x) => x,
        None => {
            proof {
                assert forall|m: EntryModel| #![trigger entry_json(m)] !prefix_at(entry_json(m), b@, pos as int) by {
                    if prefix_at(entry_json(m), b@, pos as int) {
                        lemma_entry_pieces(m, b@, pos as int);
                        assert(prefix_at(field_json(TOKEN_ID@, m.id), b@, pos as int));
                    }
                }
            }
            return None;
        },
    };
    proof {
        assert forall|m: EntryModel| #![trigger entry_json(m)] prefix_at(entry_json(m), b@, pos as int) implies m.id == id@ by {
            lemma_entry_pieces(m, b@, pos as int);
            assert(prefix_at(field_json(TOKEN_ID@, m.id), b@, pos as int));
        }
    }
    let (title, i2) = match parse_field(b, i1, &TOKEN_TITLE) {
        Some(x) => x,
        None => {
            proof {
                assert forall|m: EntryModel| #![trigger entry_json(m)] !prefix_at(entry_json(m), b@, pos as int) by {
                    if prefix_at(entry_json(m), b@, pos as int) {
                        lemma_entry_pieces(m, b@, pos as int);
                        assert(m.id == id@);
                        assert(prefix_at(field_json(TOKEN_TITLE@, m.title), b@, i1 as int));
                    }
                }
            }
            return None;
        },
    };
    proof {
        assert forall|m: EntryModel| #![trigger entry_json(m)] prefix_at(entry_json(m), b@, pos as int) implies m.title == title@ by {
            lemma_entry_pieces(m, b@, pos as int);
            assert(m.id == id@);
            assert(prefix_at(field_json(TOKEN_TITLE@, m.title), b@, i1 as int));
        }
    }
    let (username, i3) = match parse_field(b, i2, &TOKEN_USERNAME) {
        Some(x) => x,
        None => {
            proof {
                assert forall|m: EntryModel| #![trigger entry_json(m)] !prefix_at(entry_json(m), b@, pos as int) by {
                    if prefix_at(entry_json(m), b@, pos as int) {
                        lemma_entry_pieces(m, b@, pos as int);
                        assert(m.id == id@);
                        assert(m.title == title@);
                        assert(prefix_at(field_json(TOKEN_USERNAME@, m.username), b@, i2 as int));
                    }
                }
            }
            return None;
        },
    };
    proof {
        assert forall|m: EntryModel| #![trigger entry_json(m)] prefix_at(entry_json(m), b@, pos as int) implies m.username == username@ by {
            lemma_entry_pieces(m, b@, pos as int);
            assert(m.id == id@);
            assert(m.title == title@);
            assert(prefix_at(field_json(TOKEN_USERNAME@, m.username), b@, i2 as int));
        }
    }
    let (password, i4) = match parse_field(b, i3, &TOKEN_PASSWORD) {
        Some(x) => x,
        None => {
            proof {
                assert forall|m: EntryModel| #![trigger entry_json(m)] !prefix_at(entry_json(m), b@, pos as int) by {
                    if prefix_at(entry_json(m), b@, pos as int) {
                        lemma_entry_pieces(m, b@, pos as int);
                        assert(m.id == id@);
                        assert(m.title == title@);
                        assert(m.username == username@);
                        assert(prefix_at(field_json(TOKEN_PASSWORD@, m.password), b@, i3 as int));
                    }
                }
            }
            return None;
        },
    };
    proof {
        assert forall|m: EntryModel| #![trigger entry_json(m)] prefix_at(entry_json(m), b@, pos as int) implies m.password == password@ by {
            lemma_entry_pieces(m, b@, pos as int);
            assert(m.id == id@);
            assert(m.title == title@);
            assert(m.username == username@);
            assert(prefix_at(field_json(TOKEN_PASSWORD@, m.password), b@, i3 as int));
        }
    }
    let i5 = match expect_token(b, i4, &TOKEN_URLS) {
        Some(x) => x,
        None => {
            proof {
                assert forall|m: EntryModel| #![trigger entry_json(m)] !prefix_at(entry_json(m), b@, pos as int) by {
                    if prefix_at(entry_json(m), b@, pos as int) {
                        lemma_entry_pieces(m, b@, pos as int);
                        assert(m.id == id@);
                        assert(m.title == title@);
                        assert(m.username == username@);
                        assert(m.password == password@);
                        assert(prefix_at(TOKEN_URLS@, b@, i4 as int));
                    }
                }
            }
            return None;
        },
    };
    let (urls, i6) = match parse_str_list(b, i5) {
        Some(x) => x,
        None => {
            proof {
                assert forall|m: EntryModel| #![trigger entry_json(m)] !prefix_at(entry_json(m), b@, pos as int) by {
                    if prefix_at(entry_json(m), b@, pos as int) {
                        lemma_entry_pieces(m, b@, pos as int);
                        assert(m.id == id@);
                        assert(m.title == title@);
                        assert(m.username == username@);
                        assert(m.password == password@);
                        assert(prefix_at(json_str_list(m.urls), b@, i5 as int));
                    }
                }
            }
            return None;
        },
    };
    proof {
        assert forall|m: EntryModel| #![trigger entry_json(m)] prefix_at(entry_json(m), b@, pos as int) implies m.urls == strings_view(urls@) by {
            lemma_entry_pieces(m, b@, pos as int);
            assert(m.id == id@);
            assert(m.title == title@);
            assert(m.username == username@);
            assert(m.password == password@);
            assert(prefix_at(json_str_list(m.urls), b@, i5 as int));
        }
    }
    let (notes, i7) = match parse_field(b, i6, &TOKEN_NOTES) {
        Some(x) => x,
        None => {
            proof {
                assert forall|m: EntryModel| #![trigger entry_json(m)] !prefix_at(entry_json(m), b@, pos as int) by {
                    if prefix_at(entry_json(m), b@, pos as int) {
                        lemma_entry_pieces(m, b@, pos as int);
                        assert(m.id == id@);
                        assert(m.title == title@);
                        assert(m.username == username@);
                        assert(m.password == password@);
                        assert(m.urls == strings_view(urls@));
                        assert(prefix_at(field_json(TOKEN_NOTES@, m.notes), b@, i6 as int));
                    }
                }
            }
            return None;
        },
    };
    proof {
        assert forall|m: EntryModel| #![trigger entry_json(m)] prefix_at(entry_json(m), b@, pos as int) implies m.notes == notes@ by {
            lemma_entry_pieces(m, b@, pos as int);
            assert(m.id == id@);
            assert(m.title == title@);
            assert(m.username == username@);
            assert(m.password == password@);
            assert(m.urls == strings_view(urls@));
            assert(prefix_at(field_json(TOKEN_NOTES@, m.notes), b@, i6 as int));
        }
    }
    let (created, i8) = match parse_field(b, i7, &TOKEN_CREATED) {
        Some(x) => x,
        None => {
            proof {
                assert forall|m: EntryModel| #![trigger entry_json(m)] !prefix_at(entry_json(m), b@, pos as int) by {
                    if prefix_at(entry_json(m), b@, pos as int) {
                        lemma_entry_pieces(m, b@, pos as int);
                        assert(m.id == id@);
                        assert(m.title == title@);
                        assert(m.username == username@);
                        assert(m.password == password@);
                        assert(m.urls == strings_view(urls@));
                        assert(m.notes == notes@);
                        assert(prefix_at(field_json(TOKEN_CREATED@, m.created), b@, i7 as int));
                    }
                }
            }
            return None;
        },
    };
    proof {
        assert forall|m: EntryModel| #![trigger entry_json(m)] prefix_at(entry_json(m), b@, pos as int) implies m.created == created@ by {
            lemma_entry_pieces(m, b@, pos as int);
            assert(m.id == id@);
            assert(m.title == title@);
            assert(m.username == username@);
            assert(m.password == password@);
            assert(m.urls == strings_view(urls@));
            assert(m.notes == notes@);
            assert(prefix_at(field_json(TOKEN_CREATED@, m.created), b@, i7 as int));
        }
    }
    let (updated, i9) = match parse_field(b, i8, &TOKEN_UPDATED) {
        Some(x) => x,
        None => {
            proof {
                assert forall|m: EntryModel| #![trigger entry_json(m)] !prefix_at(entry_json(m), b@, pos as int) by {
                    if prefix_at(entry_json(m), b@, pos as int) {
                        lemma_entry_pieces(m, b@, pos as int);
                        assert(m.id == id@);
                        assert(m.title == title@);
                        assert(m.username == username@);
                        assert(m.password == password@);
                        assert(m.urls == strings_view(urls@));
                        assert(m.notes == notes@);
                        assert(m.created == created@);
                        assert(prefix_at(field_json(TOKEN_UPDATED@, m.updated), b@, i8 as int));
                    }
                }
            }
            return None;
        },
    };
    proof {
        assert forall|m: EntryModel| #![trigger entry_json(m)] prefix_at(entry_json(m), b@, pos as int) implies m.updated == updated@ by {
            lemma_entry_pieces(m, b@, pos as int);
            assert(m.id == id@);
            assert(m.title == title@);
            assert(m.username == username@);
            assert(m.password == password@);
            assert(m.urls == strings_view(urls@));
            assert(m.notes == notes@);
            assert(m.created == created@);
            assert(prefix_at(field_json(TOKEN_UPDATED@, m.updated), b@, i8 as int));
        }
    }
    if i9 >= b.len() || b[i9] != CLOSE_BRACE {
        proof {
            assert forall|m: EntryModel| #![trigger entry_json(m)] !prefix_at(entry_json(m), b@, pos as int) by {
                if prefix_at(entry_json(m), b@, pos as int) {
                    lemma_entry_pieces(m, b@, pos as int);
                    assert(m.id == id@);
                    assert(m.title == title@);
                    assert(m.username == username@);
                    assert(m.password == password@);
                    assert(m.urls == strings_view(urls@));
                    assert(m.notes == notes@);
                    assert(m.created == created@);
                    assert(m.updated == updated@);
                    assert(prefix_at(seq![125u8], b@, i9 as int));
                    assert(b@[i9 as int] == b@.subrange(i9 as int, i9 + 1)[0]);
                }
            }
        }
        return None;
    }
    let e = Entry { id, title, username, password, urls, notes, created, updated };
    proof {
        assert(b@.subrange(i9 as int, i9 + 1) =~= seq![125u8]);
        assert(entry_pieces_at(e@, b@, pos as int));
        lemma_entry_pieces(e@, b@, pos as int);
        reveal(entry_json);
        assert forall|m: EntryModel| #![trigger entry_json(m)] prefix_at(entry_json(m), b@, pos as int) implies e@ == m by {
            assert(m.id == id@);
            assert(m.title == title@);
            assert(m.username == username@);
            assert(m.password == password@);
            assert(m.urls == strings_view(urls@));
            assert(m.notes == notes@);
            assert(m.created == created@);
            assert(m.updated == updated@);
        }
    }
    Some((e, i9 + 1))
}

/// Parse a JSON array of entry objects at `pos`.
#[verifier::rlimit(80)]
fn parse_entry_list(b: &[u8], pos: usize) -> (r: Option<(Vec<Entry>, usize)>)
    ensures
        r matches Some((v, end)) ==> end == pos + entry_list_json(entries_view(v@)).len() && prefix_at(
            entry_list_json(entries_view(v@)),
            b@,
            pos as int,
        ),
        forall|l: Seq<EntryModel>|
            #![trigger entry_list_json(l)]
            prefix_at(entry_list_json(l), b@, pos as int) ==> (r matches Some((v, end)) && entries_view(
                v@,
            ) == l),
{
    if pos >= b.len() || b[pos] != OPEN_BRACKET {
        proof {
            assert forall|l: Seq<EntryModel>| #![trigger entry_list_json(l)] !prefix_at(entry_list_json(l), b@, pos as int) by {
                if prefix_at(entry_list_json(l), b@, pos as int) {
                    assert(b@[pos as int] == b@.subrange(pos as int, pos + entry_list_json(l).len())[0]);
                }
            }
        }
        return None;
    }
    if pos + 1 < b.len() && b[pos + 1] == CLOSE_BRACKET {
        let v: Vec<Entry> = Vec::new();
        proof {
            assert(entries_view(v@) =~= Seq::<EntryModel>::empty());
            assert(entry_jsons(entries_view(v@)) =~= Seq::<Seq<u8>>::empty());
            assert(b@.subrange(pos as int, pos + 2) =~= entry_list_json(entries_view(v@)));
            assert forall|l: Seq<EntryModel>| #![trigger entry_list_json(l)] prefix_at(entry_list_json(l), b@, pos as int)
                implies entries_view(v@) == l by {
                if l.len() > 0 {
                    lemma_list_element(entry_jsons(l), b@, pos as int, 0);
                    lemma_entry_json_opens(l[0]);
                    let x = entry_jsons(l)[0];
                    assert(b@[pos + 1] == b@.subrange(pos + 1, pos + 1 + x.len())[0]);
                }
                assert(entries_view(v@) =~= l);
            }
        }
        return Some((v, pos + 2));
    }
    let mut v: Vec<Entry> = Vec::new();
    let mut i: usize = pos + 1;
    proof {
        assert(b@.subrange(pos + 1, i as int) =~= list_prefix(entry_jsons(entries_view(v@)), 0));
        assert forall|l: Seq<EntryModel>| #![trigger entry_list_json(l)] prefix_at(entry_list_json(l), b@, pos as int)
            implies 0 < l.len() && entries_view(v@) == l.take(0) by {
            if l.len() == 0 {
                assert(entry_jsons(l) =~= Seq::<Seq<u8>>::empty());
                assert(b@[pos + 1] == b@.subrange(pos as int, pos + 2)[1]);
            }
            assert(entries_view(v@) =~= l.take(0));
        }
    }
    loop
        invariant
            pos < i <= b@.len(),
            b@[pos as int] == 91,
            b@.subrange(pos + 1, i as int) == list_prefix(
                entry_jsons(entries_view(v@)),
                v@.len() as int,
            ),
            forall|l: Seq<EntryModel>|
                #![trigger entry_list_json(l)]
                prefix_at(entry_list_json(l), b@, pos as int) ==> v@.len() < l.len() && entries_view(v@)
                    == l.take(v@.len() as int),
        decreases b@.len() - i,
    {
        let ghost k = v@.len() as int;
        let ghost parsed = entry_jsons(entries_view(v@));
        proof {
            assert forall|l: Seq<EntryModel>| #![trigger entry_list_json(l)] prefix_at(entry_list_json(l), b@, pos as int)
                implies prefix_at(entry_json(l[k]), b@, i as int) && i + entry_json(l[k]).len() < b@.len() && b@[i + entry_json(l[k]).len()] == (if k + 1 < l.len() { 44u8 } else { 93u8 }) by {
                lemma_list_element(entry_jsons(l), b@, pos as int, k);
                assert(entry_jsons(l).take(k) =~= parsed);
                assert(parsed.take(k) =~= parsed);
                assert(list_prefix(entry_jsons(l), k) == list_prefix(parsed, k));
            }
        }
        match parse_entry(b, i) {
            None => {
                return None;
            },
            Some((e, j)) => {
                let ghost old_v = entries_view(v@);
                let ghost ev = e@;
                v.push(e);
                proof {
                    assert(entries_view(v@) =~= old_v.push(ev));
                    assert(entry_jsons(entries_view(v@)) =~= parsed.push(entry_json(ev)));
                    lemma_list_grow(parsed, entry_json(ev), b@, pos as int, i as int);
                    assert forall|l: Seq<EntryModel>| #![trigger entry_list_json(l)] prefix_at(entry_list_json(l), b@, pos as int)
                        implies entries_view(v@) == l.take(k + 1) by {
                        assert(l.take(k + 1) =~= l.take(k).push(l[k]));
                    }
                }
                if j < b.len() && b[j] == COMMA {
                    i = j + 1;
                    proof {
                        let np = entry_jsons(entries_view(v@));
                        assert(np.take(k + 1) =~= np);
                        assert(b@.subrange(pos + 1, i as int) =~= b@.subrange(pos + 1, j as int) + seq![44u8]);
                        assert(b@.subrange(pos + 1, i as int) == list_prefix(np, k + 1));
                    }
                } else if j < b.len() && b[j] == CLOSE_BRACKET {
                    let end = j + 1;
                    proof {
                        let np = entry_jsons(entries_view(v@));
                        assert(b@.subrange(pos as int, end as int) =~= seq![91u8] + join_commas(np) + seq![93u8]);
                        assert forall|l: Seq<EntryModel>| #![trigger entry_list_json(l)] prefix_at(entry_list_json(l), b@, pos as int)
                            implies entries_view(v@) == l by {
                            if k + 1 < l.len() {
                                assert(b@[j as int] == 44u8);
                            }
                            assert(l.take(k + 1) =~= l);
                        }
                    }
                    return Some((v, end));
                } else {
                    proof {
                        assert forall|l: Seq<EntryModel>| #![trigger entry_list_json(l)] !prefix_at(entry_list_json(l), b@, pos as int) by {
                            if prefix_at(entry_list_json(l), b@, pos as int) {
                                assert(prefix_at(entry_json(l[k]), b@, i as int));
                                assert(ev == l[k]);
                                assert(j == i + entry_json(l[k]).len());
                            }
                        }
                    }
                    return None;
                }
            },
        }
    }
}


// ---- Decoder: numbers and the body ---------------------------------------------

/// A decimal digit.
pub open spec fn is_digit(c: u8) -> bool {
    48 <= c <= 57
}

/// The value of a string of decimal digits.
pub open spec fn digits_value(s: Seq<u8>) -> nat
    decreases s.len(),
{
    if s.len() == 0 {
        0
    } else {
        digits_value(s.drop_last()) * 10 + (s.last() - 48) as nat
    }
}

/// The digits of `n` are digits, without a leading zero, and read back as
/// `n`; a `u32` takes at most ten of them.
proof fn lemma_decimal_shape(n: nat)
    ensures
        decimal(n).len() >= 1,
        forall|j: int| 0 <= j < decimal(n).len() ==> #[trigger] is_digit(decimal(n)[j]),
        decimal(n).len() > 1 ==> decimal(n)[0] != 48,
        digits_value(decimal(n)) == n,
        n < 10 ==> decimal(n).len() == 1,
        n >= 10 ==> decimal(n).len() >= 2,
        n < 1_000_000_000 ==> decimal(n).len() <= 9,
        n <= u32::MAX ==> decimal(n).len() <= 10,
    decreases n,
{
    let d = decimal(n);
    if n < 10 {
        assert(d == seq![(48 + n) as u8]);
        assert(d.drop_last() =~= Seq::<u8>::empty());
        assert(digits_value(d) == digits_value(Seq::<u8>::empty()) * 10 + (d.last() - 48) as nat);
    } else {
        let q = n / 10;
        lemma_decimal_shape(q);
        let dq = decimal(q);
        assert(d == dq + seq![(48 + n % 10) as u8]);
        assert(d.drop_last() =~= dq);
        assert(d.last() == (48 + n % 10) as u8);
        assert forall|j: int| 0 <= j < d.len() implies #[trigger] is_digit(d[j]) by {
            if j < d.len() - 1 {
                assert(d[j] == dq[j]);
                assert(is_digit(dq[j]));
            }
        }
        assert(d[0] == dq[0]);
        if dq.len() == 1 {
            assert(dq == seq![(48 + q) as u8]) by {
                if q >= 10 {
                    assert(dq.len() >= 2);
                }
            }
        }
        assert(digits_value(d) == digits_value(dq) * 10 + (n % 10));
        assert(q * 10 + n % 10 == n);
        if n < 1_000_000_000 {
            assert(q < 100_000_000);
            lemma_decimal_len_bound(q);
        }
        if n <= u32::MAX {
            assert(q < 1_000_000_000);
        }
    }
}

/// Below `10^8` a number takes at most eight digits.
proof fn lemma_decimal_len_bound(n: nat)
    ensures
        n < 10 ==> decimal(n).len() == 1,
        n < 100 ==> decimal(n).len() <= 2,
        n < 1_000 ==> decimal(n).len() <= 3,
        n < 10_000 ==> decimal(n).len() <= 4,
        n < 100_000 ==> decimal(n).len() <= 5,
        n < 1_000_000 ==> decimal(n).len() <= 6,
        n < 10_000_000 ==> decimal(n).len() <= 7,
        n < 100_000_000 ==> decimal(n).len() <= 8,
    decreases n,
{
    if n >= 10 {
        lemma_decimal_len_bound(n / 10);
    }
}

/// A non-empty digit string without a leading zero is the decimal form of
/// its value.
proof fn lemma_canonical_digits(d: Seq<u8>)
    requires
        d.len() >= 1,
        forall|j: int| 0 <= j < d.len() ==> #[trigger] is_digit(d[j]),
        d.len() == 1 || d[0] != 48,
    ensures
        decimal(digits_value(d)) == d,
        d.len() > 1 ==> digits_value(d) >= 10,
        digits_value(d) >= 1 || d.len() == 1,
        d[0] != 48 ==> digits_value(d) >= 1,
    decreases d.len(),
{
    let p = d.drop_last();
    assert(is_digit(d[d.len() - 1]));
    if d.len() == 1 {
        assert(p =~= Seq::<u8>::empty());
        let v = digits_value(d);
        assert(digits_value(p) == 0);
        assert(d.last() == d[0]);
        assert(v == (d[0] - 48) as nat);
        assert(v < 10);
        assert(decimal(v) == seq![(48 + v) as u8]);
        assert((48 + v) as u8 == d[0]);
        assert(decimal(v) =~= d);
    } else {
        assert forall|j: int| 0 <= j < p.len() implies #[trigger] is_digit(p[j]) by {
            assert(p[j] == d[j]);
            assert(is_digit(d[j]));
        }
        assert(p[0] == d[0]);
        lemma_canonical_digits(p);
        let v = digits_value(d);
        let c = (d.last() - 48) as nat;
        assert(c < 10);
        assert(v == digits_value(p) * 10 + c);
        assert(digits_value(p) >= 1);
        assert(v / 10 == digits_value(p));
        assert(v % 10 == c);
        assert(decimal(v) == decimal(v / 10) + seq![(48 + v % 10) as u8]);
        assert(decimal(v) =~= d);
    }
}

/// A prefix of a digit string has no greater value.
proof fn lemma_digits_prefix(d: Seq<u8>, k: int)
    requires
        0 <= k <= d.len(),
    ensures
        digits_value(d.take(k)) <= digits_value(d),
    decreases d.len(),
{
    if k < d.len() {
        lemma_digits_prefix(d.drop_last(), k);
        assert(d.drop_last().take(k) =~= d.take(k));
    } else {
        assert(d.take(k) =~= d);
    }
}

/// The decimal form of `n` stands at `pos`, followed by a byte that is not
/// a digit.
pub open spec fn decimal_at(n: nat, b: Seq<u8>, pos: int) -> bool {
    &&& prefix_at(decimal(n), b, pos)
    &&& pos + decimal(n).len() < b.len()
    &&& !is_digit(b[pos + decimal(n).len()])
}

/// Parse the decimal form of a `u32` at `pos`.
pub fn parse_decimal(b: &[u8], pos: usize) -> (r: Option<(u32, usize)>)
    ensures
        r matches Some((v, end)) ==> end == pos + decimal(v as nat).len() && prefix_at(
            decimal(v as nat),
            b@,
            pos as int,
        ),
        forall|n: nat|
            #![trigger decimal(n)]
            n <= u32::MAX && decimal_at(n, b@, pos as int) ==> (r matches Some((v, end)) && v
                == n),
{
    if pos > b.len() {
        return None;
    }
    let mut i: usize = pos;
    let mut val: u64 = 0;
    proof {
        assert(b@.subrange(pos as int, i as int) =~= Seq::<u8>::empty());
    }
    while i < b.len() && 48 <= b[i] && b[i] <= 57
        invariant
            pos <= i <= b@.len(),
            val == digits_value(b@.subrange(pos as int, i as int)),
            val <= u32::MAX,
            forall|j: int| pos <= j < i ==> #[trigger] is_digit(b@[j]),
            forall|n: nat|
                #![trigger decimal(n)]
                n <= u32::MAX && decimal_at(n, b@, pos as int) ==> i - pos <= decimal(n).len(),
        decreases b@.len() - i,
    {
        let d = (b[i] - 48) as u64;
        let nv = val * 10 + d;
        proof {
            let s = b@.subrange(pos as int, i + 1);
            assert(s.drop_last() =~= b@.subrange(pos as int, i as int));
            assert(nv == digits_value(s));
            assert forall|n: nat| #![trigger decimal(n)] n <= u32::MAX && decimal_at(n, b@, pos as int)
                implies i + 1 - pos <= decimal(n).len() && nv <= n by {
                let dn = decimal(n);
                if i - pos == dn.len() {
                    assert(!is_digit(b@[i as int]));
                }
                assert(b@.subrange(pos as int, pos + dn.len()) == dn);
                assert(s =~= dn.take(i + 1 - pos));
                lemma_digits_prefix(dn, i + 1 - pos);
                lemma_decimal_shape(n);
            }
        }
        if nv > 0xffff_ffff {
            return None;
        }
        val = nv;
        i = i + 1;
    }
    let ghost run = b@.subrange(pos as int, i as int);
    proof {
        assert forall|n: nat| #![trigger decimal(n)] n <= u32::MAX && decimal_at(n, b@, pos as int)
            implies run == decimal(n) by {
            let dn = decimal(n);
            lemma_decimal_shape(n);
            if i - pos < dn.len() {
                assert(b@[i as int] == b@.subrange(pos as int, pos + dn.len())[i - pos]);
                assert(is_digit(dn[i - pos]));
            }
            assert(b@.subrange(pos as int, pos + dn.len()) == dn);
        }
    }
    if i == pos || (i - pos > 1 && b[pos] == 48) {
        proof {
            assert forall|n: nat| #![trigger decimal(n)] !(n <= u32::MAX && decimal_at(n, b@, pos as int)) by {
                if n <= u32::MAX && decimal_at(n, b@, pos as int) {
                    lemma_decimal_shape(n);
                    assert(run[0] == b@[pos as int]);
                }
            }
        }
        return None;
    }
    proof {
        assert forall|j: int| 0 <= j < run.len() implies #[trigger] is_digit(run[j]) by {
            assert(run[j] == b@[pos + j]);
        }
        assert(run[0] == b@[pos as int]);
        lemma_canonical_digits(run);
        assert forall|n: nat| #![trigger decimal(n)] n <= u32::MAX && decimal_at(n, b@, pos as int)
            implies val == n by {
            lemma_decimal_shape(n);
        }
    }
    Some((val as u32, i))
}

/// Decode a vault body from its JSON encoding.
///
/// Succeeds exactly on the encodings of vault bodies, and then returns the
/// body encoded.
pub fn decode_body(bytes: &[u8]) -> (r: Option<VaultBody>)
    ensures
        r matches Some(body) ==> body_json(body@) == bytes@,
        forall|m: VaultBodyModel|
            #![trigger body_json(m)]
            body_json(m) == bytes@ ==> (r matches Some(body) && body@ == m),
{
    proof {
        assert forall|m: VaultBodyModel| #![trigger body_json(m)] body_json(m) == bytes@ implies {
            let p1 = TOKEN_VERSION@.len() as int;
            let p2 = p1 + decimal(m.version as nat).len();
            let p3 = p2 + TOKEN_ENTRIES@.len();
            let p4 = p3 + entry_list_json(m.entries).len();
            &&& prefix_at(TOKEN_VERSION@, bytes@, 0)
            &&& decimal_at(m.version as nat, bytes@, p1)
            &&& prefix_at(TOKEN_ENTRIES@, bytes@, p2)
            &&& prefix_at(entry_list_json(m.entries), bytes@, p3)
            &&& p4 + 1 == bytes@.len()
            &&& bytes@[p4] == 125u8
        } by {
            let a1 = TOKEN_VERSION@;
            let a2 = a1 + decimal(m.version as nat);
            let a3 = a2 + TOKEN_ENTRIES@;
            let a4 = a3 + entry_list_json(m.entries);
            assert(bytes@ == a4 + seq![125u8]);
            lemma_prefix_split(a4, seq![125u8], bytes@, 0);
            lemma_prefix_split(a3, entry_list_json(m.entries), bytes@, 0);
            lemma_prefix_split(a2, TOKEN_ENTRIES@, bytes@, 0);
            lemma_prefix_split(a1, decimal(m.version as nat), bytes@, 0);
            assert(prefix_at(a4 + seq![125u8], bytes@, 0)) by {
                assert(bytes@.subrange(0, bytes@.len() as int) =~= bytes@);
            }
            assert(bytes@[a2.len() as int] == TOKEN_ENTRIES@[0]) by {
                assert(bytes@.subrange(a2.len() as int, a3.len() as int) == TOKEN_ENTRIES@);
            }
            assert(bytes@[a4.len() as int] == seq![125u8][0]) by {
                assert(bytes@.subrange(a4.len() as int, a4.len() + 1int) == seq![125u8]);
            }
        }
    }
    let i1 = match expect_token(bytes, 0, &TOKEN_VERSION) {
        Some(x) => x,
        None => return None,
    };
    let (version, i2) = match parse_decimal(bytes, i1) {
        Some(x) => x,
        None => return None,
    };
    let i3 = match expect_token(bytes, i2, &TOKEN_ENTRIES) {
        Some(x) => x,
        None => {
            proof {
                assert forall|m: VaultBodyModel| #![trigger body_json(m)] body_json(m) != bytes@ by {
                    if body_json(m) == bytes@ {
                        assert(decimal(m.version as nat) == decimal(version as nat));
                    }
                }
            }
            return None;
        },
    };
    let (entries, i4) = match parse_entry_list(bytes, i3) {
        Some(x) => x,
        None => {
            proof {
                assert forall|m: VaultBodyModel| #![trigger body_json(m)] body_json(m) != bytes@ by {
                    if body_json(m) == bytes@ {
                        assert(decimal(m.version as nat) == decimal(version as nat));
                        assert(prefix_at(entry_list_json(m.entries), bytes@, i3 as int));
                    }
                }
            }
            return None;
        },
    };
    if i4 >= bytes.len() || bytes[i4] != CLOSE_BRACE || i4 + 1 != bytes.len() {
        proof {
            assert forall|m: VaultBodyModel| #![trigger body_json(m)] body_json(m) != bytes@ by {
                if body_json(m) == bytes@ {
                    assert(decimal(m.version as nat) == decimal(version as nat));
                    assert(prefix_at(entry_list_json(m.entries), bytes@, i3 as int));
                    assert(entry_list_json(m.entries) == entry_list_json(entries_view(entries@)));
                }
            }
        }
        return None;
    }
    let body = VaultBody { version, entries };
    proof {
        let a4 = TOKEN_VERSION@ + decimal(version as nat) + TOKEN_ENTRIES@ + entry_list_json(
            entries_view(entries@),
        );
        lemma_prefix_split(TOKEN_VERSION@, decimal(version as nat), bytes@, 0);
        lemma_prefix_split(TOKEN_VERSION@ + decimal(version as nat), TOKEN_ENTRIES@, bytes@, 0);
        lemma_prefix_split(
            TOKEN_VERSION@ + decimal(version as nat) + TOKEN_ENTRIES@,
            entry_list_json(entries_view(entries@)),
            bytes@,
            0,
        );
        assert(bytes@.subrange(i4 as int, i4 + 1) =~= seq![125u8]);
        lemma_prefix_split(a4, seq![125u8], bytes@, 0);
        assert(bytes@ =~= bytes@.subrange(0, bytes@.len() as int));
        assert(body_json(body@) == bytes@);
        assert forall|m: VaultBodyModel| #![trigger body_json(m)] body_json(m) == bytes@ implies body@ == m by {
            assert(decimal(m.version as nat) == decimal(version as nat));
            assert(prefix_at(entry_list_json(m.entries), bytes@, i3 as int));
        }
    }
    Some(body)
}

} // verus!
