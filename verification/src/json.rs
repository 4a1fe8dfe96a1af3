//! The JSON framing of diff lines and section keys, byte for byte as the saved
//! records hold them, and the SHA-256 identifiers derived from it.
use crate::model::{DiffLine, LineView};
use crate::text::chars_of;
use sha2::Digest;
use vstd::prelude::*;
use vstd::utf8::encode_scalar;

verus! {

pub open spec fn ascii_bytes(s: Seq<char>) -> Seq<u8> {
    s.map_values(|c: char| c as u8)
}

pub open spec fn hex_digit(n: int) -> u8 {
    if n < 10 {
        (48 + n) as u8
    } else {
        (87 + n) as u8
    }
}

/// The bytes JSON writes for one character inside a string: quote, backslash and
/// control characters escaped, everything else in UTF-8.
pub open spec fn json_escape(c: char) -> Seq<u8> {
    if c == '"' {
        seq![92u8, 34u8]
    } else if c == '\\' {
        seq![92u8, 92u8]
    } else if c == '\u{8}' {
        seq![92u8, 98u8]
    } else if c == '\u{c}' {
        seq![92u8, 102u8]
    } else if c == '\n' {
        seq![92u8, 110u8]
    } else if c == '\r' {
        seq![92u8, 114u8]
    } else if c == '\t' {
        seq![92u8, 116u8]
    } else if (c as u32) < 0x20 {
        seq![
            92u8,
            117u8,
            48u8,
            48u8,
            hex_digit(((c as u32) / 16) as int),
            hex_digit(((c as u32) % 16) as int),
        ]
    } else {
        encode_scalar(c as u32)
    }
}

pub open spec fn json_chars(s: Seq<char>) -> Seq<u8>
    decreases s.len(),
{
    if s.len() == 0 {
        seq![]
    } else {
        json_chars(s.drop_last()) + json_escape(s.last())
    }
}

/// A JSON string literal.
pub open spec fn json_string(s: Seq<char>) -> Seq<u8> {
    seq![34u8] + json_chars(s) + seq![34u8]
}

/// The decimal digits of `n`.
pub open spec fn decimal(n: nat) -> Seq<u8>
    decreases n,
{
    if n < 10 {
        seq![(48 + n) as u8]
    } else {
        decimal(n / 10) + seq![(48 + n % 10) as u8]
    }
}

pub open spec fn json_number_or_null(o: Option<usize>) -> Seq<u8> {
    match o {
        Some(n) => decimal(n as nat),
        None => seq![110u8, 117u8, 108u8, 108u8],
    }
}

/// A diff line as a JSON object: `{"kind":…,"text":…,"oldLine":…,"newLine":…}`.
pub open spec fn json_line(l: LineView) -> Seq<u8> {
    ascii_bytes("{\"kind\":"@) + json_string(l.kind) + ascii_bytes(",\"text\":"@) + json_string(
        l.text,
    ) + ascii_bytes(",\"oldLine\":"@) + json_number_or_null(l.old_line) + ascii_bytes(
        ",\"newLine\":"@,
    ) + json_number_or_null(l.new_line) + seq![125u8]
}

/// Items separated by commas.
pub open spec fn json_joined(items: Seq<Seq<u8>>) -> Seq<u8>
    decreases items.len(),
{
    if items.len() == 0 {
        seq![]
    } else if items.len() == 1 {
        items[0]
    } else {
        json_joined(items.drop_last()) + seq![44u8] + items.last()
    }
}

/// A JSON array of diff lines.
pub open spec fn json_lines(ls: Seq<LineView>) -> Seq<u8> {
    seq![91u8] + json_joined(ls.map_values(|l: LineView| json_line(l))) + seq![93u8]
}

/// The key a section's identifier is hashed from: `[sha,path,index,lines]`.
pub open spec fn section_key(sha: Seq<char>, path: Seq<char>, index: nat, lines: Seq<LineView>) -> Seq<
    u8,
> {
    seq![91u8] + json_string(sha) + seq![44u8] + json_string(path) + seq![44u8] + decimal(index)
        + seq![44u8] + json_lines(lines) + seq![93u8]
}

pub fn push_ascii(out: &mut Vec<u8>, s: &str)
    ensures
        final(out)@ == old(out)@ + ascii_bytes(s@),
{
    let c = chars_of(s);
    let ghost start = out@;
    let mut i: usize = 0;
    while i < c.len()
        invariant
            i <= c.len(),
            c@ == s@,
            out@ == start + ascii_bytes(c@.take(i as int)),
        decreases c.len() - i,
    {
        let b: u8 = c[i] as u8;
        out.push(b);
        i = i + 1;
        assert(out@ =~= start + ascii_bytes(c@.take(i as int)));
    }
    assert(c@.take(c.len() as int) =~= c@);
}

fn hex_digit_exec(n: u32) -> (r: u8)
    requires
        n < 16,
    ensures
        r == hex_digit(n as int),
{
    if n < 10 {
        (48 + n) as u8
    } else {
        (87 + n) as u8
    }
}

fn push_escaped(out: &mut Vec<u8>, c: char)
    ensures
        final(out)@ == old(out)@ + json_escape(c),
{
    let ghost start = out@;
    let v: u32 = c as u32;
    if c == '"' {
        out.push(92);
        out.push(34);
    } else if c == '\\' {
        out.push(92);
        out.push(92);
    } else if c == '\u{8}' {
        out.push(92);
        out.push(98);
    } else if c == '\u{c}' {
        out.push(92);
        out.push(102);
    } else if c == '\n' {
        out.push(92);
        out.push(110);
    } else if c == '\r' {
        out.push(92);
        out.push(114);
    } else if c == '\t' {
        out.push(92);
        out.push(116);
    } else if v < 0x20 {
        out.push(92);
        out.push(117);
        out.push(48);
        out.push(48);
        out.push(hex_digit_exec(v / 16));
        out.push(hex_digit_exec(v % 16));
    } else if v <= 0x7F {
        out.push((v & 0x7F) as u8);
    } else if v <= 0x7FF {
        out.push(0xC0 | ((v >> 6) & 0x1F) as u8);
        out.push(0x80 | (v & 0x3F) as u8);
    } else if v <= 0xFFFF {
        proof {
            vstd::utf8::char_is_scalar(c);
        }
        out.push(0xE0 | ((v >> 12) & 0x0F) as u8);
        out.push(0x80 | ((v >> 6) & 0x3F) as u8);
        out.push(0x80 | (v & 0x3F) as u8);
    } else {
        out.push(0xF0 | ((v >> 18) & 0x7) as u8);
        out.push(0x80 | ((v >> 12) & 0x3F) as u8);
        out.push(0x80 | ((v >> 6) & 0x3F) as u8);
        out.push(0x80 | (v & 0x3F) as u8);
    }
    proof {
        vstd::utf8::char_is_scalar(c);
    }
    assert(out@ =~= start + json_escape(c));
}

pub fn push_json_string(out: &mut Vec<u8>, s: &str)
    ensures
        final(out)@ == old(out)@ + json_string(s@),
{
    let c = chars_of(s);
    let ghost start = out@;
    out.push(34);
    let mut i: usize = 0;
    while i < c.len()
        invariant
            i <= c.len(),
            c@ == s@,
            out@ == start + seq![34u8] + json_chars(c@.take(i as int)),
        decreases c.len() - i,
    {
        push_escaped(out, c[i]);
        proof {
            assert(c@.take(i + 1).drop_last() =~= c@.take(i as int));
        }
        i = i + 1;
        assert(out@ =~= start + seq![34u8] + json_chars(c@.take(i as int)));
    }
    assert(c@.take(c.len() as int) =~= c@);
    out.push(34);
    assert(out@ =~= start + json_string(s@));
}

pub fn push_decimal(out: &mut Vec<u8>, n: u64)
    ensures
        final(out)@ == old(out)@ + decimal(n as nat),
    decreases n,
{
    let ghost start = out@;
    if n >= 10 {
        push_decimal(out, n / 10);
    }
    out.push((48 + n % 10) as u8);
    assert(out@ =~= start + decimal(n as nat));
}

fn push_number_or_null(out: &mut Vec<u8>, o: Option<usize>)
    ensures
        final(out)@ == old(out)@ + json_number_or_null(o),
{
    let ghost start = out@;
    match o {
        Some(n) => push_decimal(out, n as u64),
        None => {
            out.push(110);
            out.push(117);
            out.push(108);
            out.push(108);
        },
    }
    assert(out@ =~= start + json_number_or_null(o));
}

pub fn push_json_line(out: &mut Vec<u8>, l: &DiffLine)
    ensures
        final(out)@ == old(out)@ + json_line(l@),
{
    let ghost start = out@;
    push_ascii(out, "{\"kind\":");
    push_json_string(out, l.kind.as_str());
    push_ascii(out, ",\"text\":");
    push_json_string(out, l.text.as_str());
    push_ascii(out, ",\"oldLine\":");
    push_number_or_null(out, l.old_line);
    push_ascii(out, ",\"newLine\":");
    push_number_or_null(out, l.new_line);
    out.push(125);
    assert(out@ =~= start + json_line(l@));
}

/// The bytes of one diff line as JSON.
pub fn line_json(l: &DiffLine) -> (r: Vec<u8>)
    ensures
        r@ == json_line(l@),
{
    let mut out: Vec<u8> = Vec::new();
    push_json_line(&mut out, l);
    assert(out@ =~= json_line(l@));
    out
}

pub fn push_json_lines(out: &mut Vec<u8>, ls: &Vec<DiffLine>)
    ensures
        final(out)@ == old(out)@ + json_lines(ls@.map_values(|l: DiffLine| l@)),
{
    let ghost start = out@;
    let ghost views = ls@.map_values(|l: DiffLine| l@);
    let ghost items = views.map_values(|l: LineView| json_line(l));
    out.push(91);
    let mut i: usize = 0;
    while i < ls.len()
        invariant
            i <= ls.len(),
            views == ls@.map_values(|l: DiffLine| l@),
            items == views.map_values(|l: LineView| json_line(l)),
            out@ == start + seq![91u8] + json_joined(items.take(i as int)),
        decreases ls.len() - i,
    {
        let ghost before = out@;
        if i > 0 {
            out.push(44);
        }
        push_json_line(out, &ls[i]);
        proof {
            assert(items.take(i + 1).drop_last() =~= items.take(i as int));
            assert(items.take(i + 1).last() == json_line(ls@[i as int]@));
            if i == 0 {
                assert(items.take(0) =~= Seq::<Seq<u8>>::empty());
                assert(json_joined(items.take(1)) == items.take(1)[0]);
            }
        }
        i = i + 1;
        assert(out@ =~= start + seq![91u8] + json_joined(items.take(i as int)));
    }
    assert(items.take(ls.len() as int) =~= items);
    out.push(93);
    assert(out@ =~= start + json_lines(views));
}

/// Name for the SHA-256 digest of `data`, a function of `data` alone.
pub uninterp spec fn spec_sha256(data: Seq<u8>) -> Seq<u8>;

/// `sha2::Sha256::digest`: the SHA-256 digest of the bytes, always 32 bytes long.
#[verifier::external_body]
pub(crate) fn sha256(data: &[u8]) -> (r: Vec<u8>)
    ensures
        r@ == spec_sha256(data@),
        r@.len() == 32,
{
    sha2::Sha256::digest(data).to_vec()
}

/// Lowercase hexadecimal digits of the bytes, two per byte.
pub open spec fn spec_hex(bytes: Seq<u8>) -> Seq<char>
    decreases bytes.len(),
{
    if bytes.len() == 0 {
        seq![]
    } else {
        spec_hex(bytes.drop_last()) + seq![
            hex_digit(bytes.last() as int / 16) as char,
            hex_digit(bytes.last() as int % 16) as char,
        ]
    }
}

pub proof fn lemma_hex_len(bytes: Seq<u8>)
    ensures
        spec_hex(bytes).len() == 2 * bytes.len(),
    decreases bytes.len(),
{
    if bytes.len() > 0 {
        lemma_hex_len(bytes.drop_last());
    }
}

fn hex_char(n: u8) -> (r: char)
    requires
        n < 16,
    ensures
        r == hex_digit(n as int) as char,
{
    if n < 10 {
        (48 + n) as char
    } else {
        (87 + n) as char
    }
}

/// The bytes as lowercase hexadecimal, as `format!("{:x}", digest)` writes them.
pub fn hex(bytes: &[u8]) -> (r: String)
    ensures
        r@ == spec_hex(bytes@),
{
    let mut out = String::new();
    let mut i: usize = 0;
    while i < bytes.len()
        invariant
            i <= bytes.len(),
            out@ == spec_hex(bytes@.take(i as int)),
        decreases bytes.len() - i,
    {
        let b = bytes[i];
        crate::text::push_char(&mut out, hex_char(b / 16));
        crate::text::push_char(&mut out, hex_char(b % 16));
        proof {
            assert(bytes@.take(i + 1).drop_last() =~= bytes@.take(i as int));
        }
        i = i + 1;
        assert(out@ =~= spec_hex(bytes@.take(i as int)));
    }
    assert(bytes@.take(bytes.len() as int) =~= bytes@);
    out
}

/// The hexadecimal SHA-256 digest of `data`, in lowercase.
pub open spec fn spec_hash(data: Seq<u8>) -> Seq<char> {
    spec_hex(spec_sha256(data))
}

pub fn hash(data: &[u8]) -> (r: String)
    ensures
        r@ == spec_hash(data@),
        r@.len() == 64,
{
    let d = sha256(data);
    proof {
        lemma_hex_len(d@);
    }
    hex(&d)
}

} // verus!
